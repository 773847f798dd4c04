use vstd::prelude::*;

use crate::letter::Letter;
use crate::machine::copy_vec;
use crate::machine::data::{ReflectorId, RotorId};

verus! {

/// Mathematical model of a machine configuration.
#[verifier::ext_equal]
pub ghost struct StateView {
    /// The plug-board pair list.
    pub plug_map: Seq<(Letter, Letter)>,
    /// The rotor identities, leftmost first.
    pub rotor_ids: Seq<RotorId>,
    /// The rotor starting positions, parallel to `rotor_ids`.
    pub rotor_starts: Seq<int>,
    /// The reflector identity.
    pub reflector_id: ReflectorId,
}

/// An immutable description of a machine's starting configuration.
#[derive(Debug)]
pub struct MachineState {
    pub plug_map: Vec<(Letter, Letter)>,
    pub rotor_ids: Vec<RotorId>,
    pub rotor_starts: Vec<Letter>,
    pub reflector_id: ReflectorId,
}

impl View for MachineState {
    type V = StateView;

    open spec fn view(&self) -> StateView {
        StateView {
            plug_map: self.plug_map@,
            rotor_ids: self.rotor_ids@,
            rotor_starts: self.rotor_starts@.map_values(|l: Letter| l@),
            reflector_id: self.reflector_id,
        }
    }
}

impl MachineState {
    /// Create a new machine state
    pub fn new(
        plug_map: Vec<(Letter, Letter)>,
        rotor_ids: Vec<RotorId>,
        rotor_starts: Vec<Letter>,
        reflector_id: ReflectorId,
    ) -> (r: MachineState)
        ensures
            r@.plug_map == plug_map@,
            r@.rotor_ids == rotor_ids@,
            r@.rotor_starts == rotor_starts@.map_values(|l: Letter| l@),
            r@.reflector_id == reflector_id,
    {
        MachineState { plug_map, rotor_ids, rotor_starts, reflector_id }
    }
}

impl Clone for MachineState {
    /// Cloning keeps the configuration.
    fn clone(&self) -> (r: Self)
        ensures
            r@ == self@,
    {
        let r = MachineState {
            plug_map: copy_vec(&self.plug_map),
            rotor_ids: copy_vec(&self.rotor_ids),
            rotor_starts: copy_vec(&self.rotor_starts),
            reflector_id: self.reflector_id,
        };
        proof {
            assert(r@.rotor_starts =~= self@.rotor_starts);
        }
        r
    }
}

impl PartialEq for MachineState {
    /// Two states are equal when all four components agree.
    fn eq(&self, other: &Self) -> (r: bool) {
        if self.plug_map.len() != other.plug_map.len()
            || self.rotor_ids.len() != other.rotor_ids.len()
            || self.rotor_starts.len() != other.rotor_starts.len() {
            return false;
        }
        if self.reflector_id != other.reflector_id {
            return false;
        }
        let n = self.plug_map.len();
        let mut i: usize = 0;
        while i < n
            invariant
                i <= n,
                n == self.plug_map@.len() == other.plug_map@.len(),
                forall|k: int| 0 <= k < i ==> #[trigger] self.plug_map@[k] == other.plug_map@[k],
            decreases n - i,
        {
            let (a1, b1) = self.plug_map[i];
            let (a2, b2) = other.plug_map[i];
            if a1 != a2 || b1 != b2 {
                return false;
            }
            i = i + 1;
        }
        let n = self.rotor_ids.len();
        let mut i: usize = 0;
        while i < n
            invariant
                i <= n,
                n == self.rotor_ids@.len() == other.rotor_ids@.len(),
                forall|k: int| 0 <= k < i ==> #[trigger] self.rotor_ids@[k] == other.rotor_ids@[k],
            decreases n - i,
        {
            if self.rotor_ids[i] != other.rotor_ids[i] {
                return false;
            }
            i = i + 1;
        }
        let n = self.rotor_starts.len();
        let mut i: usize = 0;
        while i < n
            invariant
                i <= n,
                n == self.rotor_starts@.len() == other.rotor_starts@.len(),
                forall|k: int|
                    0 <= k < i ==> #[trigger] self.rotor_starts@[k] == other.rotor_starts@[k],
            decreases n - i,
        {
            if self.rotor_starts[i] != other.rotor_starts[i] {
                return false;
            }
            i = i + 1;
        }
        proof {
            assert(self.plug_map@ =~= other.plug_map@);
            assert(self.rotor_ids@ =~= other.rotor_ids@);
            assert(self.rotor_starts@ =~= other.rotor_starts@);
        }
        true
    }
}

impl Eq for MachineState {

}

impl vstd::std_specs::cmp::PartialEqSpecImpl for MachineState {
    open spec fn obeys_eq_spec() -> bool {
        true
    }

    open spec fn eq_spec(&self, other: &Self) -> bool {
        self.plug_map@ == other.plug_map@ && self.rotor_ids@ == other.rotor_ids@
            && self.rotor_starts@ == other.rotor_starts@ && self.reflector_id
            == other.reflector_id
    }
}

} // verus!
