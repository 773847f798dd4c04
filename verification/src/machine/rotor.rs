use vstd::prelude::*;

use crate::letter::{letter_to_index, Letter};
use crate::machine::char_mapping::{mapping_in_range, mapping_injective, CharMapping};

verus! {

/// Mathematical model of a rotor: its two lookup tables, position,
/// turnover positions and double-step capability.
#[verifier::ext_equal]
pub ghost struct SpecRotor {
    /// Table applied on the way back from the reflector.
    pub fwd: Seq<int>,
    /// Inverse table, applied on the way towards the reflector.
    pub rev: Seq<int>,
    /// Current rotational position.
    pub pos: int,
    /// Positions at which stepping this rotor carries to its neighbour.
    pub turnover: Seq<int>,
    /// Whether this rotor may take part in the double-step anomaly.
    pub cds: bool,
}

/// Addition on alphabet positions, wrapping around.
pub open spec fn add26(a: int, b: int) -> int {
    (a + b) % 26
}

/// Subtraction on alphabet positions, wrapping around.
pub open spec fn sub26(a: int, b: int) -> int {
    (a - b) % 26
}

/// A well-formed rotor: the two tables are mutually inverse permutations
/// and the position is a letter.
pub open spec fn rotor_wf(r: SpecRotor) -> bool {
    &&& r.fwd.len() == 26
    &&& r.rev.len() == 26
    &&& mapping_in_range(r.fwd)
    &&& mapping_in_range(r.rev)
    &&& forall|i: int| 0 <= i < 26 ==> r.rev[#[trigger] r.fwd[i]] == i
    &&& forall|i: int| 0 <= i < 26 ==> r.fwd[#[trigger] r.rev[i]] == i
    &&& 0 <= r.pos < 26
}

/// The letter a rotor sends inward through its forward table.
pub open spec fn spec_rotor_char_in(r: SpecRotor, c: int) -> int {
    sub26(r.fwd[add26(c, r.pos)], r.pos)
}

/// The letter a rotor sends outward through its inverse table.
pub open spec fn spec_rotor_char_out(r: SpecRotor, c: int) -> int {
    sub26(r.rev[add26(c, r.pos)], r.pos)
}

/// One forward step of a rotor: the new rotor, and whether the new
/// position is a turnover position (a carry).
pub open spec fn spec_rotor_step(r: SpecRotor) -> (SpecRotor, bool) {
    let p = add26(r.pos, 1);
    (SpecRotor { pos: p, ..r }, r.turnover.contains(p))
}

/// One backward step: the carry reports whether the pre-step position was
/// a turnover position.
pub open spec fn spec_rotor_unstep(r: SpecRotor) -> (SpecRotor, bool) {
    (SpecRotor { pos: sub26(r.pos, 1), ..r }, r.turnover.contains(r.pos))
}

/// A conditional double step: fires only for a double-steppable rotor one
/// position before a turnover position.
pub open spec fn spec_rotor_double_step(r: SpecRotor) -> (SpecRotor, bool) {
    if r.cds && r.turnover.contains(add26(r.pos, 1)) {
        (SpecRotor { pos: add26(r.pos, 1), ..r }, true)
    } else {
        (r, false)
    }
}

/// The mirror of the double step: retracts a double-steppable rotor
/// standing on a turnover position.
pub open spec fn spec_rotor_double_unstep(r: SpecRotor) -> (SpecRotor, bool) {
    if r.cds && r.turnover.contains(r.pos) {
        (SpecRotor { pos: sub26(r.pos, 1), ..r }, true)
    } else {
        (r, false)
    }
}

/// Some source letter of the wiring maps to the given alphabet position.
pub open spec fn spec_target_hit(mappings: Seq<(Letter, Letter)>, c: int) -> bool {
    exists|i: int| 0 <= i < mappings.len() && (#[trigger] mappings[i]).1@ == c
}

/// A permutation disk of the machine, in its current rotational position.
#[derive(Debug)]
pub struct Rotor {
    /// Name of the rotor.
    pub name: String,
    /// Lookup table applied on the way back from the reflector.
    char_map: CharMapping,
    /// Precomputed inverse of `char_map`, applied towards the reflector.
    reverse_char_map: CharMapping,
    /// Current position of the rotor.
    pos: Letter,
    /// Positions at which stepping this rotor turns over its neighbour.
    turnover_pos: Vec<Letter>,
    /// Whether this rotor can perform a double step.
    can_double_step: bool,
}

impl View for Rotor {
    type V = SpecRotor;

    closed spec fn view(&self) -> SpecRotor {
        SpecRotor {
            fwd: self.char_map@,
            rev: self.reverse_char_map@,
            pos: self.pos@,
            turnover: self.turnover_pos@.map_values(|l: Letter| l@),
            cds: self.can_double_step,
        }
    }
}

impl Rotor {
    /// Build a rotor from its wiring, listed as one target letter per
    /// source letter with the sources in alphabetical order.
    pub fn new(
        name: String,
        mappings: &[(Letter, Letter)],
        turnover_pos: Vec<Letter>,
        can_double_step: bool,
        pos: Letter,
    ) -> (r: Rotor)
        requires
            mappings@.len() == 26,
            forall|i: int| 0 <= i < 26 ==> (#[trigger] mappings@[i]).0@ == i,
            forall|i: int, j: int|
                0 <= i < 26 && 0 <= j < 26 && i != j ==> (#[trigger] mappings@[i]).1@ != (
                #[trigger] mappings@[j]).1@,
            forall|c: int| 0 <= c < 26 ==> #[trigger] spec_target_hit(mappings@, c),
        ensures
            rotor_wf(r@),
            forall|i: int| 0 <= i < 26 ==> #[trigger] r@.fwd[i] == (#[trigger] mappings@[i]).1@,
            r@.pos == pos@,
            r@.turnover == turnover_pos@.map_values(|l: Letter| l@),
            r@.cds == can_double_step,
    {
        let char_map = CharMapping::from_pairs(mappings);
        proof {
            char_map.lemma_in_range();
            assert forall|i: int, j: int|
                0 <= i < 26 && 0 <= j < 26 && i != j implies #[trigger] char_map@[i]
                != #[trigger] char_map@[j] by {
                assert(char_map@[i] == (mappings@[i]).1@);
                assert(char_map@[j] == (mappings@[j]).1@);
            }
            assert(mapping_injective(char_map@));
        }
        let reverse_char_map = CharMapping::from_reverse_of(&char_map);
        let r = Rotor { name, char_map, reverse_char_map, turnover_pos, can_double_step, pos };
        proof {
            r.reverse_char_map.lemma_in_range();
            crate::letter::lemma_letter_view_range(r.pos);
            assert forall|i: int| 0 <= i < 26 implies r@.fwd[#[trigger] r@.rev[i]] == i by {
                assert(spec_target_hit(mappings@, i));
                let j = choose|j: int|
                    0 <= j < mappings@.len() && (#[trigger] mappings@[j]).1@ == i;
                assert(r@.fwd[j] == i);
                assert(r@.rev[r@.fwd[j]] == j);
            }
        }
        r
    }

    /// Turn the rotor directly to a position.
    pub fn set_position(&mut self, pos: Letter)
        ensures
            final(self)@ == (SpecRotor { pos: pos@, ..old(self)@ }),
    {
        self.pos = pos;
    }

    /// The rotor's current position.
    pub fn position(&self) -> (l: Letter)
        ensures
            l@ == self@.pos,
    {
        self.pos
    }

    /// Send a letter inward, through the forward table.
    pub fn char_in(&self, c: Letter) -> (r: Letter)
        requires
            rotor_wf(self@),
        ensures
            r@ == spec_rotor_char_in(self@, c@),
    {
        let idx = c.add_letter(self.pos);
        self.char_map.get(idx).sub_letter(self.pos)
    }

    /// Send a letter outward, through the inverse table.
    pub fn char_out(&self, c: Letter) -> (r: Letter)
        requires
            rotor_wf(self@),
        ensures
            r@ == spec_rotor_char_out(self@, c@),
    {
        let idx = c.add_letter(self.pos);
        self.reverse_char_map.get(idx).sub_letter(self.pos)
    }

    /// Move this rotor one position forward.
    ///
    /// Returns whether the rotor reached a turnover position, so that the
    /// next rotor performs a regular step rather than a double step.
    pub fn step(&mut self) -> (carry: bool)
        ensures
            (final(self)@, carry) == spec_rotor_step(old(self)@),
    {
        self.pos = self.pos.add_usize(1);
        let carry = contains_letter(&self.turnover_pos, self.pos);
        carry
    }

    /// Move this rotor one position backward.
    ///
    /// Returns whether the rotor stood on a turnover position before the
    /// move, so that the next rotor undoes its own step.
    pub fn unstep(&mut self) -> (carry: bool)
        ensures
            (final(self)@, carry) == spec_rotor_unstep(old(self)@),
    {
        let carry = contains_letter(&self.turnover_pos, self.pos);
        self.pos = self.pos.sub_usize(1);
        carry
    }

    /// Perform a double step if this rotor can and stands one position
    /// before a turnover position.
    pub fn double_step(&mut self) -> (carry: bool)
        ensures
            (final(self)@, carry) == spec_rotor_double_step(old(self)@),
    {
        if self.can_double_step && contains_letter(&self.turnover_pos, self.pos.add_usize(1)) {
            self.pos = self.pos.add_usize(1);
            true
        } else {
            false
        }
    }

    /// Undo a double step if this rotor can double-step and stands on a
    /// turnover position.
    pub fn double_unstep(&mut self) -> (carry: bool)
        ensures
            (final(self)@, carry) == spec_rotor_double_unstep(old(self)@),
    {
        if self.can_double_step && contains_letter(&self.turnover_pos, self.pos) {
            self.pos = self.pos.sub_usize(1);
            true
        } else {
            false
        }
    }
}

impl Clone for Rotor {
    /// Cloning keeps the rotor's model.
    fn clone(&self) -> (r: Self)
        ensures
            r@ == self@,
    {
        let r = Rotor {
            name: self.name.clone(),
            char_map: self.char_map.clone(),
            reverse_char_map: self.reverse_char_map.clone(),
            pos: self.pos,
            turnover_pos: crate::machine::copy_vec(&self.turnover_pos),
            can_double_step: self.can_double_step,
        };
        proof {
            assert(r@ =~= self@);
        }
        r
    }
}

/// Whether a letter occurs in a list of letters.
fn contains_letter(v: &Vec<Letter>, l: Letter) -> (r: bool)
    ensures
        r == v@.map_values(|x: Letter| x@).contains(l@),
{
    let n = v.len();
    let mut i: usize = 0;
    while i < n
        invariant
            i <= n,
            n == v@.len(),
            forall|k: int| 0 <= k < i ==> (#[trigger] v@[k])@ != l@,
        decreases n - i,
    {
        if letter_to_index(v[i]) == letter_to_index(l) {
            proof {
                let m = v@.map_values(|x: Letter| x@);
                assert(m[i as int] == l@);
            }
            return true;
        }
        i = i + 1;
    }
    proof {
        let m = v@.map_values(|x: Letter| x@);
        assert forall|k: int| 0 <= k < m.len() implies m[k] != l@ by {
            assert(m[k] == (v@[k])@);
        }
        if m.contains(l@) {
            let k = choose|k: int| 0 <= k < m.len() && m[k] == l@;
        }
    }
    false
}

} // verus!
