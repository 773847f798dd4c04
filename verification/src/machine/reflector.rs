use vstd::prelude::*;

use crate::letter::Letter;
use crate::machine::char_mapping::CharMapping;

verus! {

/// The fixed involution at the far end of the rotor stack.
#[derive(Debug)]
pub struct Reflector {
    char_map: CharMapping,
}

impl View for Reflector {
    type V = Seq<int>;

    /// A reflector is modelled by its lookup table.
    closed spec fn view(&self) -> Seq<int> {
        self.char_map@
    }
}

/// A well-formed reflector wiring: thirteen pairs that swap, cover the
/// whole alphabet, and leave no letter fixed.
pub open spec fn spec_reflector_pairs_ok(pairs: Seq<(Letter, Letter)>) -> bool {
    &&& pairs.len() == 13
    &&& forall|k: int| 0 <= k < 13 ==> (#[trigger] pairs[k]).0@ != pairs[k].1@
    &&& forall|k: int, j: int|
        0 <= k < 13 && 0 <= j < 13 && k != j ==> (#[trigger] pairs[k]).0@ != (
        #[trigger] pairs[j]).0@ && pairs[k].0@ != pairs[j].1@ && pairs[k].1@ != pairs[j].0@
            && pairs[k].1@ != pairs[j].1@
    &&& forall|c: int| 0 <= c < 26 ==> #[trigger] spec_pair_covers(pairs, c)
}

/// Some pair of the wiring touches the given alphabet position.
pub open spec fn spec_pair_covers(pairs: Seq<(Letter, Letter)>, c: int) -> bool {
    exists|k: int| 0 <= k < pairs.len() && ((#[trigger] pairs[k]).0@ == c || pairs[k].1@ == c)
}

/// A table that swaps in pairs and fixes no letter.
pub open spec fn mapping_derangement_involution(t: Seq<int>) -> bool {
    &&& crate::machine::plug_board::mapping_involution(t)
    &&& forall|c: int| 0 <= c < 26 ==> #[trigger] t[c] != c
}

impl Reflector {
    /// Build a reflector from its thirteen wiring pairs.
    pub fn new(mapping: &[(Letter, Letter)]) -> (r: Reflector)
        requires
            spec_reflector_pairs_ok(mapping@),
        ensures
            mapping_derangement_involution(r@),
            forall|k: int|
                0 <= k < 13 ==> r@[(#[trigger] mapping@[k]).0@] == mapping@[k].1@ && r@[mapping@[k].1@]
                    == mapping@[k].0@,
    {
        let mut m = CharMapping::identity();
        let mut i: usize = 0;
        while i < 13
            invariant
                i <= 13,
                m@.len() == 26,
                mapping@.len() == 13,
                spec_reflector_pairs_ok(mapping@),
                forall|k: int|
                    0 <= k < i ==> m@[(#[trigger] mapping@[k]).0@] == mapping@[k].1@ && m@[mapping@[k].1@]
                        == mapping@[k].0@,
                forall|c: int|
                    0 <= c < 26 && (forall|k: int|
                        0 <= k < i ==> (#[trigger] mapping@[k]).0@ != c && mapping@[k].1@ != c)
                        ==> #[trigger] m@[c] == c,
            decreases 13 - i,
        {
            let (a, b) = mapping[i];
            proof {
                crate::letter::lemma_letter_view_range(a);
                crate::letter::lemma_letter_view_range(b);
            }
            m.set(a, b);
            m.set(b, a);
            i = i + 1;
        }
        let r = Reflector { char_map: m };
        proof {
            assert forall|c: int| 0 <= c < 26 implies 0 <= #[trigger] r@[c] < 26 && r@[r@[c]] == c
                && r@[c] != c by {
                assert(spec_pair_covers(mapping@, c));
                let k = choose|k: int|
                    0 <= k < mapping@.len() && ((#[trigger] mapping@[k]).0@ == c || mapping@[k].1@
                        == c);
                crate::letter::lemma_letter_view_range(mapping@[k].0);
                crate::letter::lemma_letter_view_range(mapping@[k].1);
            }
        }
        r
    }

    /// The letter the reflector sends a letter to.
    pub fn reflect(&self, c: Letter) -> (r: Letter)
        requires
            self@.len() == 26,
        ensures
            r@ == self@[c@],
    {
        self.char_map.get(c)
    }
}

} // verus!
