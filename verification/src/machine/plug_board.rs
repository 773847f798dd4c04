use vstd::prelude::*;

use crate::letter::Letter;
use crate::machine::char_mapping::{spec_identity_table, CharMapping};

verus! {

/// The user-configurable board that swaps pairs of letters before and
/// after the rotor stack.
#[derive(Debug)]
pub struct PlugBoard {
    char_map: CharMapping,
}

impl View for PlugBoard {
    type V = Seq<int>;

    /// A plug board is modelled by its lookup table.
    closed spec fn view(&self) -> Seq<int> {
        self.char_map@
    }
}

/// Overlay a pair list onto a table, as construction does: a pair is
/// accepted only while both its letters still map to themselves, and an
/// accepted pair swaps the two entries.  `None` marks a rejected list.
pub open spec fn plug_fold(pairs: Seq<(Letter, Letter)>, t: Seq<int>) -> Option<Seq<int>>
    decreases pairs.len(),
{
    if pairs.len() == 0 {
        Some(t)
    } else {
        let (a, b) = pairs[0];
        if t[a@] == a@ && t[b@] == b@ {
            plug_fold(pairs.drop_first(), t.update(a@, b@).update(b@, a@))
        } else {
            None
        }
    }
}

/// Whether a pair list is accepted: no letter is claimed twice.
pub open spec fn spec_plug_valid(pairs: Seq<(Letter, Letter)>) -> bool {
    plug_fold(pairs, spec_identity_table()) is Some
}

/// The lookup table of an accepted pair list.
pub open spec fn spec_plug_table(pairs: Seq<(Letter, Letter)>) -> Seq<int> {
    plug_fold(pairs, spec_identity_table())->Some_0
}

/// A table is an involution on the alphabet: applying it twice gives the
/// letter back.
pub open spec fn mapping_involution(t: Seq<int>) -> bool {
    &&& t.len() == 26
    &&& forall|c: int| 0 <= c < 26 ==> 0 <= #[trigger] t[c] < 26
    &&& forall|c: int| 0 <= c < 26 ==> #[trigger] t[t[c]] == c
}

impl PlugBoard {
    /// Build a plug board from a list of letter pairs.
    ///
    /// Construction fails exactly when a letter is claimed by two pairs,
    /// as the overlay check decides: each pair is accepted only while both
    /// its letters still map to themselves.  A degenerate pair joining a
    /// letter to itself is accepted and leaves the board unchanged, so
    /// such a letter may still be claimed by a later pair.
    pub fn new(mapping: &[(Letter, Letter)]) -> (r: Option<PlugBoard>)
        ensures
            r is Some <==> spec_plug_valid(mapping@),
            r is Some ==> r->0@ == spec_plug_table(mapping@),
    {
        let mut built_map = CharMapping::identity();
        let n = mapping.len();
        proof {
            assert(mapping@.skip(0) =~= mapping@);
        }
        let mut i: usize = 0;
        while i < n
            invariant
                i <= n,
                n == mapping@.len(),
                built_map@.len() == 26,
                plug_fold(mapping@, spec_identity_table()) == plug_fold(
                    mapping@.skip(i as int),
                    built_map@,
                ),
            decreases n - i,
        {
            let (a, b) = mapping[i];
            let ta = built_map.get(a);
            let tb = built_map.get(b);
            proof {
                assert(mapping@.skip(i as int)[0] == mapping@[i as int]);
                assert(mapping@.skip(i as int).drop_first() =~= mapping@.skip(i as int + 1));
            }
            if !(ta == a && tb == b) {
                proof {
                    crate::letter::lemma_letter_view_range(a);
                    crate::letter::lemma_letter_view_range(b);
                    assert(!(built_map@[a@] == a@ && built_map@[b@] == b@)) by {
                        if built_map@[a@] == a@ && built_map@[b@] == b@ {
                            crate::letter::lemma_letter_of_view(a);
                            crate::letter::lemma_letter_of_view(b);
                            assert(ta@ == a@ && tb@ == b@);
                            assert(crate::letter::letter_of(ta@) == crate::letter::letter_of(a@));
                        }
                    }
                }
                return None;
            }
            built_map.set(a, b);
            built_map.set(b, a);
            proof {
                assert(ta@ == a@ && tb@ == b@);
            }
            i = i + 1;
        }
        proof {
            assert(mapping@.skip(n as int) =~= Seq::<(Letter, Letter)>::empty());
        }
        Some(PlugBoard { char_map: built_map })
    }

    /// The letter the board maps a letter to.
    pub fn map_char(&self, c: Letter) -> (r: Letter)
        requires
            self@.len() == 26,
        ensures
            r@ == self@[c@],
    {
        self.char_map.get(c)
    }
}

/// An accepted pair list always yields an involution, so mapping a letter
/// through the board twice gives the letter back.
pub proof fn lemma_plug_table_involution(pairs: Seq<(Letter, Letter)>)
    requires
        spec_plug_valid(pairs),
    ensures
        mapping_involution(spec_plug_table(pairs)),
{
    lemma_plug_fold_involution(pairs, spec_identity_table());
}

proof fn lemma_plug_fold_involution(pairs: Seq<(Letter, Letter)>, t: Seq<int>)
    requires
        mapping_involution(t),
        plug_fold(pairs, t) is Some,
    ensures
        mapping_involution(plug_fold(pairs, t)->Some_0),
    decreases pairs.len(),
{
    if pairs.len() > 0 {
        let (a, b) = pairs[0];
        let av = a@;
        let bv = b@;
        crate::letter::lemma_letter_view_range(a);
        crate::letter::lemma_letter_view_range(b);
        let t2 = t.update(av, bv).update(bv, av);
        assert(mapping_involution(t2)) by {
            assert forall|c: int| 0 <= c < 26 implies #[trigger] t2[t2[c]] == c by {
                if c == av {
                    assert(t2[av] == bv && t2[bv] == av);
                } else if c == bv {
                    assert(t2[bv] == av && t2[av] == bv);
                } else {
                    assert(t2[c] == t[c]);
                    assert(t[t[c]] == c);
                    if t[c] == av {
                        assert(t[av] == c && t[av] == av);
                    }
                    if t[c] == bv {
                        assert(t[bv] == c && t[bv] == bv);
                    }
                    assert(t2[t[c]] == t[t[c]]);
                }
            }
        }
        lemma_plug_fold_involution(pairs.drop_first(), t2);
    }
}

} // verus!
