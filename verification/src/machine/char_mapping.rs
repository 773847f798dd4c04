use vstd::prelude::*;

use crate::letter::{index_to_letter, letter_to_index, Letter};

verus! {

/// A 26-entry lookup table from letters to letters.
///
/// The table backs every wiring of the machine: plug board, rotors and
/// reflector all map letters through one of these.
#[derive(Debug)]
pub struct CharMapping {
    table: Vec<Letter>,
}

impl View for CharMapping {
    type V = Seq<int>;

    /// A mapping is modelled as the sequence of alphabet positions it
    /// sends each letter to.
    closed spec fn view(&self) -> Seq<int> {
        self.table@.map_values(|l: Letter| l@)
    }
}

/// A table maps every letter to a letter.
pub open spec fn mapping_in_range(t: Seq<int>) -> bool {
    &&& t.len() == 26
    &&& forall|i: int| 0 <= i < 26 ==> 0 <= #[trigger] t[i] < 26
}

/// No two letters map to the same letter.
pub open spec fn mapping_injective(t: Seq<int>) -> bool {
    forall|i: int, j: int| 0 <= i < 26 && 0 <= j < 26 && i != j ==> #[trigger] t[i] != #[trigger] t[j]
}

/// The identity table.
pub open spec fn spec_identity_table() -> Seq<int> {
    Seq::new(26, |i: int| i)
}

impl CharMapping {
    /// Every entry of the table lies in the alphabet.
    pub proof fn lemma_in_range(&self)
        requires
            self@.len() == 26,
        ensures
            mapping_in_range(self@),
    {
        assert forall|i: int| 0 <= i < 26 implies 0 <= #[trigger] self@[i] < 26 by {
            crate::letter::lemma_letter_view_range(self.table@[i]);
        }
    }

    /// The letter a letter is mapped to.
    pub fn get(&self, c: Letter) -> (r: Letter)
        requires
            self@.len() == 26,
        ensures
            r@ == self@[c@],
    {
        self.table[letter_to_index(c)]
    }

    /// Redirect one entry of the table.
    pub fn set(&mut self, c: Letter, to: Letter)
        requires
            old(self)@.len() == 26,
        ensures
            final(self)@ =~= old(self)@.update(c@, to@),
    {
        let i = letter_to_index(c);
        self.table[i] = to;
        proof {
            assert(self@ =~= old(self)@.update(c@, to@));
        }
    }

    /// The identity mapping, sending every letter to itself.
    pub fn identity() -> (r: CharMapping)
        ensures
            r@ =~= spec_identity_table(),
    {
        let mut table: Vec<Letter> = Vec::new();
        let mut n: usize = 0;
        while n < 26
            invariant
                n <= 26,
                table@.len() == n,
                forall|i: int| 0 <= i < n ==> (#[trigger] table@[i])@ == i,
            decreases 26 - n,
        {
            table.push(index_to_letter(n));
            n = n + 1;
        }
        let r = CharMapping { table };
        proof {
            assert(r@ =~= spec_identity_table());
        }
        r
    }

    /// Build a table from one target letter per source letter, the sources
    /// listed in alphabetical order.
    pub fn from_pairs(pairs: &[(Letter, Letter)]) -> (r: CharMapping)
        requires
            pairs@.len() == 26,
            forall|i: int| 0 <= i < 26 ==> (#[trigger] pairs@[i]).0@ == i,
        ensures
            r@.len() == 26,
            forall|i: int| 0 <= i < 26 ==> #[trigger] r@[i] == (#[trigger] pairs@[i]).1@,
    {
        let mut m = CharMapping::identity();
        let mut i: usize = 0;
        while i < 26
            invariant
                i <= 26,
                m@.len() == 26,
                pairs@.len() == 26,
                forall|k: int| 0 <= k < 26 ==> (#[trigger] pairs@[k]).0@ == k,
                forall|k: int| 0 <= k < i ==> #[trigger] m@[k] == (#[trigger] pairs@[k]).1@,
                forall|k: int| i <= k < 26 ==> #[trigger] m@[k] == k,
            decreases 26 - i,
        {
            let (from, to) = pairs[i];
            m.set(from, to);
            i = i + 1;
        }
        m
    }

    /// Invert a table: the result sends each target letter back to the
    /// letter that mapped to it.
    pub fn from_reverse_of(map: &CharMapping) -> (r: CharMapping)
        requires
            map@.len() == 26,
        ensures
            r@.len() == 26,
            mapping_injective(map@) && mapping_in_range(map@) ==> forall|i: int|
                0 <= i < 26 ==> #[trigger] r@[map@[i]] == i,
    {
        let mut new = CharMapping::identity();
        let mut i: usize = 0;
        while i < 26
            invariant
                i <= 26,
                new@.len() == 26,
                map@.len() == 26,
                mapping_injective(map@) && mapping_in_range(map@) ==> forall|k: int|
                    0 <= k < i ==> #[trigger] new@[map@[k]] == k,
            decreases 26 - i,
        {
            let target = map.get(index_to_letter(i));
            new.set(target, index_to_letter(i));
            i = i + 1;
        }
        new
    }
}

impl Clone for CharMapping {
    /// Cloning keeps the table.
    fn clone(&self) -> (r: Self)
        ensures
            r@ == self@,
    {
        CharMapping { table: crate::machine::copy_vec(&self.table) }
    }
}

} // verus!
