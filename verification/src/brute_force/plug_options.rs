use vstd::prelude::*;

use crate::letter::Letter;

verus! {

/// Represents information known about the plug board configuration.
#[derive(Debug)]
pub enum PlugboardOptions {
    /// All connections are known.
    KnownConnections(Vec<(Letter, Letter)>),
    /// The number of connections lies in the half-open range between the
    /// two bounds.
    NumberInRange(usize, usize),
    /// The number of connections lies in the inclusive range between the
    /// two bounds.
    NumberInRangeInclusive(usize, usize),
}

/// Pairs listed with the smaller letter first, in strictly increasing
/// lexicographic order: the shape in which plug selections are
/// enumerated.
pub open spec fn spec_pairs_ordered(ps: Seq<(Letter, Letter)>) -> bool {
    &&& forall|k: int| 0 <= k < ps.len() ==> (#[trigger] ps[k]).0@ < ps[k].1@
    &&& forall|k: int|
        0 <= k < ps.len() - 1 ==> spec_pair_lt(#[trigger] ps[k], ps[k + 1])
}

/// Lexicographic order on letter pairs.
pub open spec fn spec_pair_lt(p: (Letter, Letter), q: (Letter, Letter)) -> bool {
    p.0@ < q.0@ || (p.0@ == q.0@ && p.1@ < q.1@)
}

/// Whether a plug pair list fits what is known about the plug board.
pub open spec fn spec_plug_list_matches(o: PlugboardOptions, ps: Seq<(Letter, Letter)>) -> bool {
    match o {
        PlugboardOptions::KnownConnections(l) => ps == l@,
        PlugboardOptions::NumberInRange(a, b) => a <= ps.len() < b && spec_pairs_ordered(ps),
        PlugboardOptions::NumberInRangeInclusive(a, b) => a <= ps.len() <= b
            && spec_pairs_ordered(ps),
    }
}

} // verus!
