use vstd::prelude::*;

use crate::brute_force::plug_options::spec_pair_lt;
use crate::letter::{index_to_letter, Letter};

verus! {

/// A tuple picking one entry from each of the axes from `i` on.
pub open spec fn tuple_valid<T>(axes: Seq<Vec<T>>, i: int, s: Seq<T>) -> bool {
    &&& 0 <= i <= axes.len()
    &&& s.len() == axes.len() - i
    &&& forall|d: int| 0 <= d < s.len() ==> (#[trigger] axes[i + d])@.contains(s[d])
}

/// Every axis lists each of its entries once.
pub open spec fn axes_distinct<T>(axes: Seq<Vec<T>>) -> bool {
    forall|i: int, k1: int, k2: int|
        0 <= i < axes.len() && 0 <= k1 < k2 < axes[i]@.len() ==> #[trigger] axes[i]@[k1]
            != #[trigger] axes[i]@[k2]
}

/// How many tuples the product of the axes from `i` on has.
pub open spec fn product_count<T>(axes: Seq<Vec<T>>, i: int) -> int
    decreases axes.len() - i,
{
    if i < 0 || i >= axes.len() {
        1
    } else {
        axes[i]@.len() * product_count(axes, i + 1)
    }
}

/// Some listed pair joins the two alphabet positions.
pub open spec fn spec_pair_listed(ps: Seq<(Letter, Letter)>, a: int, b: int) -> bool {
    exists|k: int| 0 <= k < ps.len() && (#[trigger] ps[k]).0@ == a && ps[k].1@ == b
}

/// All 325 unordered letter pairs, smaller letter first, in strictly
/// increasing lexicographic order: the universe plug selections are
/// drawn from.
pub fn all_letter_pairs() -> (r: Vec<(Letter, Letter)>)
    ensures
        r@.len() == 325,
        forall|k: int| 0 <= k < r@.len() ==> (#[trigger] r@[k]).0@ < r@[k].1@,
        forall|k: int, j: int|
            0 <= k < j < r@.len() ==> spec_pair_lt(#[trigger] r@[k], #[trigger] r@[j]),
        forall|a: int, b: int| 0 <= a < b < 26 ==> #[trigger] spec_pair_listed(r@, a, b),
{
    let mut out: Vec<(Letter, Letter)> = Vec::new();
    let mut a: usize = 0;
    while a < 26
        invariant
            a <= 26,
            out@.len() * 2 == a * (51 - a),
            forall|k: int| 0 <= k < out@.len() ==> (#[trigger] out@[k]).0@ < out@[k].1@,
            forall|k: int| 0 <= k < out@.len() ==> (#[trigger] out@[k]).0@ < a,
            forall|k: int, j: int|
                0 <= k < j < out@.len() ==> spec_pair_lt(#[trigger] out@[k], #[trigger] out@[j]),
            forall|x: int, y: int| 0 <= x < a && x < y < 26 ==> #[trigger] spec_pair_listed(
                out@,
                x,
                y,
            ),
        decreases 26 - a,
    {
        let mut b: usize = a + 1;
        proof {
            assert(out@.len() * 2 == a * (51 - a) + 2 * (b - a - 1));
        }
        while b < 26
            invariant
                a < b <= 26,
                out@.len() * 2 == a * (51 - a) + 2 * (b - a - 1),
                forall|k: int| 0 <= k < out@.len() ==> (#[trigger] out@[k]).0@ < out@[k].1@,
                forall|k: int|
                    0 <= k < out@.len() ==> (#[trigger] out@[k]).0@ < a || (out@[k].0@ == a
                        && out@[k].1@ < b),
                forall|k: int, j: int|
                    0 <= k < j < out@.len() ==> spec_pair_lt(
                        #[trigger] out@[k],
                        #[trigger] out@[j],
                    ),
                forall|x: int, y: int| 0 <= x < a && x < y < 26 ==> #[trigger] spec_pair_listed(
                    out@,
                    x,
                    y,
                ),
                forall|y: int| a < y < b ==> #[trigger] spec_pair_listed(out@, a as int, y),
            decreases 26 - b,
        {
            let ghost pre = out@;
            out.push((index_to_letter(a), index_to_letter(b)));
            proof {
                assert(out@[out@.len() - 1].0@ == a && out@[out@.len() - 1].1@ == b);
                assert forall|x: int, y: int|
                    0 <= x < a && x < y < 26 implies #[trigger] spec_pair_listed(out@, x, y) by {
                    assert(spec_pair_listed(pre, x, y));
                    let k = choose|k: int|
                        0 <= k < pre.len() && (#[trigger] pre[k]).0@ == x && pre[k].1@ == y;
                    assert(out@[k].0@ == x && out@[k].1@ == y);
                }
                assert forall|y: int| a < y < b + 1 implies #[trigger] spec_pair_listed(
                    out@,
                    a as int,
                    y,
                ) by {
                    if y < b {
                        assert(spec_pair_listed(pre, a as int, y));
                        let k = choose|k: int|
                            0 <= k < pre.len() && (#[trigger] pre[k]).0@ == a as int && pre[k].1@
                                == y;
                        assert(out@[k].0@ == a as int && out@[k].1@ == y);
                    } else {
                        assert(out@[out@.len() - 1].0@ == a as int && out@[out@.len() - 1].1@
                            == y);
                    }
                }
            }
            b = b + 1;
        }
        proof {
            assert((a + 1) * (51 - (a + 1)) == a * (51 - a) + 2 * (26 - a - 1))
                by (nonlinear_arith);
            assert forall|x: int, y: int|
                0 <= x < a + 1 && x < y < 26 implies #[trigger] spec_pair_listed(out@, x, y) by {
                if x < a {
                } else {
                    assert(spec_pair_listed(out@, a as int, y));
                }
            }
        }
        a = a + 1;
    }
    proof {
        assert(out@.len() * 2 == 26 * (51 - 26));
    }
    out
}

/// All tuples that pick one entry from each of the axes starting at `i`,
/// in nested-loop order with the leftmost axis outermost.  Exactly the
/// valid tuples appear: one entry of every tuple per axis, every such
/// choice listed, and, when each axis is free of repeats, listed once.
#[verifier::rlimit(100)]
#[verifier::spinoff_prover]
pub fn product_tuples<T: Copy>(axes: &Vec<Vec<T>>, i: usize) -> (r: Vec<Vec<T>>)
    requires
        i <= axes@.len(),
    ensures
        r@.len() == product_count(axes@, i as int),
        forall|j: int| 0 <= j < r@.len() ==> (#[trigger] r@[j])@.len() == axes@.len() - i,
        forall|j: int, d: int|
            0 <= j < r@.len() && 0 <= d < axes@.len() - i ==> (#[trigger] axes@[i + d])@.contains(
                (#[trigger] r@[j])@[d],
            ),
        forall|s: Seq<T>|
            #![trigger tuple_valid(axes@, i as int, s)]
            tuple_valid(axes@, i as int, s) ==> exists|j: int|
                0 <= j < r@.len() && (#[trigger] r@[j])@ == s,
        axes_distinct(axes@) ==> forall|j1: int, j2: int|
            0 <= j1 < j2 < r@.len() ==> (#[trigger] r@[j1])@ != (#[trigger] r@[j2])@,
    decreases axes@.len() - i,
{
    let ghost av = axes@;
    let mut out: Vec<Vec<T>> = Vec::new();
    if i == axes.len() {
        out.push(Vec::new());
        proof {
            assert forall|s: Seq<T>| tuple_valid(av, i as int, s) implies exists|j: int|
                0 <= j < out@.len() && (#[trigger] out@[j])@ == s by {
                assert(s.len() == 0);
                assert(out@[0]@ =~= s);
            }
        }
        return out;
    }
    let rest = product_tuples(axes, i + 1);
    let axis = &axes[i];
    let na = axis.len();
    let nr = rest.len();
    let ghost rest_count = product_count(av, i as int + 1);
    proof {
        assert(av[i as int]@ == axis@);
        assert(nr == rest_count);
        assert(product_count(av, i as int) == na * rest_count);
    }
    let mut ai: usize = 0;
    while ai < na
        invariant
            ai <= na,
            na == axis@.len(),
            nr == rest@.len(),
            i < axes@.len(),
            av == axes@,
            axis@ == axes@[i as int]@,
            forall|j: int|
                0 <= j < rest@.len() ==> (#[trigger] rest@[j])@.len() == axes@.len() - i - 1,
            forall|j: int, d: int|
                0 <= j < rest@.len() && 0 <= d < axes@.len() - i - 1 ==> (#[trigger] axes@[i + 1
                    + d])@.contains((#[trigger] rest@[j])@[d]),
            forall|s: Seq<T>|
                #![trigger tuple_valid(av, i as int + 1, s)]
                tuple_valid(av, i as int + 1, s) ==> exists|j: int|
                    0 <= j < rest@.len() && (#[trigger] rest@[j])@ == s,
            axes_distinct(av) ==> forall|j1: int, j2: int|
                0 <= j1 < j2 < rest@.len() ==> (#[trigger] rest@[j1])@ != (#[trigger] rest@[j2])@,
            out@.len() == ai * nr,
            forall|idx: int|
                0 <= idx < out@.len() ==> (#[trigger] out@[idx])@ == seq![axis@[idx / (nr as int)]]
                    + rest@[idx % (nr as int)]@,
        decreases na - ai,
    {
        let v = axis[ai];
        proof {
            assert(axes@[i as int]@.contains(v));
        }
        let mut ri: usize = 0;
        while ri < nr
            invariant
                ri <= nr,
                ai < na,
                na == axis@.len(),
                nr == rest@.len(),
                i < axes@.len(),
                av == axes@,
                axis@ == axes@[i as int]@,
                v == axis@[ai as int],
                axes@[i as int]@.contains(v),
                forall|j: int|
                    0 <= j < rest@.len() ==> (#[trigger] rest@[j])@.len() == axes@.len() - i - 1,
                forall|j: int, d: int|
                    0 <= j < rest@.len() && 0 <= d < axes@.len() - i - 1 ==> (#[trigger] axes@[i
                        + 1 + d])@.contains((#[trigger] rest@[j])@[d]),
                out@.len() == ai * nr + ri,
                forall|idx: int|
                    0 <= idx < out@.len() ==> (#[trigger] out@[idx])@ == seq![axis@[idx / (
                    nr as int)]] + rest@[idx % (nr as int)]@,
            decreases nr - ri,
        {
            let t = &rest[ri];
            let mut tup: Vec<T> = Vec::new();
            tup.push(v);
            let tn = t.len();
            let mut d: usize = 0;
            while d < tn
                invariant
                    d <= tn,
                    tn == t@.len(),
                    tup@.len() == d + 1,
                    tup@[0] == v,
                    forall|e: int| 1 <= e < tup@.len() ==> #[trigger] tup@[e] == t@[e - 1],
                decreases tn - d,
            {
                tup.push(t[d]);
                d = d + 1;
            }
            proof {
                assert(tup@ =~= seq![v] + t@);
                let idx = out@.len() as int;
                assert(idx == ai * nr + ri);
                vstd::arithmetic::div_mod::lemma_fundamental_div_mod_converse(
                    idx,
                    nr as int,
                    ai as int,
                    ri as int,
                );
            }
            out.push(tup);
            ri = ri + 1;
        }
        proof {
            assert(ai * nr + nr == (ai + 1) * nr) by (nonlinear_arith);
        }
        ai = ai + 1;
    }
    proof {
        assert(out@.len() == na * nr);
        // soundness of every entry, from the index characterisation
        assert forall|j: int, d: int|
            0 <= j < out@.len() && 0 <= d < axes@.len() - i implies (#[trigger] axes@[i
            + d])@.contains((#[trigger] out@[j])@[d]) by {
            vstd::arithmetic::div_mod::lemma_fundamental_div_mod(j, nr as int);
            let a0 = j / (nr as int);
            let r0 = j % (nr as int);
            assert(0 <= a0 < na && 0 <= r0 < nr) by (nonlinear_arith)
                requires
                    0 <= j < na * nr,
                    a0 == j / (nr as int),
                    r0 == j % (nr as int),
                    nr > 0,
                    j == a0 * nr + r0,
            ;
            assert(out@[j]@ == seq![axis@[a0]] + rest@[r0]@);
            if d == 0 {
                assert(out@[j]@[0] == axis@[a0]);
            } else {
                assert(out@[j]@[d] == rest@[r0]@[d - 1]);
                assert((axes@[i + 1 + (d - 1)])@.contains(rest@[r0]@[d - 1]));
            }
        }
        assert forall|j: int| 0 <= j < out@.len() implies (#[trigger] out@[j])@.len()
            == axes@.len() - i by {
            vstd::arithmetic::div_mod::lemma_fundamental_div_mod(j, nr as int);
            let r0 = j % (nr as int);
            assert(0 <= r0 < nr) by {
                vstd::arithmetic::div_mod::lemma_mod_bound(j, nr as int);
            }
            assert(out@[j]@ == seq![axis@[j / (nr as int)]] + rest@[r0]@);
        }
        // completeness
        assert forall|s: Seq<T>| tuple_valid(av, i as int, s) implies exists|j: int|
            0 <= j < out@.len() && (#[trigger] out@[j])@ == s by {
            assert(av[i as int + 0]@.contains(s[0]));
            assert(av[i as int]@.contains(s[0]));
            let a0 = choose|a0: int| 0 <= a0 < av[i as int]@.len() && av[i as int]@[a0] == s[0];
            assert(tuple_valid(av, i as int + 1, s.drop_first())) by {
                assert forall|d: int| 0 <= d < s.drop_first().len() implies (#[trigger] av[i + 1
                    + d])@.contains(s.drop_first()[d]) by {
                    assert(s.drop_first()[d] == s[d + 1]);
                    assert(av[i as int + (d + 1)]@.contains(s[d + 1]));
                }
            }
            let r0 = choose|r0: int| 0 <= r0 < rest@.len() && (#[trigger] rest@[r0])@
                == s.drop_first();
            let j = a0 * nr + r0;
            assert(0 <= j && j < na * nr) by (nonlinear_arith)
                requires
                    j == a0 * nr + r0,
                    0 <= a0 < na,
                    0 <= r0 < nr,
            ;
            vstd::arithmetic::div_mod::lemma_fundamental_div_mod_converse(
                j,
                nr as int,
                a0,
                r0,
            );
            assert(out@[j]@ == seq![axis@[a0]] + rest@[r0]@);
            assert(out@[j]@ =~= s);
        }
        // freedom from repeats, when each axis is free of repeats
        if axes_distinct(av) {
            assert forall|j1: int, j2: int| 0 <= j1 < j2 < out@.len() implies (
            #[trigger] out@[j1])@ != (#[trigger] out@[j2])@ by {
                vstd::arithmetic::div_mod::lemma_fundamental_div_mod(j1, nr as int);
                vstd::arithmetic::div_mod::lemma_fundamental_div_mod(j2, nr as int);
                vstd::arithmetic::div_mod::lemma_mod_bound(j1, nr as int);
                vstd::arithmetic::div_mod::lemma_mod_bound(j2, nr as int);
                let a1 = j1 / (nr as int);
                let r1 = j1 % (nr as int);
                let a2 = j2 / (nr as int);
                let r2 = j2 % (nr as int);
                assert(nr as int * a1 == a1 * nr) by (nonlinear_arith);
                assert(nr as int * a2 == a2 * nr) by (nonlinear_arith);
                assert(j1 == a1 * nr + r1);
                assert(j2 == a2 * nr + r2);
                assert(0 <= a1 < na && 0 <= a2 < na) by (nonlinear_arith)
                    requires
                        0 <= j1 < na * nr,
                        0 <= j2 < na * nr,
                        nr > 0,
                        a1 == j1 / (nr as int),
                        a2 == j2 / (nr as int),
                        j1 == a1 * nr + r1,
                        j2 == a2 * nr + r2,
                        0 <= r1 < nr,
                        0 <= r2 < nr,
                ;
                assert(out@[j1]@ == seq![axis@[a1]] + rest@[r1]@);
                assert(out@[j2]@ == seq![axis@[a2]] + rest@[r2]@);
                if a1 == a2 {
                    assert(r1 != r2);
                    assert(rest@[r1]@ != rest@[r2]@);
                    assert(out@[j1]@.skip(1) =~= rest@[r1]@);
                    assert(out@[j2]@.skip(1) =~= rest@[r2]@);
                } else {
                    assert(av[i as int]@[a1] != av[i as int]@[a2]);
                    assert(out@[j1]@[0] == axis@[a1]);
                    assert(out@[j2]@[0] == axis@[a2]);
                }
            }
        }
    }
    out
}

} // verus!
