use vstd::prelude::*;

use crate::brute_force::combinations::{all_letter_pairs, product_tuples, tuple_valid};
use crate::brute_force::plug_options::{
    spec_pair_lt, spec_pairs_ordered, spec_plug_list_matches, PlugboardOptions,
};
use crate::letter::Letter;
use crate::machine::data::{ReflectorId, RotorId};
use crate::machine::enigma_machine::{
    machine_wf, spec_jump_fwd, spec_machine_of_state, spec_try_consume, state_buildable,
    EnigmaMachine, SpecMachine,
};
use crate::machine::machine_state::{MachineState, StateView};
use crate::machine::plug_board::PlugBoard;
use crate::message::{Message, MessageChar};

verus! {

/// The view of an optional message.
pub open spec fn opt_msg(o: Option<Message>) -> Option<Seq<MessageChar>> {
    match o {
        Some(m) => Some(m@),
        None => None,
    }
}

/// The substring crib holds at one starting position: from the initial
/// machine, skip to the position and consume the crib there.
pub open spec fn spec_check_contains_at(
    m0: SpecMachine,
    input: Seq<MessageChar>,
    p: Seq<MessageChar>,
    i: int,
) -> bool {
    spec_try_consume(spec_jump_fwd(m0, input.take(i)), input.subrange(i, i + p.len()), p).1
}

/// The substring crib holds at some starting position.
pub open spec fn spec_check_contains(
    m0: SpecMachine,
    input: Seq<MessageChar>,
    p: Seq<MessageChar>,
) -> bool {
    exists|i: int|
        0 <= i <= input.len() - p.len() && #[trigger] spec_check_contains_at(m0, input, p, i)
}

/// Whether a machine at its initial configuration satisfies every
/// supplied crib.  Each crib is tested from the initial rotor positions:
/// the prefix crib deciphers the input's start, the suffix crib its tail
/// after skipping the rest, and the substring crib some position.
pub open spec fn spec_check_machine(
    m0: SpecMachine,
    input: Seq<MessageChar>,
    s_opt: Option<Seq<MessageChar>>,
    e_opt: Option<Seq<MessageChar>>,
    c_opt: Option<Seq<MessageChar>>,
) -> bool {
    &&& (s_opt matches Some(st) ==> spec_try_consume(m0, input, st).1)
    &&& (e_opt matches Some(e) ==> spec_try_consume(
        spec_jump_fwd(m0, input.take(input.len() - e.len())),
        input.skip(input.len() - e.len()),
        e,
    ).1)
    &&& (c_opt matches Some(p) ==> spec_check_contains(m0, input, p))
}

/// A configuration matches the search criteria when a machine can be
/// built from it and that machine satisfies every supplied crib.
pub open spec fn spec_crib_match(
    sv: StateView,
    input: Seq<MessageChar>,
    s_opt: Option<Seq<MessageChar>>,
    e_opt: Option<Seq<MessageChar>>,
    c_opt: Option<Seq<MessageChar>>,
) -> bool {
    &&& state_buildable(sv)
    &&& spec_check_machine(spec_machine_of_state(sv), input, s_opt, e_opt, c_opt)
}

/// The rotor constraints of a query: no constraint list means no rotors
/// to search.
pub open spec fn slots_of(rotors: Option<Vec<(Option<RotorId>, Option<Letter>)>>) -> Seq<
    (Option<RotorId>, Option<Letter>),
> {
    match rotors {
        Some(v) => v@,
        None => Seq::empty(),
    }
}

/// Whether a configuration lies in the space a query asks to search: its
/// plug list fits the plug options, each rotor slot obeys its fixed
/// identity or position, and a fixed reflector is respected.
pub open spec fn state_in_space(
    sv: StateView,
    o: PlugboardOptions,
    slots: Seq<(Option<RotorId>, Option<Letter>)>,
    reflector: Option<ReflectorId>,
) -> bool {
    &&& spec_plug_list_matches(o, sv.plug_map)
    &&& sv.rotor_ids.len() == slots.len()
    &&& sv.rotor_starts.len() == slots.len()
    &&& forall|i: int|
        0 <= i < slots.len() ==> ((#[trigger] slots[i]).0 matches Some(id) ==> sv.rotor_ids[i]
            == id)
    &&& forall|i: int|
        0 <= i < slots.len() ==> ((#[trigger] slots[i]).1 matches Some(l) ==> sv.rotor_starts[i]
            == l@)
    &&& (reflector matches Some(rid) ==> sv.reflector_id == rid)
}

/// The configuration a candidate is assembled from.
pub open spec fn mk_state_view(
    plugs: Seq<(Letter, Letter)>,
    ids: Seq<RotorId>,
    starts: Seq<Letter>,
    refl: ReflectorId,
) -> StateView {
    StateView {
        plug_map: plugs,
        rotor_ids: ids,
        rotor_starts: starts.map_values(|l: Letter| l@),
        reflector_id: refl,
    }
}

/// Some collected state has the given view.
pub open spec fn in_matches(ms: Seq<MachineState>, sv: StateView) -> bool {
    exists|j: int| 0 <= j < ms.len() && (#[trigger] ms[j])@ == sv
}

/// Everything collected past `base` lies in the space and matches the
/// cribs.
pub open spec fn sound_entries(
    ms: Seq<MachineState>,
    base: int,
    opts: PlugboardOptions,
    slots: Seq<(Option<RotorId>, Option<Letter>)>,
    refl_opt: Option<ReflectorId>,
    input: Seq<MessageChar>,
    s_opt: Option<Seq<MessageChar>>,
    e_opt: Option<Seq<MessageChar>>,
    c_opt: Option<Seq<MessageChar>>,
) -> bool {
    forall|j: int|
        base <= j < ms.len() ==> state_in_space((#[trigger] ms[j])@, opts, slots, refl_opt)
            && spec_crib_match(ms[j]@, input, s_opt, e_opt, c_opt)
}

/// Lexicographic order on candidate coordinates: reflector index first,
/// then rotor-identity tuple index, then position tuple index.
pub open spec fn coord_lt(a: int, b: int, c: int, a2: int, b2: int, c2: int) -> bool {
    a < a2 || (a == a2 && b < b2) || (a == a2 && b == b2 && c < c2)
}

/// Every matching candidate with coordinates before the cursor has been
/// collected.
pub open spec fn covered_before(
    ms: Seq<MachineState>,
    plugs: Seq<(Letter, Letter)>,
    reflectors: Seq<ReflectorId>,
    id_tuples: Seq<Vec<RotorId>>,
    pos_tuples: Seq<Vec<Letter>>,
    input: Seq<MessageChar>,
    s_opt: Option<Seq<MessageChar>>,
    e_opt: Option<Seq<MessageChar>>,
    c_opt: Option<Seq<MessageChar>>,
    rfi: int,
    ji: int,
    pi: int,
) -> bool {
    forall|a: int, b: int, c: int|
        #![trigger mk_state_view(plugs, id_tuples[b]@, pos_tuples[c]@, reflectors[a])]
        0 <= a < reflectors.len() && 0 <= b < id_tuples.len() && 0 <= c < pos_tuples.len()
            && coord_lt(a, b, c, rfi, ji, pi) && spec_crib_match(
            mk_state_view(plugs, id_tuples[b]@, pos_tuples[c]@, reflectors[a]),
            input,
            s_opt,
            e_opt,
            c_opt,
        ) ==> in_matches(
            ms,
            mk_state_view(plugs, id_tuples[b]@, pos_tuples[c]@, reflectors[a]),
        )
}

/// The given configuration is the candidate of some coordinates before
/// the cursor.
pub open spec fn entry_attributed(
    sv: StateView,
    plugs: Seq<(Letter, Letter)>,
    reflectors: Seq<ReflectorId>,
    id_tuples: Seq<Vec<RotorId>>,
    pos_tuples: Seq<Vec<Letter>>,
    rfi: int,
    ji: int,
    pi: int,
) -> bool {
    exists|a: int, b: int, c: int|
        0 <= a < reflectors.len() && 0 <= b < id_tuples.len() && 0 <= c < pos_tuples.len()
            && coord_lt(a, b, c, rfi, ji, pi) && sv == #[trigger] mk_state_view(
            plugs,
            id_tuples[b]@,
            pos_tuples[c]@,
            reflectors[a],
        )
}

/// Everything collected past `base` is the candidate of some coordinates
/// before the cursor.
pub open spec fn entries_from_before(
    ms: Seq<MachineState>,
    base: int,
    plugs: Seq<(Letter, Letter)>,
    reflectors: Seq<ReflectorId>,
    id_tuples: Seq<Vec<RotorId>>,
    pos_tuples: Seq<Vec<Letter>>,
    rfi: int,
    ji: int,
    pi: int,
) -> bool {
    forall|j: int|
        base <= j < ms.len() ==> entry_attributed(
            (#[trigger] ms[j])@,
            plugs,
            reflectors,
            id_tuples,
            pos_tuples,
            rfi,
            ji,
            pi,
        )
}

/// The three candidate dimensions list no value twice.
pub open spec fn dims_distinct(
    reflectors: Seq<ReflectorId>,
    id_tuples: Seq<Vec<RotorId>>,
    pos_tuples: Seq<Vec<Letter>>,
) -> bool {
    &&& forall|a1: int, a2: int|
        0 <= a1 < a2 < reflectors.len() ==> #[trigger] reflectors[a1] != #[trigger] reflectors[a2]
    &&& forall|b1: int, b2: int|
        0 <= b1 < b2 < id_tuples.len() ==> (#[trigger] id_tuples[b1])@ != (
        #[trigger] id_tuples[b2])@
    &&& forall|c1: int, c2: int|
        0 <= c1 < c2 < pos_tuples.len() ==> (#[trigger] pos_tuples[c1])@ != (
        #[trigger] pos_tuples[c2])@
}

/// Distinct coordinates assemble distinct configurations, when the three
/// dimensions list no value twice.
proof fn lemma_mk_state_view_injective(
    plugs: Seq<(Letter, Letter)>,
    reflectors: Seq<ReflectorId>,
    id_tuples: Seq<Vec<RotorId>>,
    pos_tuples: Seq<Vec<Letter>>,
    a1: int,
    b1: int,
    c1: int,
    a2: int,
    b2: int,
    c2: int,
)
    requires
        dims_distinct(reflectors, id_tuples, pos_tuples),
        0 <= a1 < reflectors.len(),
        0 <= b1 < id_tuples.len(),
        0 <= c1 < pos_tuples.len(),
        0 <= a2 < reflectors.len(),
        0 <= b2 < id_tuples.len(),
        0 <= c2 < pos_tuples.len(),
        !(a1 == a2 && b1 == b2 && c1 == c2),
    ensures
        mk_state_view(plugs, id_tuples[b1]@, pos_tuples[c1]@, reflectors[a1]) != mk_state_view(
            plugs,
            id_tuples[b2]@,
            pos_tuples[c2]@,
            reflectors[a2],
        ),
{
    let sv1 = mk_state_view(plugs, id_tuples[b1]@, pos_tuples[c1]@, reflectors[a1]);
    let sv2 = mk_state_view(plugs, id_tuples[b2]@, pos_tuples[c2]@, reflectors[a2]);
    if a1 != a2 {
        assert(sv1.reflector_id != sv2.reflector_id);
    } else if b1 != b2 {
        assert(sv1.rotor_ids != sv2.rotor_ids);
    } else {
        assert(pos_tuples[c1]@ != pos_tuples[c2]@);
        if sv1.rotor_starts == sv2.rotor_starts {
            let s1 = pos_tuples[c1]@;
            let s2 = pos_tuples[c2]@;
            assert(s1.map_values(|l: Letter| l@) == s2.map_values(|l: Letter| l@));
            assert forall|k: int| 0 <= k < s1.len() implies s1[k] == s2[k] by {
                assert(s1.map_values(|l: Letter| l@)[k] == s2.map_values(|l: Letter| l@)[k]);
                crate::letter::lemma_letter_of_view(s1[k]);
                crate::letter::lemma_letter_of_view(s2[k]);
            }
            assert(s1.map_values(|l: Letter| l@).len() == s2.map_values(|l: Letter| l@).len());
            assert(s1 =~= s2);
            assert(false);
        }
        assert(sv1.rotor_starts != sv2.rotor_starts);
    }
}

/// A state view stays collected when the collection only grows.
proof fn lemma_in_matches_monotone(pre: Seq<MachineState>, post: Seq<MachineState>)
    requires
        pre.len() <= post.len(),
        post.take(pre.len() as int) == pre,
    ensures
        forall|sv: StateView| in_matches(pre, sv) ==> in_matches(post, sv),
{
    assert forall|sv: StateView| in_matches(pre, sv) implies in_matches(post, sv) by {
        let j = choose|j: int| 0 <= j < pre.len() && (#[trigger] pre[j])@ == sv;
        assert(post[j] == post.take(pre.len() as int)[j]);
        assert(post[j]@ == sv);
    }
}

/// Widening the cursor keeps every collected entry attributable.
proof fn lemma_entries_cursor_bump(
    ms: Seq<MachineState>,
    base: int,
    plugs: Seq<(Letter, Letter)>,
    reflectors: Seq<ReflectorId>,
    id_tuples: Seq<Vec<RotorId>>,
    pos_tuples: Seq<Vec<Letter>>,
    r1: int,
    j1: int,
    p1: int,
    r2: int,
    j2: int,
    p2: int,
)
    requires
        entries_from_before(ms, base, plugs, reflectors, id_tuples, pos_tuples, r1, j1, p1),
        forall|a: int, b: int, c: int|
            0 <= a < reflectors.len() && 0 <= b < id_tuples.len() && 0 <= c < pos_tuples.len()
                && #[trigger] coord_lt(a, b, c, r1, j1, p1) ==> #[trigger] coord_lt(
                a,
                b,
                c,
                r2,
                j2,
                p2,
            ),
    ensures
        entries_from_before(ms, base, plugs, reflectors, id_tuples, pos_tuples, r2, j2, p2),
{
    assert forall|j: int| base <= j < ms.len() implies entry_attributed(
        (#[trigger] ms[j])@,
        plugs,
        reflectors,
        id_tuples,
        pos_tuples,
        r2,
        j2,
        p2,
    ) by {
        let (a, b, c) = choose|a: int, b: int, c: int|
            0 <= a < reflectors.len() && 0 <= b < id_tuples.len() && 0 <= c < pos_tuples.len()
                && coord_lt(a, b, c, r1, j1, p1) && ms[j]@ == #[trigger] mk_state_view(
                plugs,
                id_tuples[b]@,
                pos_tuples[c]@,
                reflectors[a],
            );
        assert(coord_lt(a, b, c, r2, j2, p2));
        assert(ms[j]@ == mk_state_view(plugs, id_tuples[b]@, pos_tuples[c]@, reflectors[a]));
    }
}

/// A plug list that completes the current selection: it keeps the chosen
/// prefix, adds `k` more pairs all drawn from the universe at an index of
/// at least `start`, and is ordered as a whole.
pub open spec fn selection_matches(
    ps: Seq<(Letter, Letter)>,
    cur: Seq<(Letter, Letter)>,
    all: Seq<(Letter, Letter)>,
    start: int,
    k: int,
) -> bool {
    &&& ps.len() == cur.len() + k
    &&& ps.take(cur.len() as int) == cur
    &&& spec_pairs_ordered(ps)
    &&& forall|d: int|
        cur.len() <= d < ps.len() ==> exists|q: int|
            start <= q < all.len() && #[trigger] ps[d] == all[q]
}

/// Every completing selection whose first added pair sits below `lim` in
/// the universe already has all its matching candidates collected.
pub open spec fn selections_covered_upto(
    ms: Seq<MachineState>,
    cur: Seq<(Letter, Letter)>,
    all: Seq<(Letter, Letter)>,
    start: int,
    k: int,
    lim: int,
    reflectors: Seq<ReflectorId>,
    id_tuples: Seq<Vec<RotorId>>,
    pos_tuples: Seq<Vec<Letter>>,
    input: Seq<MessageChar>,
    s_opt: Option<Seq<MessageChar>>,
    e_opt: Option<Seq<MessageChar>>,
    c_opt: Option<Seq<MessageChar>>,
) -> bool {
    forall|ps: Seq<(Letter, Letter)>|
        #![trigger selection_matches(ps, cur, all, start, k)]
        selection_matches(ps, cur, all, start, k) && (exists|q: int|
            start <= q < lim && all[q] == ps[cur.len() as int]) ==> covered_before(
            ms,
            ps,
            reflectors,
            id_tuples,
            pos_tuples,
            input,
            s_opt,
            e_opt,
            c_opt,
            reflectors.len() as int,
            0,
            0,
        )
}

/// An ordered pair list is ordered between any two positions, not only
/// adjacent ones.
proof fn lemma_ordered_pairwise(ps: Seq<(Letter, Letter)>, d1: int, d2: int)
    requires
        spec_pairs_ordered(ps),
        0 <= d1 < d2 < ps.len(),
    ensures
        spec_pair_lt(ps[d1], ps[d2]),
    decreases d2 - d1,
{
    if d1 + 1 < d2 {
        lemma_ordered_pairwise(ps, d1 + 1, d2);
    }
}

/// Fixing the first added pair of a completing selection leaves a
/// completing selection for the remaining pairs, starting past it.
#[verifier::rlimit(50)]
#[verifier::spinoff_prover]
proof fn lemma_selection_step(
    ps: Seq<(Letter, Letter)>,
    cur: Seq<(Letter, Letter)>,
    all: Seq<(Letter, Letter)>,
    start: int,
    k: int,
    q: int,
)
    requires
        forall|x: int, y: int|
            0 <= x < y < all.len() ==> spec_pair_lt(#[trigger] all[x], #[trigger] all[y]),
        selection_matches(ps, cur, all, start, k),
        k >= 1,
        0 <= start <= q < all.len(),
        all[q] == ps[cur.len() as int],
    ensures
        selection_matches(ps, cur.push(all[q]), all, q + 1, k - 1),
{
    let cn = cur.len() as int;
    assert(ps.take(cn + 1) =~= cur.push(all[q])) by {
        assert forall|e: int| 0 <= e < cn + 1 implies ps.take(cn + 1)[e] == cur.push(
            all[q],
        )[e] by {
            if e < cn {
                assert(ps.take(cn)[e] == cur[e]);
                assert(ps.take(cn)[e] == ps[e]);
            }
        }
    }
    assert forall|d: int| cn + 1 <= d < ps.len() implies exists|q2: int|
        q + 1 <= q2 < all.len() && #[trigger] ps[d] == all[q2] by {
        let q2 = choose|q2: int| start <= q2 < all.len() && #[trigger] ps[d] == all[q2];
        lemma_ordered_pairwise(ps, cn, d);
        if q2 <= q {
            if q2 < q {
                assert(spec_pair_lt(all[q2], all[q]));
            }
            assert(false);
        }
    }
}

/// The first added pair of a completing selection sits low enough in the
/// universe to leave room for the remaining pairs.
proof fn lemma_selection_first_index(
    ps: Seq<(Letter, Letter)>,
    cur: Seq<(Letter, Letter)>,
    all: Seq<(Letter, Letter)>,
    start: int,
    k: int,
)
    requires
        forall|x: int, y: int|
            0 <= x < y < all.len() ==> spec_pair_lt(#[trigger] all[x], #[trigger] all[y]),
        selection_matches(ps, cur, all, start, k),
        k >= 1,
        start >= 0,
    ensures
        exists|q: int|
            start <= q <= all.len() - k && #[trigger] all[q] == ps[cur.len() as int],
    decreases k,
{
    let cn = cur.len() as int;
    let q = choose|q: int| start <= q < all.len() && #[trigger] ps[cn] == all[q];
    if k == 1 {
        assert(all[q] == ps[cn]);
    } else {
        lemma_selection_step(ps, cur, all, start, k, q);
        lemma_selection_first_index(ps, cur.push(all[q]), all, q + 1, k - 1);
        let q2 = choose|q2: int|
            q + 1 <= q2 <= all.len() - (k - 1) && #[trigger] all[q2] == ps[cur.push(
                all[q],
            ).len() as int];
        assert(q <= all.len() - k);
        assert(all[q] == ps[cn]);
    }
}

/// Collected candidates stay covered as the collection grows.
proof fn lemma_covered_before_monotone(
    pre: Seq<MachineState>,
    post: Seq<MachineState>,
    plugs: Seq<(Letter, Letter)>,
    reflectors: Seq<ReflectorId>,
    id_tuples: Seq<Vec<RotorId>>,
    pos_tuples: Seq<Vec<Letter>>,
    input: Seq<MessageChar>,
    s_opt: Option<Seq<MessageChar>>,
    e_opt: Option<Seq<MessageChar>>,
    c_opt: Option<Seq<MessageChar>>,
    rfi: int,
    ji: int,
    pi: int,
)
    requires
        covered_before(
            pre,
            plugs,
            reflectors,
            id_tuples,
            pos_tuples,
            input,
            s_opt,
            e_opt,
            c_opt,
            rfi,
            ji,
            pi,
        ),
        pre.len() <= post.len(),
        post.take(pre.len() as int) == pre,
    ensures
        covered_before(
            post,
            plugs,
            reflectors,
            id_tuples,
            pos_tuples,
            input,
            s_opt,
            e_opt,
            c_opt,
            rfi,
            ji,
            pi,
        ),
{
    lemma_in_matches_monotone(pre, post);
}

/// A state whose coordinates all lie on the enumerated axes and whose
/// candidate is covered has been collected.
#[verifier::rlimit(60)]
#[verifier::spinoff_prover]
proof fn lemma_covered_state_found(
    ms: Seq<MachineState>,
    sv: StateView,
    slots: Seq<(Option<RotorId>, Option<Letter>)>,
    reflectors: Seq<ReflectorId>,
    id_axes: Seq<Vec<RotorId>>,
    pos_axes: Seq<Vec<Letter>>,
    id_tuples: Seq<Vec<RotorId>>,
    pos_tuples: Seq<Vec<Letter>>,
    input: Seq<MessageChar>,
    s_opt: Option<Seq<MessageChar>>,
    e_opt: Option<Seq<MessageChar>>,
    c_opt: Option<Seq<MessageChar>>,
)
    requires
        covered_before(
            ms,
            sv.plug_map,
            reflectors,
            id_tuples,
            pos_tuples,
            input,
            s_opt,
            e_opt,
            c_opt,
            reflectors.len() as int,
            0,
            0,
        ),
        spec_crib_match(sv, input, s_opt, e_opt, c_opt),
        reflectors.contains(sv.reflector_id),
        id_axes.len() == slots.len(),
        pos_axes.len() == slots.len(),
        forall|i: int|
            0 <= i < slots.len() ==> ((#[trigger] slots[i]).0 matches Some(id) ==> id_axes[i]@
                == seq![id]),
        forall|i: int|
            0 <= i < slots.len() ==> ((#[trigger] slots[i]).0 is None ==> id_axes[i]@ == seq![
                RotorId::I,
                RotorId::II,
                RotorId::III,
                RotorId::IV,
                RotorId::V,
            ]),
        forall|i: int|
            0 <= i < slots.len() ==> ((#[trigger] slots[i]).1 matches Some(l) ==> pos_axes[i]@
                == seq![l]),
        forall|i: int|
            0 <= i < slots.len() ==> ((#[trigger] slots[i]).1 is None ==> pos_axes[i]@.len() == 26
                && forall|k2: int| 0 <= k2 < 26 ==> ((#[trigger] pos_axes[i]@[k2])@ == k2)),
        forall|sq: Seq<RotorId>|
            #![trigger tuple_valid(id_axes, 0, sq)]
            tuple_valid(id_axes, 0, sq) ==> exists|j: int|
                0 <= j < id_tuples.len() && (#[trigger] id_tuples[j])@ == sq,
        forall|sq: Seq<Letter>|
            #![trigger tuple_valid(pos_axes, 0, sq)]
            tuple_valid(pos_axes, 0, sq) ==> exists|j: int|
                0 <= j < pos_tuples.len() && (#[trigger] pos_tuples[j])@ == sq,
        sv.rotor_ids.len() == slots.len(),
        sv.rotor_starts.len() == slots.len(),
        forall|i: int|
            0 <= i < slots.len() ==> ((#[trigger] slots[i]).0 matches Some(id) ==> sv.rotor_ids[i]
                == id),
        forall|i: int|
            0 <= i < slots.len() ==> ((#[trigger] slots[i]).1 matches Some(l)
                ==> sv.rotor_starts[i] == l@),
        crate::machine::laws::state_starts_in_range(sv),
    ensures
        in_matches(ms, sv),
{
    let a = choose|a: int| 0 <= a < reflectors.len() && reflectors[a] == sv.reflector_id;
    assert(tuple_valid(id_axes, 0, sv.rotor_ids)) by {
        assert forall|d: int| 0 <= d < sv.rotor_ids.len() implies (#[trigger] id_axes[0
            + d])@.contains(sv.rotor_ids[d]) by {
            if slots[d].0 is Some {
                assert(id_axes[d]@ == seq![slots[d].0->0]);
                assert(id_axes[d]@[0] == sv.rotor_ids[d]);
            } else {
                lemma_all_rotor_ids(sv.rotor_ids[d]);
            }
        }
    }
    let b = choose|b: int|
        0 <= b < id_tuples.len() && (#[trigger] id_tuples[b])@ == sv.rotor_ids;
    let s_letters = Seq::new(
        sv.rotor_starts.len(),
        |d: int| crate::letter::letter_of(sv.rotor_starts[d]),
    );
    assert(tuple_valid(pos_axes, 0, s_letters)) by {
        assert forall|d: int| 0 <= d < s_letters.len() implies (#[trigger] pos_axes[0
            + d])@.contains(s_letters[d]) by {
            if slots[d].1 is Some {
                let l = slots[d].1->0;
                assert(pos_axes[d]@ == seq![l]);
                crate::letter::lemma_letter_of_view(l);
                assert(s_letters[d] == l);
                assert(pos_axes[d]@[0] == s_letters[d]);
            } else {
                let x = sv.rotor_starts[d];
                assert(0 <= x < 26);
                assert((pos_axes[d]@[x])@ == x);
                crate::letter::lemma_letter_of_view(pos_axes[d]@[x]);
                assert(pos_axes[d]@[x] == s_letters[d]);
            }
        }
    }
    let c = choose|c: int|
        0 <= c < pos_tuples.len() && (#[trigger] pos_tuples[c])@ == s_letters;
    let built = mk_state_view(sv.plug_map, id_tuples[b]@, pos_tuples[c]@, reflectors[a]);
    assert(built.rotor_starts =~= sv.rotor_starts) by {
        assert forall|d: int|
            0 <= d < sv.rotor_starts.len() implies s_letters.map_values(|l: Letter| l@)[d]
            == sv.rotor_starts[d] by {
            crate::letter::lemma_letter_of_val(sv.rotor_starts[d]);
        }
    }
    assert(built =~~= sv);
    assert(coord_lt(a, b, c, reflectors.len() as int, 0, 0));
    assert(in_matches(ms, built));
}

/// Check whether the given machine matches the criteria for the decoded
/// values.  Each crib is tested against the candidate's initial rotor
/// positions; between cribs the machine is reset to them.
///
/// * `machine`: the enigma machine to check against, freshly built
/// * `input`: the enciphered input
/// * `starting_string`: string expected at the start of the decoded input
/// * `ending_string`: string expected at the end of the decoded input
/// * `contained_string`: string expected somewhere in the decoded input;
///   all starting positions are tried
pub fn check_machine(
    machine: &mut EnigmaMachine,
    input: &Message,
    starting_string: &Option<Message>,
    ending_string: &Option<Message>,
    contained_string: &Option<Message>,
) -> (r: bool)
    requires
        old(machine)@ == spec_machine_of_state(old(machine).initial()),
        state_buildable(old(machine).initial()),
        input@.len() + 1 < i32::MAX,
        ending_string matches Some(e) ==> e@.len() <= input@.len(),
        contained_string matches Some(c) ==> c@.len() <= input@.len(),
    ensures
        machine_wf(final(machine)@),
        final(machine).initial() == old(machine).initial(),
        r == spec_check_machine(
            old(machine)@,
            input@,
            opt_msg(*starting_string),
            opt_msg(*ending_string),
            opt_msg(*contained_string),
        ),
{
    let ghost m0 = machine@;
    let ghost svw = old(machine).initial();
    proof {
        machine.lemma_initial_starts_in_range();
        crate::machine::laws::lemma_machine_of_state_wf(svw);
        crate::machine::enigma_machine::lemma_machine_of_state_tracks(svw);
    }
    if let Some(start) = starting_string {
        let ok = machine.try_consume(input, start);
        if !ok {
            return false;
        }
        proof {
            crate::machine::enigma_machine::lemma_try_consume_tracks(m0, svw, input@, start@);
        }
        machine.reset();
    }
    if let Some(end) = ending_string {
        let cut = input.len() - end.len();
        let head = input.slice(0, cut);
        proof {
            assert(input@.subrange(0, cut as int) =~= input@.take(cut as int));
        }
        machine.jump_forwards(head.as_slice());
        let tail = input.slice(cut, input.len());
        proof {
            assert(input@.subrange(cut as int, input@.len() as int) =~= input@.skip(cut as int));
        }
        let ok = machine.try_consume(&tail, end);
        if !ok {
            return false;
        }
        proof {
            crate::machine::enigma_machine::lemma_jump_fwd_tracks(
                m0,
                svw,
                input@.take(cut as int),
            );
            crate::machine::enigma_machine::lemma_try_consume_tracks(
                spec_jump_fwd(m0, input@.take(cut as int)),
                svw,
                input@.skip(cut as int),
                end@,
            );
        }
        machine.reset();
    }
    if let Some(contained) = contained_string {
        let clen = contained.len();
        let n = input.len();
        let limit = n - clen;
        let mut i: usize = 0;
        loop
            invariant
                i <= limit + 1,
                clen == contained@.len(),
                n == input@.len(),
                limit == n - clen,
                n + 1 < i32::MAX,
                machine@ == m0,
                m0 == old(machine)@,
                m0 == spec_machine_of_state(machine.initial()),
                machine_wf(m0),
                opt_msg(*starting_string) matches Some(st) ==> spec_try_consume(
                    m0,
                    input@,
                    st,
                ).1,
                opt_msg(*ending_string) matches Some(e) ==> spec_try_consume(
                    spec_jump_fwd(m0, input@.take(input@.len() - e.len())),
                    input@.skip(input@.len() - e.len()),
                    e,
                ).1,
                crate::machine::enigma_machine::tracks_initial(m0, svw),
                svw == machine.initial(),
                machine.initial() == old(machine).initial(),
                opt_msg(*contained_string) == Some(contained@),
                forall|k: int|
                    0 <= k < i ==> !#[trigger] spec_check_contains_at(m0, input@, contained@, k),
            decreases limit + 1 - i,
        {
            if i > limit {
                proof {
                    assert(!spec_check_contains(m0, input@, contained@)) by {
                        if spec_check_contains(m0, input@, contained@) {
                            let k = choose|k: int|
                                0 <= k <= input@.len() - contained@.len()
                                    && #[trigger] spec_check_contains_at(
                                    m0,
                                    input@,
                                    contained@,
                                    k,
                                );
                            assert(k < i);
                        }
                    }
                }
                return false;
            }
            let head = input.slice(0, i);
            proof {
                assert(input@.subrange(0, i as int) =~= input@.take(i as int));
            }
            machine.jump_forwards(head.as_slice());
            let seg = input.slice(i, i + clen);
            let ok = machine.try_consume(&seg, contained);
            if ok {
                proof {
                    assert(spec_check_contains_at(m0, input@, contained@, i as int));
                }
                return true;
            }
            proof {
                crate::machine::enigma_machine::lemma_jump_fwd_tracks(
                    m0,
                    svw,
                    input@.take(i as int),
                );
                crate::machine::enigma_machine::lemma_try_consume_tracks(
                    spec_jump_fwd(m0, input@.take(i as int)),
                    svw,
                    input@.subrange(i as int, i as int + clen as int),
                    contained@,
                );
            }
            machine.reset();
            i = i + 1;
        }
    }
    true
}

/// Try one candidate configuration: build the machine, run the crib
/// checks, and collect the starting state on a match.
#[verifier::rlimit(30)]
fn try_candidate(
    plugs: &Vec<(Letter, Letter)>,
    ids: &Vec<RotorId>,
    starts: &Vec<Letter>,
    refl: ReflectorId,
    input: &Message,
    starting_string: &Option<Message>,
    ending_string: &Option<Message>,
    contained_string: &Option<Message>,
    matches: &mut Vec<MachineState>,
)
    requires
        crate::machine::plug_board::spec_plug_valid(plugs@),
        ids@.len() == starts@.len(),
        input@.len() + 1 < i32::MAX,
        ending_string matches Some(e) ==> e@.len() <= input@.len(),
        contained_string matches Some(c) ==> c@.len() <= input@.len(),
    ensures
        ({
            let sv = StateView {
                plug_map: plugs@,
                rotor_ids: ids@,
                rotor_starts: starts@.map_values(|l: Letter| l@),
                reflector_id: refl,
            };
            if spec_crib_match(
                sv,
                input@,
                opt_msg(*starting_string),
                opt_msg(*ending_string),
                opt_msg(*contained_string),
            ) {
                final(matches)@.len() == old(matches)@.len() + 1 && final(matches)@.take(
                    old(matches)@.len() as int,
                ) == old(matches)@ && final(matches)@.last()@ == sv
            } else {
                final(matches)@ == old(matches)@
            }
        }),
{
    let state = MachineState::new(
        crate::machine::copy_vec(plugs),
        crate::machine::copy_vec(ids),
        crate::machine::copy_vec(starts),
        refl,
    );
    let ghost sv = state@;
    let mut machine = EnigmaMachine::from(state);
    let ok = check_machine(&mut machine, input, starting_string, ending_string, contained_string);
    if ok {
        matches.push(machine.get_starting_state());
    }
}

/// Run the crib checks for one plug selection, over every reflector,
/// rotor-identity tuple and rotor-position tuple.  Everything collected
/// is a matching candidate; every matching candidate of this plug
/// selection is collected; and, when no dimension repeats a value, each
/// is collected once.
#[verifier::rlimit(100)]
#[verifier::spinoff_prover]
fn try_plugs(
    plugs: &Vec<(Letter, Letter)>,
    reflectors: &Vec<ReflectorId>,
    id_tuples: &Vec<Vec<RotorId>>,
    pos_tuples: &Vec<Vec<Letter>>,
    input: &Message,
    starting_string: &Option<Message>,
    ending_string: &Option<Message>,
    contained_string: &Option<Message>,
    matches: &mut Vec<MachineState>,
    Ghost(opts): Ghost<PlugboardOptions>,
    Ghost(slots): Ghost<Seq<(Option<RotorId>, Option<Letter>)>>,
    Ghost(refl_opt): Ghost<Option<ReflectorId>>,
)
    requires
        spec_plug_list_matches(opts, plugs@),
        input@.len() + 1 < i32::MAX,
        ending_string matches Some(e) ==> e@.len() <= input@.len(),
        contained_string matches Some(c) ==> c@.len() <= input@.len(),
        forall|j: int|
            0 <= j < id_tuples@.len() ==> (#[trigger] id_tuples@[j])@.len() == slots.len(),
        forall|j: int|
            0 <= j < pos_tuples@.len() ==> (#[trigger] pos_tuples@[j])@.len() == slots.len(),
        forall|j: int, i: int|
            0 <= j < id_tuples@.len() && 0 <= i < slots.len() ==> ((#[trigger] slots[i]).0
                matches Some(id) ==> (#[trigger] id_tuples@[j])@[i] == id),
        forall|j: int, i: int|
            0 <= j < pos_tuples@.len() && 0 <= i < slots.len() ==> ((#[trigger] slots[i]).1
                matches Some(l) ==> (#[trigger] pos_tuples@[j])@[i] == l),
        forall|j: int|
            0 <= j < reflectors@.len() ==> (refl_opt matches Some(rid) ==> #[trigger] reflectors@[j]
                == rid),
    ensures
        final(matches)@.len() >= old(matches)@.len(),
        final(matches)@.take(old(matches)@.len() as int) == old(matches)@,
        sound_entries(
            final(matches)@,
            old(matches)@.len() as int,
            opts,
            slots,
            refl_opt,
            input@,
            opt_msg(*starting_string),
            opt_msg(*ending_string),
            opt_msg(*contained_string),
        ),
        covered_before(
            final(matches)@,
            plugs@,
            reflectors@,
            id_tuples@,
            pos_tuples@,
            input@,
            opt_msg(*starting_string),
            opt_msg(*ending_string),
            opt_msg(*contained_string),
            reflectors@.len() as int,
            0,
            0,
        ),
        dims_distinct(reflectors@, id_tuples@, pos_tuples@) ==> forall|j1: int, j2: int|
            old(matches)@.len() <= j1 < j2 < final(matches)@.len()
                ==> (#[trigger] final(matches)@[j1])@ != (#[trigger] final(matches)@[j2])@,
        forall|j: int|
            old(matches)@.len() <= j < final(matches)@.len()
                ==> (#[trigger] final(matches)@[j])@.plug_map == plugs@,
{
    if PlugBoard::new(plugs.as_slice()).is_none() {
        proof {
            assert(final(matches)@.take(old(matches)@.len() as int) =~= old(matches)@);
            assert forall|a: int, b: int, c: int|
                0 <= a < reflectors@.len() && 0 <= b < id_tuples@.len() && 0 <= c
                    < pos_tuples@.len() && coord_lt(
                    a,
                    b,
                    c,
                    reflectors@.len() as int,
                    0,
                    0,
                ) implies !spec_crib_match(
                #[trigger] mk_state_view(plugs@, id_tuples@[b]@, pos_tuples@[c]@, reflectors@[a]),
                input@,
                opt_msg(*starting_string),
                opt_msg(*ending_string),
                opt_msg(*contained_string),
            ) by {
                assert(!state_buildable(
                    mk_state_view(plugs@, id_tuples@[b]@, pos_tuples@[c]@, reflectors@[a]),
                ));
            }
        }
        return ;
    }
    let nr = reflectors.len();
    let ni = id_tuples.len();
    let np = pos_tuples.len();
    let mut ri: usize = 0;
    while ri < nr
        invariant
            ri <= nr,
            nr == reflectors@.len(),
            ni == id_tuples@.len(),
            np == pos_tuples@.len(),
            crate::machine::plug_board::spec_plug_valid(plugs@),
            spec_plug_list_matches(opts, plugs@),
            input@.len() + 1 < i32::MAX,
            ending_string matches Some(e) ==> e@.len() <= input@.len(),
            contained_string matches Some(c) ==> c@.len() <= input@.len(),
            forall|j: int|
                0 <= j < id_tuples@.len() ==> (#[trigger] id_tuples@[j])@.len() == slots.len(),
            forall|j: int|
                0 <= j < pos_tuples@.len() ==> (#[trigger] pos_tuples@[j])@.len() == slots.len(),
            forall|j: int, i2: int|
                0 <= j < id_tuples@.len() && 0 <= i2 < slots.len() ==> ((#[trigger] slots[i2]).0
                    matches Some(id) ==> (#[trigger] id_tuples@[j])@[i2] == id),
            forall|j: int, i2: int|
                0 <= j < pos_tuples@.len() && 0 <= i2 < slots.len() ==> ((#[trigger] slots[i2]).1
                    matches Some(l) ==> (#[trigger] pos_tuples@[j])@[i2] == l),
            forall|j: int|
                0 <= j < reflectors@.len() ==> (refl_opt matches Some(rid)
                    ==> #[trigger] reflectors@[j] == rid),
            matches@.len() >= old(matches)@.len(),
            matches@.take(old(matches)@.len() as int) == old(matches)@,
            sound_entries(
                matches@,
                old(matches)@.len() as int,
                opts,
                slots,
                refl_opt,
                input@,
                opt_msg(*starting_string),
                opt_msg(*ending_string),
                opt_msg(*contained_string),
            ),
            covered_before(
                matches@,
                plugs@,
                reflectors@,
                id_tuples@,
                pos_tuples@,
                input@,
                opt_msg(*starting_string),
                opt_msg(*ending_string),
                opt_msg(*contained_string),
                ri as int,
                0,
                0,
            ),
            entries_from_before(
                matches@,
                old(matches)@.len() as int,
                plugs@,
                reflectors@,
                id_tuples@,
                pos_tuples@,
                ri as int,
                0,
                0,
            ),
            dims_distinct(reflectors@, id_tuples@, pos_tuples@) ==> forall|j1: int, j2: int|
                old(matches)@.len() <= j1 < j2 < matches@.len() ==> (#[trigger] matches@[j1])@ != (
                #[trigger] matches@[j2])@,
        decreases nr - ri,
    {
        let refl = reflectors[ri];
        let mut ji: usize = 0;
        while ji < ni
            invariant
                ji <= ni,
                ri < nr,
                nr == reflectors@.len(),
                ni == id_tuples@.len(),
                np == pos_tuples@.len(),
                refl == reflectors@[ri as int],
            crate::machine::plug_board::spec_plug_valid(plugs@),
            spec_plug_list_matches(opts, plugs@),
            input@.len() + 1 < i32::MAX,
            ending_string matches Some(e) ==> e@.len() <= input@.len(),
            contained_string matches Some(c) ==> c@.len() <= input@.len(),
            forall|j: int|
                0 <= j < id_tuples@.len() ==> (#[trigger] id_tuples@[j])@.len() == slots.len(),
            forall|j: int|
                0 <= j < pos_tuples@.len() ==> (#[trigger] pos_tuples@[j])@.len() == slots.len(),
            forall|j: int, i2: int|
                0 <= j < id_tuples@.len() && 0 <= i2 < slots.len() ==> ((#[trigger] slots[i2]).0
                    matches Some(id) ==> (#[trigger] id_tuples@[j])@[i2] == id),
            forall|j: int, i2: int|
                0 <= j < pos_tuples@.len() && 0 <= i2 < slots.len() ==> ((#[trigger] slots[i2]).1
                    matches Some(l) ==> (#[trigger] pos_tuples@[j])@[i2] == l),
            forall|j: int|
                0 <= j < reflectors@.len() ==> (refl_opt matches Some(rid)
                    ==> #[trigger] reflectors@[j] == rid),
            matches@.len() >= old(matches)@.len(),
            matches@.take(old(matches)@.len() as int) == old(matches)@,
            sound_entries(
                matches@,
                old(matches)@.len() as int,
                opts,
                slots,
                refl_opt,
                input@,
                opt_msg(*starting_string),
                opt_msg(*ending_string),
                opt_msg(*contained_string),
            ),
                covered_before(
                    matches@,
                    plugs@,
                    reflectors@,
                    id_tuples@,
                    pos_tuples@,
                    input@,
                    opt_msg(*starting_string),
                    opt_msg(*ending_string),
                    opt_msg(*contained_string),
                    ri as int,
                    ji as int,
                    0,
                ),
                entries_from_before(
                    matches@,
                    old(matches)@.len() as int,
                    plugs@,
                    reflectors@,
                    id_tuples@,
                    pos_tuples@,
                    ri as int,
                    ji as int,
                    0,
                ),
                dims_distinct(reflectors@, id_tuples@, pos_tuples@) ==> forall|j1: int, j2: int|
                    old(matches)@.len() <= j1 < j2 < matches@.len() ==> (#[trigger] matches@[j1])@
                        != (#[trigger] matches@[j2])@,
            decreases ni - ji,
        {
            let ids = &id_tuples[ji];
            let mut pi: usize = 0;
            while pi < np
                invariant
                    pi <= np,
                    ji < ni,
                    ri < nr,
                    nr == reflectors@.len(),
                    ni == id_tuples@.len(),
                    np == pos_tuples@.len(),
                    refl == reflectors@[ri as int],
                    ids == &id_tuples@[ji as int],
            crate::machine::plug_board::spec_plug_valid(plugs@),
            spec_plug_list_matches(opts, plugs@),
            input@.len() + 1 < i32::MAX,
            ending_string matches Some(e) ==> e@.len() <= input@.len(),
            contained_string matches Some(c) ==> c@.len() <= input@.len(),
            forall|j: int|
                0 <= j < id_tuples@.len() ==> (#[trigger] id_tuples@[j])@.len() == slots.len(),
            forall|j: int|
                0 <= j < pos_tuples@.len() ==> (#[trigger] pos_tuples@[j])@.len() == slots.len(),
            forall|j: int, i2: int|
                0 <= j < id_tuples@.len() && 0 <= i2 < slots.len() ==> ((#[trigger] slots[i2]).0
                    matches Some(id) ==> (#[trigger] id_tuples@[j])@[i2] == id),
            forall|j: int, i2: int|
                0 <= j < pos_tuples@.len() && 0 <= i2 < slots.len() ==> ((#[trigger] slots[i2]).1
                    matches Some(l) ==> (#[trigger] pos_tuples@[j])@[i2] == l),
            forall|j: int|
                0 <= j < reflectors@.len() ==> (refl_opt matches Some(rid)
                    ==> #[trigger] reflectors@[j] == rid),
            matches@.len() >= old(matches)@.len(),
            matches@.take(old(matches)@.len() as int) == old(matches)@,
            sound_entries(
                matches@,
                old(matches)@.len() as int,
                opts,
                slots,
                refl_opt,
                input@,
                opt_msg(*starting_string),
                opt_msg(*ending_string),
                opt_msg(*contained_string),
            ),
                    covered_before(
                        matches@,
                        plugs@,
                        reflectors@,
                        id_tuples@,
                        pos_tuples@,
                        input@,
                        opt_msg(*starting_string),
                        opt_msg(*ending_string),
                        opt_msg(*contained_string),
                        ri as int,
                        ji as int,
                        pi as int,
                    ),
                    entries_from_before(
                        matches@,
                        old(matches)@.len() as int,
                        plugs@,
                        reflectors@,
                        id_tuples@,
                        pos_tuples@,
                        ri as int,
                        ji as int,
                        pi as int,
                    ),
                    dims_distinct(reflectors@, id_tuples@, pos_tuples@) ==> forall|j1: int,
                        j2: int,
                    |
                        old(matches)@.len() <= j1 < j2 < matches@.len() ==> (
                        #[trigger] matches@[j1])@ != (#[trigger] matches@[j2])@,
                decreases np - pi,
            {
                let starts = &pos_tuples[pi];
                let ghost pre = matches@;
                try_candidate(
                    plugs,
                    ids,
                    starts,
                    refl,
                    input,
                    starting_string,
                    ending_string,
                    contained_string,
                    matches,
                );
                proof {
                    let sv = mk_state_view(
                        plugs@,
                        id_tuples@[ji as int]@,
                        pos_tuples@[pi as int]@,
                        reflectors@[ri as int],
                    );
                    let matched = spec_crib_match(sv, input@, opt_msg(*starting_string), opt_msg(*ending_string), opt_msg(*contained_string));
                    assert(matches@.take(pre.len() as int) =~= pre) by {
                        if matched {
                            assert(matches@.take(pre.len() as int) == pre);
                        } else {
                            assert(matches@ == pre);
                        }
                    }
                    lemma_in_matches_monotone(pre, matches@);
                    assert(matches@.take(old(matches)@.len() as int) =~= old(matches)@);
                    // the entries before this candidate are untouched
                    assert forall|j: int| old(matches)@.len() as int <= j < pre.len() implies #[trigger] matches@[j]
                        == pre[j] by {
                        assert(matches@[j] == matches@.take(pre.len() as int)[j]);
                    }
                    // soundness of the possible new entry
                    if matches@.len() > pre.len() {
                        assert(matches@.last()@ == sv);
                        assert forall|i: int|
                            0 <= i < slots.len() implies ((#[trigger] slots[i]).1 matches Some(l)
                            ==> sv.rotor_starts[i] == l@) by {
                            if slots[i].1 is Some {
                                assert(pos_tuples@[pi as int]@[i] == slots[i].1->0);
                            }
                        }
                        assert(state_in_space(sv, opts, slots, refl_opt));
                    }
                    // coverage up to the next candidate
                    assert forall|a: int, b: int, c: int|
                        0 <= a < reflectors@.len() && 0 <= b < id_tuples@.len() && 0 <= c
                            < pos_tuples@.len() && coord_lt(a, b, c, ri as int, ji as int, pi as int
                            + 1) && spec_crib_match(
                            #[trigger] mk_state_view(
                                plugs@,
                                id_tuples@[b]@,
                                pos_tuples@[c]@,
                                reflectors@[a],
                            ),
                            input@,
                            opt_msg(*starting_string),
                            opt_msg(*ending_string),
                            opt_msg(*contained_string),
                        ) implies in_matches(
                        matches@,
                        mk_state_view(plugs@, id_tuples@[b]@, pos_tuples@[c]@, reflectors@[a]),
                    ) by {
                        if coord_lt(a, b, c, ri as int, ji as int, pi as int) {
                            assert(in_matches(
                                pre,
                                mk_state_view(
                                    plugs@,
                                    id_tuples@[b]@,
                                    pos_tuples@[c]@,
                                    reflectors@[a],
                                ),
                            ));
                        } else {
                            assert(a == ri as int && b == ji as int && c == pi as int);
                            assert(matches@.last()@ == mk_state_view(
                                plugs@,
                                id_tuples@[b]@,
                                pos_tuples@[c]@,
                                reflectors@[a],
                            ));
                            assert(matches@[matches@.len() - 1]@ == mk_state_view(
                                plugs@,
                                id_tuples@[b]@,
                                pos_tuples@[c]@,
                                reflectors@[a],
                            ));
                        }
                    }
                    // every new entry still names coordinates before the cursor
                    assert forall|j: int|
                        old(matches)@.len() as int <= j < matches@.len() implies entry_attributed(
                        (#[trigger] matches@[j])@,
                        plugs@,
                        reflectors@,
                        id_tuples@,
                        pos_tuples@,
                        ri as int,
                        ji as int,
                        pi as int + 1,
                    ) by {
                        if j < pre.len() {
                            let (a, b, c) = choose|a: int, b: int, c: int|
                                0 <= a < reflectors@.len() && 0 <= b < id_tuples@.len() && 0 <= c
                                    < pos_tuples@.len() && coord_lt(
                                    a,
                                    b,
                                    c,
                                    ri as int,
                                    ji as int,
                                    pi as int,
                                ) && pre[j]@ == #[trigger] mk_state_view(
                                    plugs@,
                                    id_tuples@[b]@,
                                    pos_tuples@[c]@,
                                    reflectors@[a],
                                );
                            assert(coord_lt(a, b, c, ri as int, ji as int, pi as int + 1));
                            assert(matches@[j]@ == mk_state_view(
                                plugs@,
                                id_tuples@[b]@,
                                pos_tuples@[c]@,
                                reflectors@[a],
                            ));
                        } else {
                            assert(matches@[j]@ == sv);
                            assert(coord_lt(
                                ri as int,
                                ji as int,
                                pi as int,
                                ri as int,
                                ji as int,
                                pi as int + 1,
                            ));
                            assert(matches@[j]@ == mk_state_view(
                                plugs@,
                                id_tuples@[ji as int]@,
                                pos_tuples@[pi as int]@,
                                reflectors@[ri as int],
                            ));
                        }
                    }
                    // no repeats among the new entries
                    if dims_distinct(reflectors@, id_tuples@, pos_tuples@) {
                        assert forall|j1: int, j2: int|
                            old(matches)@.len() as int <= j1 < j2 < matches@.len() implies (
                        #[trigger] matches@[j1])@ != (#[trigger] matches@[j2])@ by {
                            if j2 < pre.len() {
                                assert(matches@[j1]@ == pre[j1]@ && matches@[j2]@ == pre[j2]@);
                            } else {
                                assert(j2 == matches@.len() - 1 && matches@.len() == pre.len()
                                    + 1);
                                assert(matches@[j2]@ == sv);
                                assert(entry_attributed(
                                    pre[j1]@,
                                    plugs@,
                                    reflectors@,
                                    id_tuples@,
                                    pos_tuples@,
                                    ri as int,
                                    ji as int,
                                    pi as int,
                                ));
                                let (a, b, c) = choose|a: int, b: int, c: int|
                                    0 <= a < reflectors@.len() && 0 <= b < id_tuples@.len() && 0
                                        <= c < pos_tuples@.len() && coord_lt(
                                        a,
                                        b,
                                        c,
                                        ri as int,
                                        ji as int,
                                        pi as int,
                                    ) && pre[j1]@ == #[trigger] mk_state_view(
                                        plugs@,
                                        id_tuples@[b]@,
                                        pos_tuples@[c]@,
                                        reflectors@[a],
                                    );
                                lemma_mk_state_view_injective(
                                    plugs@,
                                    reflectors@,
                                    id_tuples@,
                                    pos_tuples@,
                                    a,
                                    b,
                                    c,
                                    ri as int,
                                    ji as int,
                                    pi as int,
                                );
                                assert(matches@[j1]@ == pre[j1]@);
                            }
                        }
                    }
                }
                pi = pi + 1;
            }
            proof {
                assert forall|a: int, b: int, c: int|
                    0 <= a < reflectors@.len() && 0 <= b < id_tuples@.len() && 0 <= c
                        < pos_tuples@.len() && coord_lt(
                        a,
                        b,
                        c,
                        ri as int,
                        ji as int + 1,
                        0,
                    ) implies coord_lt(a, b, c, ri as int, ji as int, np as int) by {}
                lemma_entries_cursor_bump(
                    matches@,
                    old(matches)@.len() as int,
                    plugs@,
                    reflectors@,
                    id_tuples@,
                    pos_tuples@,
                    ri as int,
                    ji as int,
                    np as int,
                    ri as int,
                    ji as int + 1,
                    0,
                );
            }
            ji = ji + 1;
        }
        proof {
            assert forall|a: int, b: int, c: int|
                0 <= a < reflectors@.len() && 0 <= b < id_tuples@.len() && 0 <= c
                    < pos_tuples@.len() && coord_lt(
                    a,
                    b,
                    c,
                    ri as int + 1,
                    0,
                    0,
                ) implies coord_lt(a, b, c, ri as int, ni as int, 0) by {}
            lemma_entries_cursor_bump(
                matches@,
                old(matches)@.len() as int,
                plugs@,
                reflectors@,
                id_tuples@,
                pos_tuples@,
                ri as int,
                ni as int,
                0,
                ri as int + 1,
                0,
                0,
            );
        }
        ri = ri + 1;
    }
    proof {
        assert forall|j: int|
            old(matches)@.len() <= j < matches@.len() implies (#[trigger] matches@[j])@.plug_map
            == plugs@ by {
            assert(entry_attributed(
                matches@[j]@,
                plugs@,
                reflectors@,
                id_tuples@,
                pos_tuples@,
                nr as int,
                0,
                0,
            ));
            let (a, b, c) = choose|a: int, b: int, c: int|
                0 <= a < reflectors@.len() && 0 <= b < id_tuples@.len() && 0 <= c
                    < pos_tuples@.len() && coord_lt(a, b, c, nr as int, 0, 0) && matches@[j]@
                    == #[trigger] mk_state_view(
                    plugs@,
                    id_tuples@[b]@,
                    pos_tuples@[c]@,
                    reflectors@[a],
                );
        }
    }
}

/// The identity axis of each rotor slot: the fixed identity alone, or all
/// five rotors.
fn build_id_axes(slots: &Vec<(Option<RotorId>, Option<Letter>)>) -> (r: Vec<Vec<RotorId>>)
    ensures
        r@.len() == slots@.len(),
        forall|i: int|
            0 <= i < slots@.len() ==> ((#[trigger] slots@[i]).0 matches Some(id) ==> (
            #[trigger] r@[i])@ == seq![id]),
        forall|i: int|
            0 <= i < slots@.len() ==> ((#[trigger] slots@[i]).0 is None ==> (#[trigger] r@[i])@
                == seq![RotorId::I, RotorId::II, RotorId::III, RotorId::IV, RotorId::V]),
        crate::brute_force::combinations::axes_distinct(r@),
{
    let n = slots.len();
    let mut r: Vec<Vec<RotorId>> = Vec::new();
    let mut i: usize = 0;
    while i < n
        invariant
            i <= n,
            n == slots@.len(),
            r@.len() == i,
            forall|k: int|
                0 <= k < i ==> ((#[trigger] slots@[k]).0 matches Some(id) ==> (#[trigger] r@[k])@
                    == seq![id]),
            forall|k: int|
                0 <= k < i ==> ((#[trigger] slots@[k]).0 is None ==> (#[trigger] r@[k])@
                    == seq![RotorId::I, RotorId::II, RotorId::III, RotorId::IV, RotorId::V]),
            crate::brute_force::combinations::axes_distinct(r@),
        decreases n - i,
    {
        let axis = match slots[i].0 {
            Some(id) => {
                let mut v: Vec<RotorId> = Vec::new();
                v.push(id);
                proof {
                    assert(v@ =~= seq![slots@[i as int].0->0]);
                }
                v
            },
            None => RotorId::all(),
        };
        r.push(axis);
        proof {
            assert(crate::brute_force::combinations::axes_distinct(r@)) by {
                assert forall|i2: int, k1: int, k2: int|
                    0 <= i2 < r@.len() && 0 <= k1 < k2 < r@[i2]@.len() implies #[trigger] r@[i2]@[k1]
                    != #[trigger] r@[i2]@[k2] by {
                    if i2 < i {
                        assert(r@[i2] == r@.drop_last()[i2]);
                    }
                }
            }
        }
        i = i + 1;
    }
    r
}

/// The position axis of each rotor slot: the fixed position alone, or all
/// 26 letters.
fn build_pos_axes(slots: &Vec<(Option<RotorId>, Option<Letter>)>) -> (r: Vec<Vec<Letter>>)
    ensures
        r@.len() == slots@.len(),
        forall|i: int|
            0 <= i < slots@.len() ==> ((#[trigger] slots@[i]).1 matches Some(l) ==> (
            #[trigger] r@[i])@ == seq![l]),
        forall|i: int|
            0 <= i < slots@.len() ==> ((#[trigger] slots@[i]).1 is None ==> (#[trigger] r@[i])@.len()
                == 26 && forall|k: int| 0 <= k < 26 ==> ((#[trigger] r@[i]@[k])@ == k)),
        crate::brute_force::combinations::axes_distinct(r@),
{
    let n = slots.len();
    let mut r: Vec<Vec<Letter>> = Vec::new();
    let mut i: usize = 0;
    while i < n
        invariant
            i <= n,
            n == slots@.len(),
            r@.len() == i,
            forall|k: int|
                0 <= k < i ==> ((#[trigger] slots@[k]).1 matches Some(l) ==> (#[trigger] r@[k])@
                    == seq![l]),
            forall|k: int|
                0 <= k < i ==> ((#[trigger] slots@[k]).1 is None ==> (#[trigger] r@[k])@.len()
                    == 26 && forall|k2: int| 0 <= k2 < 26 ==> ((#[trigger] r@[k]@[k2])@ == k2)),
            crate::brute_force::combinations::axes_distinct(r@),
        decreases n - i,
    {
        let axis = match slots[i].1 {
            Some(l) => {
                let mut v: Vec<Letter> = Vec::new();
                v.push(l);
                proof {
                    assert(v@ =~= seq![slots@[i as int].1->0]);
                }
                v
            },
            None => Letter::all(),
        };
        r.push(axis);
        proof {
            assert(crate::brute_force::combinations::axes_distinct(r@)) by {
                assert forall|i2: int, k1: int, k2: int|
                    0 <= i2 < r@.len() && 0 <= k1 < k2 < r@[i2]@.len() implies #[trigger] r@[i2]@[k1]
                    != #[trigger] r@[i2]@[k2] by {
                    if i2 < i {
                        assert(r@[i2] == r@.drop_last()[i2]);
                    } else {
                        assert(r@[i2]@ == axis@);
                        if slots@[i as int].1 is None {
                            assert((axis@[k1])@ == k1 && (axis@[k2])@ == k2);
                        }
                    }
                }
            }
        }
        i = i + 1;
    }
    r
}

/// Every rotor ID occurs in the full identity axis.
proof fn lemma_all_rotor_ids(id: RotorId)
    ensures
        seq![RotorId::I, RotorId::II, RotorId::III, RotorId::IV, RotorId::V].contains(id),
{
    let s = seq![RotorId::I, RotorId::II, RotorId::III, RotorId::IV, RotorId::V];
    match id {
        RotorId::I => assert(s[0] == id),
        RotorId::II => assert(s[1] == id),
        RotorId::III => assert(s[2] == id),
        RotorId::IV => assert(s[3] == id),
        RotorId::V => assert(s[4] == id),
    }
}

/// Every reflector ID occurs in the full reflector axis.
proof fn lemma_all_reflector_ids(id: ReflectorId)
    ensures
        seq![ReflectorId::A, ReflectorId::B, ReflectorId::C].contains(id),
{
    let s = seq![ReflectorId::A, ReflectorId::B, ReflectorId::C];
    match id {
        ReflectorId::A => assert(s[0] == id),
        ReflectorId::B => assert(s[1] == id),
        ReflectorId::C => assert(s[2] == id),
    }
}

/// Enumerate every selection of `k` further plug pairs drawn from
/// `all_pairs` at an index of at least `start`, in lexicographic order,
/// and run the crib checks for each completed selection.
///
/// The selections are streamed: no list of them is ever materialised.
#[verifier::rlimit(30)]
fn search_plugs(
    all_pairs: &Vec<(Letter, Letter)>,
    k: usize,
    start: usize,
    current: &mut Vec<(Letter, Letter)>,
    reflectors: &Vec<ReflectorId>,
    id_tuples: &Vec<Vec<RotorId>>,
    pos_tuples: &Vec<Vec<Letter>>,
    input: &Message,
    starting_string: &Option<Message>,
    ending_string: &Option<Message>,
    contained_string: &Option<Message>,
    matches: &mut Vec<MachineState>,
    Ghost(opts): Ghost<PlugboardOptions>,
    Ghost(slots): Ghost<Seq<(Option<RotorId>, Option<Letter>)>>,
    Ghost(refl_opt): Ghost<Option<ReflectorId>>,
)
    requires
        start <= all_pairs@.len(),
        forall|q: int| 0 <= q < all_pairs@.len() ==> (#[trigger] all_pairs@[q]).0@ < all_pairs@[q].1@,
        forall|q: int, w: int|
            0 <= q < w < all_pairs@.len() ==> spec_pair_lt(
                #[trigger] all_pairs@[q],
                #[trigger] all_pairs@[w],
            ),
        forall|p: int| 0 <= p < old(current)@.len() ==> (#[trigger] old(current)@[p]).0@ < old(
            current,
        )@[p].1@,
        forall|p: int|
            0 <= p < old(current)@.len() - 1 ==> spec_pair_lt(
                #[trigger] old(current)@[p],
                old(current)@[p + 1],
            ),
        forall|q: int|
            start <= q < all_pairs@.len() && old(current)@.len() > 0 ==> spec_pair_lt(
                old(current)@.last(),
                #[trigger] all_pairs@[q],
            ),
        match opts {
            PlugboardOptions::KnownConnections(_) => false,
            PlugboardOptions::NumberInRange(a, b) => a <= old(current)@.len() + k < b,
            PlugboardOptions::NumberInRangeInclusive(a, b) => a <= old(current)@.len() + k <= b,
        },
        input@.len() + 1 < i32::MAX,
        ending_string matches Some(e) ==> e@.len() <= input@.len(),
        contained_string matches Some(c) ==> c@.len() <= input@.len(),
        forall|j: int|
            0 <= j < id_tuples@.len() ==> (#[trigger] id_tuples@[j])@.len() == slots.len(),
        forall|j: int|
            0 <= j < pos_tuples@.len() ==> (#[trigger] pos_tuples@[j])@.len() == slots.len(),
        forall|j: int, i: int|
            0 <= j < id_tuples@.len() && 0 <= i < slots.len() ==> ((#[trigger] slots[i]).0
                matches Some(id) ==> (#[trigger] id_tuples@[j])@[i] == id),
        forall|j: int, i: int|
            0 <= j < pos_tuples@.len() && 0 <= i < slots.len() ==> ((#[trigger] slots[i]).1
                matches Some(l) ==> (#[trigger] pos_tuples@[j])@[i] == l),
        forall|j: int|
            0 <= j < reflectors@.len() ==> (refl_opt matches Some(rid) ==> #[trigger] reflectors@[j]
                == rid),
    ensures
        final(current)@ == old(current)@,
        final(matches)@.len() >= old(matches)@.len(),
        final(matches)@.take(old(matches)@.len() as int) == old(matches)@,
        forall|j: int|
            old(matches)@.len() <= j < final(matches)@.len() ==> state_in_space(
                (#[trigger] final(matches)@[j])@,
                opts,
                slots,
                refl_opt,
            ) && spec_crib_match(
                final(matches)@[j]@,
                input@,
                opt_msg(*starting_string),
                opt_msg(*ending_string),
                opt_msg(*contained_string),
            ),
        forall|ps: Seq<(Letter, Letter)>|
            #![trigger selection_matches(ps, old(current)@, all_pairs@, start as int, k as int)]
            selection_matches(ps, old(current)@, all_pairs@, start as int, k as int)
                ==> covered_before(
                final(matches)@,
                ps,
                reflectors@,
                id_tuples@,
                pos_tuples@,
                input@,
                opt_msg(*starting_string),
                opt_msg(*ending_string),
                opt_msg(*contained_string),
                reflectors@.len() as int,
                0,
                0,
            ),
        forall|j: int|
            old(matches)@.len() <= j < final(matches)@.len()
                ==> (#[trigger] final(matches)@[j])@.plug_map.len() == old(current)@.len() + k
                && final(matches)@[j]@.plug_map.take(old(current)@.len() as int) == old(
                current,
            )@,
        dims_distinct(reflectors@, id_tuples@, pos_tuples@) ==> forall|j1: int, j2: int|
            old(matches)@.len() <= j1 < j2 < final(matches)@.len()
                ==> (#[trigger] final(matches)@[j1])@ != (#[trigger] final(matches)@[j2])@,
    decreases k,
{
    if k == 0 {
        proof {
            assert(spec_plug_list_matches(opts, current@));
        }
        try_plugs(
            current,
            reflectors,
            id_tuples,
            pos_tuples,
            input,
            starting_string,
            ending_string,
            contained_string,
            matches,
            Ghost(opts),
            Ghost(slots),
            Ghost(refl_opt),
        );
        proof {
            assert forall|ps: Seq<(Letter, Letter)>|
                selection_matches(
                    ps,
                    old(current)@,
                    all_pairs@,
                    start as int,
                    k as int,
                ) implies covered_before(
                final(matches)@,
                ps,
                reflectors@,
                id_tuples@,
                pos_tuples@,
                input@,
                opt_msg(*starting_string),
                opt_msg(*ending_string),
                opt_msg(*contained_string),
                reflectors@.len() as int,
                0,
                0,
            ) by {
                assert(ps =~= old(current)@);
            }
            assert forall|j: int|
                old(matches)@.len() <= j < final(matches)@.len()
                    implies (#[trigger] final(matches)@[j])@.plug_map.take(
                    old(current)@.len() as int,
                ) == old(current)@ by {
                assert(final(matches)@[j]@.plug_map == current@);
                assert(current@.take(current@.len() as int) =~= current@);
            }
        }
        return ;
    }
    let n = all_pairs.len();
    if k > n {
        proof {
            assert(final(matches)@.take(old(matches)@.len() as int) =~= old(matches)@);
            assert forall|ps: Seq<(Letter, Letter)>|
                selection_matches(
                    ps,
                    old(current)@,
                    all_pairs@,
                    start as int,
                    k as int,
                ) implies false by {
                lemma_selection_first_index(ps, old(current)@, all_pairs@, start as int, k as int);
            }
        }
        return ;
    }
    let mut i: usize = start;
    while i <= n - k
        invariant
            start <= i,
            i <= n + 1,
            1 <= k <= n,
            n == all_pairs@.len(),
            current@ == old(current)@,
            forall|q: int|
                0 <= q < all_pairs@.len() ==> (#[trigger] all_pairs@[q]).0@ < all_pairs@[q].1@,
            forall|q: int, w: int|
                0 <= q < w < all_pairs@.len() ==> spec_pair_lt(
                    #[trigger] all_pairs@[q],
                    #[trigger] all_pairs@[w],
                ),
            forall|p: int|
                0 <= p < current@.len() ==> (#[trigger] current@[p]).0@ < current@[p].1@,
            forall|p: int|
                0 <= p < current@.len() - 1 ==> spec_pair_lt(
                    #[trigger] current@[p],
                    current@[p + 1],
                ),
            forall|q: int|
                start <= q < all_pairs@.len() && current@.len() > 0 ==> spec_pair_lt(
                    current@.last(),
                    #[trigger] all_pairs@[q],
                ),
            match opts {
                PlugboardOptions::KnownConnections(_) => false,
                PlugboardOptions::NumberInRange(a, b) => a <= current@.len() + k < b,
                PlugboardOptions::NumberInRangeInclusive(a, b) => a <= current@.len() + k <= b,
            },
            input@.len() + 1 < i32::MAX,
            ending_string matches Some(e) ==> e@.len() <= input@.len(),
            contained_string matches Some(c) ==> c@.len() <= input@.len(),
            forall|j: int|
                0 <= j < id_tuples@.len() ==> (#[trigger] id_tuples@[j])@.len() == slots.len(),
            forall|j: int|
                0 <= j < pos_tuples@.len() ==> (#[trigger] pos_tuples@[j])@.len() == slots.len(),
            forall|j: int, i2: int|
                0 <= j < id_tuples@.len() && 0 <= i2 < slots.len() ==> ((#[trigger] slots[i2]).0
                    matches Some(id) ==> (#[trigger] id_tuples@[j])@[i2] == id),
            forall|j: int, i2: int|
                0 <= j < pos_tuples@.len() && 0 <= i2 < slots.len() ==> ((#[trigger] slots[i2]).1
                    matches Some(l) ==> (#[trigger] pos_tuples@[j])@[i2] == l),
            forall|j: int|
                0 <= j < reflectors@.len() ==> (refl_opt matches Some(rid)
                    ==> #[trigger] reflectors@[j] == rid),
            matches@.len() >= old(matches)@.len(),
            matches@.take(old(matches)@.len() as int) == old(matches)@,
            forall|j: int|
                old(matches)@.len() <= j < matches@.len() ==> state_in_space(
                    (#[trigger] matches@[j])@,
                    opts,
                    slots,
                    refl_opt,
                ) && spec_crib_match(
                    matches@[j]@,
                    input@,
                    opt_msg(*starting_string),
                    opt_msg(*ending_string),
                    opt_msg(*contained_string),
                ),
            selections_covered_upto(
                matches@,
                old(current)@,
                all_pairs@,
                start as int,
                k as int,
                i as int,
                reflectors@,
                id_tuples@,
                pos_tuples@,
                input@,
                opt_msg(*starting_string),
                opt_msg(*ending_string),
                opt_msg(*contained_string),
            ),
            forall|j: int|
                old(matches)@.len() <= j < matches@.len()
                    ==> (#[trigger] matches@[j])@.plug_map.len() == old(current)@.len() + k
                    && matches@[j]@.plug_map.take(old(current)@.len() as int) == old(current)@
                    && (exists|q: int|
                    start <= q < i && matches@[j]@.plug_map[old(current)@.len() as int]
                        == #[trigger] all_pairs@[q]),
            dims_distinct(reflectors@, id_tuples@, pos_tuples@) ==> forall|j1: int, j2: int|
                old(matches)@.len() <= j1 < j2 < matches@.len() ==> (#[trigger] matches@[j1])@
                    != (#[trigger] matches@[j2])@,
        decreases n - i,
    {
        let pair = all_pairs[i];
        current.push(pair);
        let ghost pre_matches = matches@;
        search_plugs(
            all_pairs,
            k - 1,
            i + 1,
            current,
            reflectors,
            id_tuples,
            pos_tuples,
            input,
            starting_string,
            ending_string,
            contained_string,
            matches,
            Ghost(opts),
            Ghost(slots),
            Ghost(refl_opt),
        );
        let popped = current.pop();
        proof {
            let cur0 = old(current)@;
            let cn = cur0.len() as int;
            let cur1 = cur0.push(all_pairs@[i as int]);
            let nrr = reflectors@.len() as int;
            assert(current@ =~= old(current)@);
            assert(matches@.take(old(matches)@.len() as int) =~= old(matches)@);
            assert forall|j: int|
                old(matches)@.len() <= j < matches@.len() implies state_in_space(
                    (#[trigger] matches@[j])@,
                    opts,
                    slots,
                    refl_opt,
                ) && spec_crib_match(
                    matches@[j]@,
                    input@,
                    opt_msg(*starting_string),
                    opt_msg(*ending_string),
                    opt_msg(*contained_string),
                ) by {
                if j < pre_matches.len() {
                    assert(matches@[j] == matches@.take(pre_matches.len() as int)[j]);
                    assert(matches@[j] == pre_matches[j]);
                }
            }
            assert forall|ps: Seq<(Letter, Letter)>|
                selection_matches(ps, cur0, all_pairs@, start as int, k as int) && (exists|q: int|
                    start <= q < i + 1 && all_pairs@[q] == ps[cn]) implies covered_before(
                matches@,
                ps,
                reflectors@,
                id_tuples@,
                pos_tuples@,
                input@,
                opt_msg(*starting_string),
                opt_msg(*ending_string),
                opt_msg(*contained_string),
                nrr,
                0,
                0,
            ) by {
                let q = choose|q: int| start <= q < i + 1 && all_pairs@[q] == ps[cn];
                if q < i {
                    lemma_covered_before_monotone(
                        pre_matches,
                        matches@,
                        ps,
                        reflectors@,
                        id_tuples@,
                        pos_tuples@,
                        input@,
                        opt_msg(*starting_string),
                        opt_msg(*ending_string),
                        opt_msg(*contained_string),
                        nrr,
                        0,
                        0,
                    );
                } else {
                    lemma_selection_step(ps, cur0, all_pairs@, start as int, k as int, i as int);
                    assert(selection_matches(ps, cur1, all_pairs@, i as int + 1, k as int - 1));
                }
            }
            assert forall|j: int|
                old(matches)@.len() <= j < matches@.len() implies (#[trigger] matches@[j])@.plug_map.len()
                == cn + k && matches@[j]@.plug_map.take(cn) == cur0 && (exists|q: int|
                start <= q < i + 1 && matches@[j]@.plug_map[cn] == #[trigger] all_pairs@[q]) by {
                if j < pre_matches.len() {
                    assert(matches@[j] == pre_matches[j]);
                } else {
                    assert(matches@[j]@.plug_map.take(cn + 1) == cur1);
                    assert(matches@[j]@.plug_map.take(cn) =~= cur0) by {
                        assert forall|e: int|
                            0 <= e < cn implies matches@[j]@.plug_map.take(cn)[e] == cur0[e] by {
                            assert(matches@[j]@.plug_map.take(cn + 1)[e] == cur1[e]);
                        }
                    }
                    assert(matches@[j]@.plug_map[cn] == matches@[j]@.plug_map.take(cn + 1)[cn]);
                    assert(matches@[j]@.plug_map[cn] == all_pairs@[i as int]);
                }
            }
            if dims_distinct(reflectors@, id_tuples@, pos_tuples@) {
                assert forall|j1: int, j2: int|
                    old(matches)@.len() <= j1 < j2 < matches@.len() implies (
                #[trigger] matches@[j1])@ != (#[trigger] matches@[j2])@ by {
                    if j2 < pre_matches.len() {
                        assert(matches@[j1] == pre_matches[j1] && matches@[j2] == pre_matches[j2]);
                    } else if j1 < pre_matches.len() {
                        assert(matches@[j1] == pre_matches[j1]);
                        let q = choose|q: int|
                            start <= q < i && pre_matches[j1]@.plug_map[cn] == #[trigger] all_pairs@[q];
                        assert(matches@[j1]@.plug_map[cn] == all_pairs@[q]);
                        assert(matches@[j2]@.plug_map.take(cn + 1) == cur1);
                        assert(matches@[j2]@.plug_map[cn] == matches@[j2]@.plug_map.take(cn + 1)[cn]);
                        assert(matches@[j2]@.plug_map[cn] == all_pairs@[i as int]);
                        assert(spec_pair_lt(all_pairs@[q], all_pairs@[i as int]));
                        assert(matches@[j1]@.plug_map != matches@[j2]@.plug_map) by {
                            if matches@[j1]@.plug_map == matches@[j2]@.plug_map {
                                assert(all_pairs@[q] == all_pairs@[i as int]);
                            }
                        }
                    }
                }
            }
        }
        i = i + 1;
    }
    proof {
        assert forall|ps: Seq<(Letter, Letter)>|
            selection_matches(
                ps,
                old(current)@,
                all_pairs@,
                start as int,
                k as int,
            ) implies covered_before(
            matches@,
            ps,
            reflectors@,
            id_tuples@,
            pos_tuples@,
            input@,
            opt_msg(*starting_string),
            opt_msg(*ending_string),
            opt_msg(*contained_string),
            reflectors@.len() as int,
            0,
            0,
        ) by {
            lemma_selection_first_index(ps, old(current)@, all_pairs@, start as int, k as int);
            let q = choose|q: int|
                start <= q <= all_pairs@.len() - k && #[trigger] all_pairs@[q] == ps[old(
                    current,
                )@.len() as int];
            assert(start <= q < i && all_pairs@[q] == ps[old(current)@.len() as int]);
        }
    }
}

/// Brute-force search: enumerate every machine configuration the query
/// allows and collect exactly those whose decoding matches every supplied
/// crib: each collected state lies in the queried space and matches, each
/// matching state of the space is collected, and none is collected twice.
///
/// `rotors` gives one entry per rotor slot; a `None` identity or position
/// means that dimension is unknown and every value is tried.  A `None`
/// rotor list means no rotors to search.  A `None` reflector tries all
/// three reflectors.  Plug selections are enumerated lazily, never
/// materialised.
pub fn force_combinations(
    plug_options: PlugboardOptions,
    rotors: Option<Vec<(Option<RotorId>, Option<Letter>)>>,
    reflector: Option<ReflectorId>,
    input: &Message,
    starting_string: &Option<Message>,
    ending_string: &Option<Message>,
    contained_string: &Option<Message>,
) -> (r: Vec<MachineState>)
    requires
        input@.len() + 1 < i32::MAX,
        ending_string matches Some(e) ==> e@.len() <= input@.len(),
        contained_string matches Some(c) ==> c@.len() <= input@.len(),
    ensures
        forall|j: int|
            0 <= j < r@.len() ==> state_in_space(
                (#[trigger] r@[j])@,
                plug_options,
                slots_of(rotors),
                reflector,
            ) && spec_crib_match(
                r@[j]@,
                input@,
                opt_msg(*starting_string),
                opt_msg(*ending_string),
                opt_msg(*contained_string),
            ),
        forall|sv: StateView|
            #![trigger state_in_space(sv, plug_options, slots_of(rotors), reflector)]
            state_in_space(sv, plug_options, slots_of(rotors), reflector)
                && crate::machine::laws::state_starts_in_range(sv) && spec_crib_match(
                sv,
                input@,
                opt_msg(*starting_string),
                opt_msg(*ending_string),
                opt_msg(*contained_string),
            ) ==> in_matches(r@, sv),
        forall|j1: int, j2: int|
            0 <= j1 < j2 < r@.len() ==> (#[trigger] r@[j1])@ != (#[trigger] r@[j2])@,
{
    let mut matches: Vec<MachineState> = Vec::new();
    let rotor_slots = match rotors {
        Some(v) => v,
        None => Vec::new(),
    };
    let reflectors = match reflector {
        Some(id) => {
            let mut v: Vec<ReflectorId> = Vec::new();
            v.push(id);
            v
        },
        None => ReflectorId::all(),
    };
    let id_axes = build_id_axes(&rotor_slots);
    let pos_axes = build_pos_axes(&rotor_slots);
    let id_tuples = product_tuples(&id_axes, 0);
    let pos_tuples = product_tuples(&pos_axes, 0);
    let ghost slots = rotor_slots@;
    proof {
        assert(slots == slots_of(rotors));
        assert forall|j: int, i: int|
            0 <= j < id_tuples@.len() && 0 <= i < slots.len() implies ((#[trigger] slots[i]).0
            matches Some(id) ==> (#[trigger] id_tuples@[j])@[i] == id) by {
            if slots[i].0 is Some {
                assert((id_axes@[0 + i])@.contains((id_tuples@[j])@[i]));
                assert(id_axes@[i]@ == seq![slots[i].0->0]);
            }
        }
        assert forall|j: int, i: int|
            0 <= j < pos_tuples@.len() && 0 <= i < slots.len() implies ((#[trigger] slots[i]).1
            matches Some(l) ==> (#[trigger] pos_tuples@[j])@[i] == l) by {
            if slots[i].1 is Some {
                assert((pos_axes@[0 + i])@.contains((pos_tuples@[j])@[i]));
                assert(pos_axes@[i]@ == seq![slots[i].1->0]);
            }
        }
        assert(dims_distinct(reflectors@, id_tuples@, pos_tuples@)) by {
            match reflector {
                Some(_) => {
                    assert(reflectors@.len() == 1);
                },
                None => {
                    assert(reflectors@ == seq![ReflectorId::A, ReflectorId::B, ReflectorId::C]);
                },
            }
        }
    }
    match &plug_options {
        PlugboardOptions::KnownConnections(connections) => {
            try_plugs(
                connections,
                &reflectors,
                &id_tuples,
                &pos_tuples,
                input,
                starting_string,
                ending_string,
                contained_string,
                &mut matches,
                Ghost(plug_options),
                Ghost(slots),
                Ghost(reflector),
            );
            proof {
                assert forall|sv: StateView|
                    state_in_space(sv, plug_options, slots_of(rotors), reflector)
                        && crate::machine::laws::state_starts_in_range(sv) && spec_crib_match(
                        sv,
                        input@,
                        opt_msg(*starting_string),
                        opt_msg(*ending_string),
                        opt_msg(*contained_string),
                    ) implies in_matches(matches@, sv) by {
                    assert(reflectors@.contains(sv.reflector_id)) by {
                        match reflector {
                            Some(rid) => {
                                assert(reflectors@[0] == rid);
                            },
                            None => {
                                lemma_all_reflector_ids(sv.reflector_id);
                            },
                        }
                    }
                    assert(sv.plug_map == connections@);
                    lemma_covered_state_found(
                        matches@,
                        sv,
                        slots,
                        reflectors@,
                        id_axes@,
                        pos_axes@,
                        id_tuples@,
                        pos_tuples@,
                        input@,
                        opt_msg(*starting_string),
                        opt_msg(*ending_string),
                        opt_msg(*contained_string),
                    );
                }
            }
        },
        PlugboardOptions::NumberInRange(a, b) => {
            let all_pairs = all_letter_pairs();
            let mut current: Vec<(Letter, Letter)> = Vec::new();
            let mut k: usize = *a;
            while k < *b
                invariant
                    plug_options matches PlugboardOptions::NumberInRange(x, y) && x == a && y
                        == b,
                    a <= k,
            forall|q: int|
                0 <= q < all_pairs@.len() ==> (#[trigger] all_pairs@[q]).0@ < all_pairs@[q].1@,
            forall|q: int, w: int|
                0 <= q < w < all_pairs@.len() ==> spec_pair_lt(
                    #[trigger] all_pairs@[q],
                    #[trigger] all_pairs@[w],
                ),
            all_pairs@.len() == 325,
            forall|x: int, y: int|
                0 <= x < y < 26 ==> #[trigger] crate::brute_force::combinations::spec_pair_listed(
                    all_pairs@,
                    x,
                    y,
                ),
            current@.len() == 0,
            input@.len() + 1 < i32::MAX,
            ending_string matches Some(e) ==> e@.len() <= input@.len(),
            contained_string matches Some(c) ==> c@.len() <= input@.len(),
            slots == slots_of(rotors),
            forall|j: int|
                0 <= j < id_tuples@.len() ==> (#[trigger] id_tuples@[j])@.len() == slots.len(),
            forall|j: int|
                0 <= j < pos_tuples@.len() ==> (#[trigger] pos_tuples@[j])@.len() == slots.len(),
            forall|j: int, i2: int|
                0 <= j < id_tuples@.len() && 0 <= i2 < slots.len() ==> ((#[trigger] slots[i2]).0
                    matches Some(id) ==> (#[trigger] id_tuples@[j])@[i2] == id),
            forall|j: int, i2: int|
                0 <= j < pos_tuples@.len() && 0 <= i2 < slots.len() ==> ((#[trigger] slots[i2]).1
                    matches Some(l) ==> (#[trigger] pos_tuples@[j])@[i2] == l),
            forall|j: int|
                0 <= j < reflectors@.len() ==> (reflector matches Some(rid)
                    ==> #[trigger] reflectors@[j] == rid),
            dims_distinct(reflectors@, id_tuples@, pos_tuples@),
            forall|j: int|
                0 <= j < matches@.len() ==> state_in_space(
                    (#[trigger] matches@[j])@,
                    plug_options,
                    slots,
                    reflector,
                ) && spec_crib_match(
                    matches@[j]@,
                    input@,
                    opt_msg(*starting_string),
                    opt_msg(*ending_string),
                    opt_msg(*contained_string),
                ),
            forall|ps: Seq<(Letter, Letter)>|
                #![trigger selection_matches(ps, Seq::<(Letter, Letter)>::empty(), all_pairs@, 0, ps.len() as int)]
                *a <= ps.len() < k && selection_matches(
                    ps,
                    Seq::<(Letter, Letter)>::empty(),
                    all_pairs@,
                    0,
                    ps.len() as int,
                ) ==> covered_before(
                    matches@,
                    ps,
                    reflectors@,
                    id_tuples@,
                    pos_tuples@,
                    input@,
                    opt_msg(*starting_string),
                    opt_msg(*ending_string),
                    opt_msg(*contained_string),
                    reflectors@.len() as int,
                    0,
                    0,
                ),
            forall|j: int|
                0 <= j < matches@.len() ==> *a <= (#[trigger] matches@[j])@.plug_map.len() < k,
            forall|j1: int, j2: int|
                0 <= j1 < j2 < matches@.len() ==> (#[trigger] matches@[j1])@ != (
                #[trigger] matches@[j2])@,
                decreases *b - k,
            {
                let ghost pre = matches@;
                proof {
                    assert(current@ =~= Seq::<(Letter, Letter)>::empty());
                }
                search_plugs(
                    &all_pairs,
                    k,
                    0,
                    &mut current,
                    &reflectors,
                    &id_tuples,
                    &pos_tuples,
                    input,
                    starting_string,
                    ending_string,
                    contained_string,
                    &mut matches,
                    Ghost(plug_options),
                    Ghost(slots),
                    Ghost(reflector),
                );
            proof {
                let nrr = reflectors@.len() as int;
                let emp = Seq::<(Letter, Letter)>::empty();
                assert forall|j: int|
                    0 <= j < matches@.len() implies state_in_space(
                        (#[trigger] matches@[j])@,
                        plug_options,
                        slots,
                        reflector,
                    ) && spec_crib_match(
                        matches@[j]@,
                        input@,
                        opt_msg(*starting_string),
                        opt_msg(*ending_string),
                        opt_msg(*contained_string),
                    ) && *a <= matches@[j]@.plug_map.len() < k + 1 by {
                    if j < pre.len() {
                        assert(matches@[j] == matches@.take(pre.len() as int)[j]);
                        assert(matches@[j] == pre[j]);
                    } else {
                        assert(matches@[j]@.plug_map.len() == emp.len() + k);
                    }
                }
                assert forall|ps: Seq<(Letter, Letter)>|
                    *a <= ps.len() < k + 1 && selection_matches(
                        ps,
                        Seq::<(Letter, Letter)>::empty(),
                        all_pairs@,
                        0,
                        ps.len() as int,
                    ) implies covered_before(
                    matches@,
                    ps,
                    reflectors@,
                    id_tuples@,
                    pos_tuples@,
                    input@,
                    opt_msg(*starting_string),
                    opt_msg(*ending_string),
                    opt_msg(*contained_string),
                    nrr,
                    0,
                    0,
                ) by {
                    if ps.len() < k {
                        lemma_covered_before_monotone(
                            pre,
                            matches@,
                            ps,
                            reflectors@,
                            id_tuples@,
                            pos_tuples@,
                            input@,
                            opt_msg(*starting_string),
                            opt_msg(*ending_string),
                            opt_msg(*contained_string),
                            nrr,
                            0,
                            0,
                        );
                    } else {
                        assert(selection_matches(ps, emp, all_pairs@, 0, k as int));
                    }
                }
                assert forall|j1: int, j2: int|
                    0 <= j1 < j2 < matches@.len() implies (#[trigger] matches@[j1])@ != (
                #[trigger] matches@[j2])@ by {
                    if j2 < pre.len() {
                        assert(matches@[j1] == pre[j1] && matches@[j2] == pre[j2]);
                    } else if j1 < pre.len() {
                        assert(matches@[j1] == pre[j1]);
                        assert(matches@[j1]@.plug_map.len() < k);
                        assert(matches@[j2]@.plug_map.len() == emp.len() + k);
                        assert(matches@[j1]@.plug_map != matches@[j2]@.plug_map) by {
                            if matches@[j1]@.plug_map == matches@[j2]@.plug_map {
                                assert(matches@[j1]@.plug_map.len()
                                    == matches@[j2]@.plug_map.len());
                            }
                        }
                    }
                }
            }
                k = k + 1;
            }
    proof {
        let nrr = reflectors@.len() as int;
        assert forall|sv: StateView|
            state_in_space(sv, plug_options, slots_of(rotors), reflector)
                && crate::machine::laws::state_starts_in_range(sv) && spec_crib_match(
                sv,
                input@,
                opt_msg(*starting_string),
                opt_msg(*ending_string),
                opt_msg(*contained_string),
            ) implies in_matches(matches@, sv) by {
            assert(reflectors@.contains(sv.reflector_id)) by {
                match reflector {
                    Some(rid) => {
                        assert(reflectors@[0] == rid);
                    },
                    None => {
                        lemma_all_reflector_ids(sv.reflector_id);
                    },
                }
            }
            let ps = sv.plug_map;
            assert(spec_pairs_ordered(ps));
            assert(selection_matches(
                ps,
                Seq::<(Letter, Letter)>::empty(),
                all_pairs@,
                0,
                ps.len() as int,
            )) by {
                assert(ps.take(0) =~= Seq::<(Letter, Letter)>::empty());
                assert forall|d: int| 0 <= d < ps.len() implies exists|q: int|
                    0 <= q < all_pairs@.len() && #[trigger] ps[d] == all_pairs@[q] by {
                    let p = ps[d];
                    assert(p.0@ < p.1@);
                    crate::letter::lemma_letter_view_range(p.0);
                    crate::letter::lemma_letter_view_range(p.1);
                    assert(crate::brute_force::combinations::spec_pair_listed(
                        all_pairs@,
                        p.0@,
                        p.1@,
                    ));
                    let q = choose|q: int|
                        0 <= q < all_pairs@.len() && (#[trigger] all_pairs@[q]).0@ == p.0@
                            && all_pairs@[q].1@ == p.1@;
                    crate::letter::lemma_letter_of_view(all_pairs@[q].0);
                    crate::letter::lemma_letter_of_view(all_pairs@[q].1);
                    crate::letter::lemma_letter_of_view(p.0);
                    crate::letter::lemma_letter_of_view(p.1);
                    assert(all_pairs@[q] == p);
                }
            }
            assert(covered_before(
                matches@,
                ps,
                reflectors@,
                id_tuples@,
                pos_tuples@,
                input@,
                opt_msg(*starting_string),
                opt_msg(*ending_string),
                opt_msg(*contained_string),
                nrr,
                0,
                0,
            ));
            lemma_covered_state_found(
                matches@,
                sv,
                slots,
                reflectors@,
                id_axes@,
                pos_axes@,
                id_tuples@,
                pos_tuples@,
                input@,
                opt_msg(*starting_string),
                opt_msg(*ending_string),
                opt_msg(*contained_string),
            );
        }
    }
        },
        PlugboardOptions::NumberInRangeInclusive(a, b) => {
            let all_pairs = all_letter_pairs();
            let mut current: Vec<(Letter, Letter)> = Vec::new();
            let mut k: usize = *a;
            let ghost mut kb: int = *a as int;
            loop
                invariant_except_break
                    plug_options matches PlugboardOptions::NumberInRangeInclusive(x, y) && x == a
                        && y == b,
                    a <= k,
                    kb == k as int,
            forall|q: int|
                0 <= q < all_pairs@.len() ==> (#[trigger] all_pairs@[q]).0@ < all_pairs@[q].1@,
            forall|q: int, w: int|
                0 <= q < w < all_pairs@.len() ==> spec_pair_lt(
                    #[trigger] all_pairs@[q],
                    #[trigger] all_pairs@[w],
                ),
            all_pairs@.len() == 325,
            forall|x: int, y: int|
                0 <= x < y < 26 ==> #[trigger] crate::brute_force::combinations::spec_pair_listed(
                    all_pairs@,
                    x,
                    y,
                ),
            current@.len() == 0,
            input@.len() + 1 < i32::MAX,
            ending_string matches Some(e) ==> e@.len() <= input@.len(),
            contained_string matches Some(c) ==> c@.len() <= input@.len(),
            slots == slots_of(rotors),
            forall|j: int|
                0 <= j < id_tuples@.len() ==> (#[trigger] id_tuples@[j])@.len() == slots.len(),
            forall|j: int|
                0 <= j < pos_tuples@.len() ==> (#[trigger] pos_tuples@[j])@.len() == slots.len(),
            forall|j: int, i2: int|
                0 <= j < id_tuples@.len() && 0 <= i2 < slots.len() ==> ((#[trigger] slots[i2]).0
                    matches Some(id) ==> (#[trigger] id_tuples@[j])@[i2] == id),
            forall|j: int, i2: int|
                0 <= j < pos_tuples@.len() && 0 <= i2 < slots.len() ==> ((#[trigger] slots[i2]).1
                    matches Some(l) ==> (#[trigger] pos_tuples@[j])@[i2] == l),
            forall|j: int|
                0 <= j < reflectors@.len() ==> (reflector matches Some(rid)
                    ==> #[trigger] reflectors@[j] == rid),
            dims_distinct(reflectors@, id_tuples@, pos_tuples@),
            forall|j: int|
                0 <= j < matches@.len() ==> state_in_space(
                    (#[trigger] matches@[j])@,
                    plug_options,
                    slots,
                    reflector,
                ) && spec_crib_match(
                    matches@[j]@,
                    input@,
                    opt_msg(*starting_string),
                    opt_msg(*ending_string),
                    opt_msg(*contained_string),
                ),
            forall|ps: Seq<(Letter, Letter)>|
                #![trigger selection_matches(ps, Seq::<(Letter, Letter)>::empty(), all_pairs@, 0, ps.len() as int)]
                *a <= ps.len() < kb && selection_matches(
                    ps,
                    Seq::<(Letter, Letter)>::empty(),
                    all_pairs@,
                    0,
                    ps.len() as int,
                ) ==> covered_before(
                    matches@,
                    ps,
                    reflectors@,
                    id_tuples@,
                    pos_tuples@,
                    input@,
                    opt_msg(*starting_string),
                    opt_msg(*ending_string),
                    opt_msg(*contained_string),
                    reflectors@.len() as int,
                    0,
                    0,
                ),
            forall|j: int|
                0 <= j < matches@.len() ==> *a <= (#[trigger] matches@[j])@.plug_map.len() < kb,
            forall|j1: int, j2: int|
                0 <= j1 < j2 < matches@.len() ==> (#[trigger] matches@[j1])@ != (
                #[trigger] matches@[j2])@,
                ensures
                    forall|j: int|
                        0 <= j < matches@.len() ==> state_in_space(
                            (#[trigger] matches@[j])@,
                            plug_options,
                            slots,
                            reflector,
                        ) && spec_crib_match(
                            matches@[j]@,
                            input@,
                            opt_msg(*starting_string),
                            opt_msg(*ending_string),
                            opt_msg(*contained_string),
                        ),
                    forall|ps: Seq<(Letter, Letter)>|
                        #![trigger selection_matches(ps, Seq::<(Letter, Letter)>::empty(), all_pairs@, 0, ps.len() as int)]
                        *a <= ps.len() <= *b && selection_matches(
                            ps,
                            Seq::<(Letter, Letter)>::empty(),
                            all_pairs@,
                            0,
                            ps.len() as int,
                        ) ==> covered_before(
                            matches@,
                            ps,
                            reflectors@,
                            id_tuples@,
                            pos_tuples@,
                            input@,
                            opt_msg(*starting_string),
                            opt_msg(*ending_string),
                            opt_msg(*contained_string),
                            reflectors@.len() as int,
                            0,
                            0,
                        ),
                    forall|j1: int, j2: int|
                        0 <= j1 < j2 < matches@.len() ==> (#[trigger] matches@[j1])@ != (
                        #[trigger] matches@[j2])@,
                decreases *b + 1 - k,
            {
                if k > *b {
                    break ;
                }
                let ghost pre = matches@;
                proof {
                    assert(current@ =~= Seq::<(Letter, Letter)>::empty());
                }
                search_plugs(
                    &all_pairs,
                    k,
                    0,
                    &mut current,
                    &reflectors,
                    &id_tuples,
                    &pos_tuples,
                    input,
                    starting_string,
                    ending_string,
                    contained_string,
                    &mut matches,
                    Ghost(plug_options),
                    Ghost(slots),
                    Ghost(reflector),
                );
            proof {
                let nrr = reflectors@.len() as int;
                let emp = Seq::<(Letter, Letter)>::empty();
                assert forall|j: int|
                    0 <= j < matches@.len() implies state_in_space(
                        (#[trigger] matches@[j])@,
                        plug_options,
                        slots,
                        reflector,
                    ) && spec_crib_match(
                        matches@[j]@,
                        input@,
                        opt_msg(*starting_string),
                        opt_msg(*ending_string),
                        opt_msg(*contained_string),
                    ) && *a <= matches@[j]@.plug_map.len() < kb + 1 by {
                    if j < pre.len() {
                        assert(matches@[j] == matches@.take(pre.len() as int)[j]);
                        assert(matches@[j] == pre[j]);
                    } else {
                        assert(matches@[j]@.plug_map.len() == emp.len() + k);
                    }
                }
                assert forall|ps: Seq<(Letter, Letter)>|
                    *a <= ps.len() < kb + 1 && selection_matches(
                        ps,
                        Seq::<(Letter, Letter)>::empty(),
                        all_pairs@,
                        0,
                        ps.len() as int,
                    ) implies covered_before(
                    matches@,
                    ps,
                    reflectors@,
                    id_tuples@,
                    pos_tuples@,
                    input@,
                    opt_msg(*starting_string),
                    opt_msg(*ending_string),
                    opt_msg(*contained_string),
                    nrr,
                    0,
                    0,
                ) by {
                    if ps.len() < kb {
                        lemma_covered_before_monotone(
                            pre,
                            matches@,
                            ps,
                            reflectors@,
                            id_tuples@,
                            pos_tuples@,
                            input@,
                            opt_msg(*starting_string),
                            opt_msg(*ending_string),
                            opt_msg(*contained_string),
                            nrr,
                            0,
                            0,
                        );
                    } else {
                        assert(selection_matches(ps, emp, all_pairs@, 0, k as int));
                    }
                }
                assert forall|j1: int, j2: int|
                    0 <= j1 < j2 < matches@.len() implies (#[trigger] matches@[j1])@ != (
                #[trigger] matches@[j2])@ by {
                    if j2 < pre.len() {
                        assert(matches@[j1] == pre[j1] && matches@[j2] == pre[j2]);
                    } else if j1 < pre.len() {
                        assert(matches@[j1] == pre[j1]);
                        assert(matches@[j1]@.plug_map.len() < kb);
                        assert(matches@[j2]@.plug_map.len() == emp.len() + k);
                        assert(matches@[j1]@.plug_map != matches@[j2]@.plug_map) by {
                            if matches@[j1]@.plug_map == matches@[j2]@.plug_map {
                                assert(matches@[j1]@.plug_map.len()
                                    == matches@[j2]@.plug_map.len());
                            }
                        }
                    }
                }
            }
                proof {
                    kb = kb + 1;
                }
                if k == *b {
                    break ;
                }
                k = k + 1;
            }
    proof {
        let nrr = reflectors@.len() as int;
        assert forall|sv: StateView|
            state_in_space(sv, plug_options, slots_of(rotors), reflector)
                && crate::machine::laws::state_starts_in_range(sv) && spec_crib_match(
                sv,
                input@,
                opt_msg(*starting_string),
                opt_msg(*ending_string),
                opt_msg(*contained_string),
            ) implies in_matches(matches@, sv) by {
            assert(reflectors@.contains(sv.reflector_id)) by {
                match reflector {
                    Some(rid) => {
                        assert(reflectors@[0] == rid);
                    },
                    None => {
                        lemma_all_reflector_ids(sv.reflector_id);
                    },
                }
            }
            let ps = sv.plug_map;
            assert(spec_pairs_ordered(ps));
            assert(selection_matches(
                ps,
                Seq::<(Letter, Letter)>::empty(),
                all_pairs@,
                0,
                ps.len() as int,
            )) by {
                assert(ps.take(0) =~= Seq::<(Letter, Letter)>::empty());
                assert forall|d: int| 0 <= d < ps.len() implies exists|q: int|
                    0 <= q < all_pairs@.len() && #[trigger] ps[d] == all_pairs@[q] by {
                    let p = ps[d];
                    assert(p.0@ < p.1@);
                    crate::letter::lemma_letter_view_range(p.0);
                    crate::letter::lemma_letter_view_range(p.1);
                    assert(crate::brute_force::combinations::spec_pair_listed(
                        all_pairs@,
                        p.0@,
                        p.1@,
                    ));
                    let q = choose|q: int|
                        0 <= q < all_pairs@.len() && (#[trigger] all_pairs@[q]).0@ == p.0@
                            && all_pairs@[q].1@ == p.1@;
                    crate::letter::lemma_letter_of_view(all_pairs@[q].0);
                    crate::letter::lemma_letter_of_view(all_pairs@[q].1);
                    crate::letter::lemma_letter_of_view(p.0);
                    crate::letter::lemma_letter_of_view(p.1);
                    assert(all_pairs@[q] == p);
                }
            }
            assert(covered_before(
                matches@,
                ps,
                reflectors@,
                id_tuples@,
                pos_tuples@,
                input@,
                opt_msg(*starting_string),
                opt_msg(*ending_string),
                opt_msg(*contained_string),
                nrr,
                0,
                0,
            ));
            lemma_covered_state_found(
                matches@,
                sv,
                slots,
                reflectors@,
                id_axes@,
                pos_axes@,
                id_tuples@,
                pos_tuples@,
                input@,
                opt_msg(*starting_string),
                opt_msg(*ending_string),
                opt_msg(*contained_string),
            );
        }
    }
        },
    }
    matches
}

} // verus!
