use vstd::prelude::*;

use crate::letter::{lemma_letter_of_val, lemma_letter_of_view, letter_of};
use crate::machine::data::{reflector_table, ReflectorId};
use crate::machine::enigma_machine::{
    lemma_step_wf, machine_wf, rotors_all_wf, spec_cipher_letter, spec_consume,
    spec_encipher_char, spec_machine_of_state, spec_rotors_in, spec_rotors_out, spec_rotors_step,
    spec_rotors_unstep, spec_step, spec_step_n, spec_unstep, spec_unstep_n, SpecMachine,
};
use crate::machine::machine_state::StateView;
use crate::machine::reflector::mapping_derangement_involution;
use crate::machine::rotor::{
    add26, rotor_wf, spec_rotor_char_in, spec_rotor_char_out, spec_rotor_double_step,
    spec_rotor_double_unstep, spec_rotor_step, spec_rotor_unstep, sub26, SpecRotor,
};
use crate::message::MessageChar;

verus! {

/// Adding and subtracting the same offset on the alphabet circle cancel.
proof fn lemma_add_sub26(x: int, p: int)
    requires
        0 <= x < 26,
        0 <= p < 26,
    ensures
        add26(sub26(x, p), p) == x,
        sub26(add26(x, p), p) == x,
        0 <= add26(x, p) < 26,
        0 <= sub26(x, p) < 26,
{
    vstd::arithmetic::div_mod::lemma_small_mod(x as nat, 26);
    vstd::arithmetic::div_mod::lemma_small_mod(p as nat, 26);
    vstd::arithmetic::div_mod::lemma_add_mod_noop(x - p, p, 26);
    vstd::arithmetic::div_mod::lemma_add_mod_noop(x + p, -p, 26);
    vstd::arithmetic::div_mod::lemma_mod_twice(x - p, 26);
    vstd::arithmetic::div_mod::lemma_mod_twice(x + p, 26);
    assert((-p) % 26 == 26 - p || (-p) % 26 == 0) by {
        if p == 0 {
            vstd::arithmetic::div_mod::lemma_small_mod(0, 26);
        } else {
            vstd::arithmetic::div_mod::lemma_mod_add_multiples_vanish(-p, 26);
            vstd::arithmetic::div_mod::lemma_small_mod((26 - p) as nat, 26);
        }
    }
    vstd::arithmetic::div_mod::lemma_add_mod_noop((x - p) % 26 + p, 0, 26);
    assert(add26(sub26(x, p), p) == ((x - p) % 26 + p) % 26);
    assert(((x - p) % 26 + p % 26) % 26 == (x - p + p) % 26);
    vstd::arithmetic::div_mod::lemma_small_mod(x as nat, 26);
    assert(sub26(add26(x, p), p) == ((x + p) % 26 - p) % 26);
    assert(((x + p) % 26 + (-p) % 26) % 26 == (x + p + (-p)) % 26);
    assert(((x + p) % 26 - p) % 26 == x) by {
        vstd::arithmetic::div_mod::lemma_add_mod_noop((x + p) % 26, -p, 26);
        vstd::arithmetic::div_mod::lemma_mod_twice((x + p) % 26 + (-p) % 26, 26);
        vstd::arithmetic::div_mod::lemma_mod_twice(-p, 26);
        vstd::arithmetic::div_mod::lemma_add_mod_noop((x + p) % 26, (-p) % 26, 26);
    }
}

/// One rotor's two directions cancel each other.
proof fn lemma_rotor_inverse(r: SpecRotor, c: int)
    requires
        rotor_wf(r),
        0 <= c < 26,
    ensures
        spec_rotor_char_out(r, spec_rotor_char_in(r, c)) == c,
        spec_rotor_char_in(r, spec_rotor_char_out(r, c)) == c,
        0 <= spec_rotor_char_in(r, c) < 26,
        0 <= spec_rotor_char_out(r, c) < 26,
{
    lemma_add_sub26(c, r.pos);
    let x = add26(c, r.pos);
    lemma_add_sub26(r.fwd[x], r.pos);
    lemma_add_sub26(r.rev[x], r.pos);
    assert(spec_rotor_char_out(r, spec_rotor_char_in(r, c)) == c) by {
        let y = spec_rotor_char_in(r, c);
        assert(y == sub26(r.fwd[x], r.pos));
        assert(add26(y, r.pos) == r.fwd[x]);
        assert(r.rev[r.fwd[x]] == x);
        lemma_add_sub26(x, r.pos);
        assert(sub26(x, r.pos) == c) by {
            lemma_add_sub26(c, r.pos);
        }
    }
    assert(spec_rotor_char_in(r, spec_rotor_char_out(r, c)) == c) by {
        let y = spec_rotor_char_out(r, c);
        assert(y == sub26(r.rev[x], r.pos));
        assert(add26(y, r.pos) == r.rev[x]);
        assert(r.fwd[r.rev[x]] == x);
        assert(sub26(x, r.pos) == c);
    }
}

/// Every rotor of the tail of a well-formed bank is well-formed.
proof fn lemma_all_wf_drop_first(rs: Seq<SpecRotor>)
    requires
        rotors_all_wf(rs),
        rs.len() > 0,
    ensures
        rotors_all_wf(rs.drop_first()),
{
    assert forall|i: int| 0 <= i < rs.drop_first().len() implies rotor_wf(
        #[trigger] rs.drop_first()[i],
    ) by {
        assert(rs.drop_first()[i] == rs[i + 1]);
    }
}

/// The inward pass can also be peeled from the front: the leftmost...
/// rightmost order of application does not matter for its recursion.
proof fn lemma_rotors_in_front(rs: Seq<SpecRotor>, c: int)
    requires
        rs.len() > 0,
    ensures
        spec_rotors_in(rs, c) == spec_rotors_in(
            rs.drop_first(),
            spec_rotor_char_in(rs.first(), c),
        ),
    decreases rs.len(),
{
    let ci0 = spec_rotor_char_in(rs.first(), c);
    if rs.len() == 1 {
        assert(rs.drop_first().len() == 0);
        assert(rs.drop_last().len() == 0);
        assert(rs.last() == rs.first());
        assert(spec_rotors_in(rs.drop_last(), c) == c);
        assert(spec_rotors_in(rs.drop_first(), ci0) == ci0);
        assert(spec_rotors_in(rs, c) == spec_rotor_char_in(rs.last(), spec_rotors_in(
            rs.drop_last(),
            c,
        )));
    } else {
        lemma_rotors_in_front(rs.drop_last(), c);
        assert(rs.drop_last().first() == rs.first());
        assert(rs.drop_last().drop_first() =~= rs.drop_first().drop_last());
        assert(rs.drop_first().last() == rs.last());
        // unfold the definition on both sides
        assert(spec_rotors_in(rs, c) == spec_rotor_char_in(rs.last(), spec_rotors_in(
            rs.drop_last(),
            c,
        )));
        assert(spec_rotors_in(rs.drop_last(), c) == spec_rotors_in(
            rs.drop_first().drop_last(),
            ci0,
        ));
        assert(spec_rotors_in(rs.drop_first(), ci0) == spec_rotor_char_in(
            rs.drop_first().last(),
            spec_rotors_in(rs.drop_first().drop_last(), ci0),
        ));
    }
}

/// The rotor bank's two passes cancel each other.
proof fn lemma_rotors_inverse(rs: Seq<SpecRotor>, c: int)
    requires
        rotors_all_wf(rs),
        0 <= c < 26,
    ensures
        spec_rotors_out(rs, spec_rotors_in(rs, c)) == c,
        spec_rotors_in(rs, spec_rotors_out(rs, c)) == c,
        0 <= spec_rotors_in(rs, c) < 26,
        0 <= spec_rotors_out(rs, c) < 26,
    decreases rs.len(),
{
    if rs.len() == 0 {
    } else {
        lemma_all_wf_drop_first(rs);
        assert(rotor_wf(rs.first()));
        lemma_rotor_inverse(rs.first(), c);
        let c_in0 = spec_rotor_char_in(rs.first(), c);
        lemma_rotors_in_front(rs, c);
        lemma_rotors_inverse(rs.drop_first(), c_in0);
        assert(spec_rotors_out(rs, spec_rotors_in(rs, c)) == c) by {
            assert(spec_rotors_in(rs, c) == spec_rotors_in(rs.drop_first(), c_in0));
            assert(spec_rotors_out(rs, spec_rotors_in(rs.drop_first(), c_in0))
                == spec_rotor_char_out(rs.first(), spec_rotors_out(
                rs.drop_first(),
                spec_rotors_in(rs.drop_first(), c_in0),
            )));
        }
        let z = spec_rotors_out(rs.drop_first(), c);
        lemma_rotors_inverse(rs.drop_first(), c);
        lemma_rotor_inverse(rs.first(), z);
        assert(spec_rotors_in(rs, spec_rotors_out(rs, c)) == c) by {
            assert(spec_rotors_out(rs, c) == spec_rotor_char_out(rs.first(), z));
            lemma_rotors_in_front(rs, spec_rotor_char_out(rs.first(), z));
            assert(spec_rotor_char_in(rs.first(), spec_rotor_char_out(rs.first(), z)) == z);
        }
        assert(0 <= spec_rotors_in(rs, c) < 26) by {
            assert(spec_rotors_in(rs, c) == spec_rotors_in(rs.drop_first(), c_in0));
        }
    }
}

/// The letter substitution of a well-formed machine at fixed rotor
/// positions is an involution without fixed points: enciphering a letter
/// twice gives it back, and enciphering never returns the letter itself.
pub proof fn lemma_cipher_letter_involution(m: SpecMachine, c: int)
    requires
        machine_wf(m),
        0 <= c < 26,
    ensures
        0 <= spec_cipher_letter(m, c) < 26,
        spec_cipher_letter(m, spec_cipher_letter(m, c)) == c,
        spec_cipher_letter(m, c) != c,
{
    let p1 = m.plug[c];
    lemma_rotors_inverse(m.rotors, c);
    assert(0 <= p1 < 26);
    lemma_rotors_inverse(m.rotors, p1);
    let o1 = spec_rotors_out(m.rotors, p1);
    let rf = m.refl[o1];
    assert(0 <= rf < 26 && m.refl[rf] == o1 && rf != o1);
    lemma_rotors_inverse(m.rotors, rf);
    let i1 = spec_rotors_in(m.rotors, rf);
    let e = m.plug[i1];
    assert(e == spec_cipher_letter(m, c));
    assert(0 <= e < 26);
    // involution: run the chain again from e and watch it unwind
    assert(m.plug[e] == i1);
    assert(spec_rotors_out(m.rotors, i1) == rf);
    assert(m.refl[rf] == o1);
    lemma_rotors_inverse(m.rotors, o1);
    assert(spec_rotors_in(m.rotors, o1) == p1) by {
        assert(spec_rotors_out(m.rotors, p1) == o1);
        lemma_rotors_inverse(m.rotors, p1);
    }
    assert(m.plug[p1] == c);
    assert(spec_cipher_letter(m, e) == c);
    // no fixed point: a fixed letter would force a fixed point on the
    // reflector
    if e == c {
        assert(i1 == p1) by {
            assert(m.plug[e] == i1 && m.plug[c] == p1);
        }
        assert(rf == o1) by {
            assert(spec_rotors_out(m.rotors, i1) == rf);
            assert(spec_rotors_out(m.rotors, p1) == o1);
        }
        assert(false);
    }
}

/// A configuration whose rotor start positions are letters.
pub open spec fn state_starts_in_range(s: StateView) -> bool {
    forall|i: int| 0 <= i < s.rotor_starts.len() ==> 0 <= #[trigger] s.rotor_starts[i] < 26
}

/// The three reflector wirings swap without fixed points.
pub proof fn lemma_reflector_table_wf(id: ReflectorId)
    ensures
        mapping_derangement_involution(reflector_table(id)),
{
    match id {
        ReflectorId::A => {
            assert(mapping_derangement_involution(reflector_table(ReflectorId::A)));
        },
        ReflectorId::B => {
            assert(mapping_derangement_involution(reflector_table(ReflectorId::B)));
        },
        ReflectorId::C => {
            assert(mapping_derangement_involution(reflector_table(ReflectorId::C)));
        },
    }
}

/// A machine freshly built from an accepted configuration is well-formed.
#[verifier::rlimit(100)]
pub proof fn lemma_machine_of_state_wf(s: StateView)
    requires
        crate::machine::enigma_machine::state_buildable(s),
        state_starts_in_range(s),
    ensures
        machine_wf(spec_machine_of_state(s)),
{
    let m = spec_machine_of_state(s);
    crate::machine::plug_board::lemma_plug_table_involution(s.plug_map);
    lemma_reflector_table_wf(s.reflector_id);
    assert forall|i: int| 0 <= i < m.rotors.len() implies rotor_wf(#[trigger] m.rotors[i]) by {
        crate::machine::data::lemma_rotor_tables(s.rotor_ids[i]);
        let r = m.rotors[i];
        assert(r.fwd == crate::machine::data::rotor_fwd_table(s.rotor_ids[i]));
        assert(r.rev == crate::machine::data::rotor_rev_table(s.rotor_ids[i]));
        assert(0 <= r.pos < 26);
    }
}

/// Self-inverse (reciprocity): enciphering a message and then enciphering
/// the result again, each time on a machine started from the same rotor
/// positions, yields the original message; the two runs also leave the
/// machines in the same state.
pub proof fn lemma_consume_self_inverse(m: SpecMachine, msg: Seq<MessageChar>)
    requires
        machine_wf(m),
    ensures
        spec_consume(m, spec_consume(m, msg).1).1 == msg,
        spec_consume(m, spec_consume(m, msg).1).0 == spec_consume(m, msg).0,
    decreases msg.len(),
{
    if msg.len() == 0 {
        assert(spec_consume(m, msg).1 =~= Seq::<MessageChar>::empty());
        assert(spec_consume(m, spec_consume(m, msg).1).1 =~= msg);
    } else {
        let c = msg.first();
        let (m1, c1) = spec_encipher_char(m, c);
        let (m2, rest1) = spec_consume(m1, msg.drop_first());
        assert(spec_consume(m, msg) == (m2, seq![c1] + rest1));
        lemma_step_wf(m);
        assert(machine_wf(m1)) by {
            match c {
                MessageChar::Letter(_, _) => {
                    assert(m1 == spec_step(m));
                },
                MessageChar::Passthrough(_) => {
                    assert(m1 == m);
                },
            }
        }
        lemma_consume_self_inverse(m1, msg.drop_first());
        let back = seq![c1] + rest1;
        assert(back.first() == c1);
        assert(back.drop_first() =~= rest1);
        let (mb1, cb) = spec_encipher_char(m, c1);
        assert(mb1 == m1 && cb == c) by {
            match c {
                MessageChar::Letter(l, capital) => {
                    lemma_letter_of_view(l);
                    let e = spec_cipher_letter(spec_step(m), l@);
                    lemma_cipher_letter_involution(spec_step(m), l@);
                    lemma_letter_of_val(e);
                    assert(c1 == MessageChar::Letter(letter_of(e), capital));
                    assert(letter_of(e)@ == e);
                    assert(spec_cipher_letter(spec_step(m), e) == l@);
                    assert(cb == MessageChar::Letter(letter_of(l@), capital));
                    assert(letter_of(l@) == l);
                },
                MessageChar::Passthrough(_) => {
                },
            }
        }
        assert(spec_consume(m, back).0 == spec_consume(m1, rest1).0);
        assert(spec_consume(m, back).1 =~= seq![cb] + spec_consume(m1, rest1).1);
        assert(spec_consume(m1, rest1).1 == msg.drop_first());
        assert(spec_consume(m, back).1 =~= msg);
        assert(spec_consume(m1, rest1).0 == m2);
    }
}

/// Self-inverse at the configuration level: a machine built from a
/// configuration enciphering a message, followed by a fresh machine built
/// from the same configuration enciphering the result, yields the message
/// back.
pub proof fn lemma_state_self_inverse(s: StateView, msg: Seq<MessageChar>)
    requires
        crate::machine::enigma_machine::state_buildable(s),
        state_starts_in_range(s),
    ensures
        spec_consume(
            spec_machine_of_state(s),
            spec_consume(spec_machine_of_state(s), msg).1,
        ).1 == msg,
{
    lemma_machine_of_state_wf(s);
    lemma_consume_self_inverse(spec_machine_of_state(s), msg);
}

/// No fixed letter, and case and pass-through preservation: the
/// ciphertext has the input's length; each letter stays a letter of the
/// same case but never the same letter; everything else passes through
/// unchanged.
pub proof fn lemma_consume_shape(m: SpecMachine, msg: Seq<MessageChar>)
    requires
        machine_wf(m),
    ensures
        spec_consume(m, msg).1.len() == msg.len(),
        forall|i: int|
            0 <= i < msg.len() ==> match #[trigger] msg[i] {
                MessageChar::Letter(l, capital) => spec_consume(m, msg).1[i] matches
                    MessageChar::Letter(l2, capital2) && l2 != l && capital2 == capital,
                MessageChar::Passthrough(_) => spec_consume(m, msg).1[i] == msg[i],
            },
    decreases msg.len(),
{
    if msg.len() > 0 {
        let c = msg.first();
        let (m1, c1) = spec_encipher_char(m, c);
        lemma_step_wf(m);
        assert(machine_wf(m1)) by {
            match c {
                MessageChar::Letter(_, _) => {
                    assert(m1 == spec_step(m));
                },
                MessageChar::Passthrough(_) => {
                    assert(m1 == m);
                },
            }
        }
        lemma_consume_shape(m1, msg.drop_first());
        let out = spec_consume(m, msg).1;
        assert(out =~= seq![c1] + spec_consume(m1, msg.drop_first()).1);
        assert forall|i: int|
            0 <= i < msg.len() implies match #[trigger] msg[i] {
            MessageChar::Letter(l, capital) => out[i] matches MessageChar::Letter(l2, capital2)
                && l2 != l && capital2 == capital,
            MessageChar::Passthrough(_) => out[i] == msg[i],
        } by {
            if i == 0 {
                match c {
                    MessageChar::Letter(l, capital) => {
                        let e = spec_cipher_letter(spec_step(m), l@);
                        lemma_cipher_letter_involution(spec_step(m), l@);
                        lemma_letter_of_val(e);
                        lemma_letter_of_view(l);
                        assert(out[0] == MessageChar::Letter(letter_of(e), capital));
                        assert(letter_of(e) != l) by {
                            lemma_letter_of_view(l);
                            assert(e != l@);
                            assert(letter_of(e)@ == e);
                        }
                    },
                    MessageChar::Passthrough(_) => {
                        assert(out[0] == c);
                    },
                }
            } else {
                assert(msg[i] == msg.drop_first()[i - 1]);
                assert(out[i] == spec_consume(m1, msg.drop_first()).1[i - 1]);
            }
        }
    }
}

/// The condition under which one backward step exactly undoes one
/// forward step: no double-steppable rotor that receives no carry may
/// stand on a turnover position without the next position also being one.
/// A machine with rotors I, II and III whose middle rotor stands on F
/// while the right rotor is not about to carry breaks the symmetry.
pub open spec fn step_carries_ok(rs: Seq<SpecRotor>) -> bool
    decreases rs.len(),
{
    if rs.len() == 0 {
        true
    } else {
        let carry = spec_rotors_step(rs.drop_first()).1;
        &&& step_carries_ok(rs.drop_first())
        &&& (rs.first().cds && !carry ==> !(rs.first().turnover.contains(rs.first().pos)
            && !rs.first().turnover.contains(add26(rs.first().pos, 1))))
    }
}

/// The mirror condition for undoing one backward step by a forward step.
pub open spec fn unstep_carries_ok(rs: Seq<SpecRotor>) -> bool
    decreases rs.len(),
{
    if rs.len() == 0 {
        true
    } else {
        let carry = spec_rotors_unstep(rs.drop_first()).1;
        &&& unstep_carries_ok(rs.drop_first())
        &&& (rs.first().cds && !carry ==> !(!rs.first().turnover.contains(rs.first().pos)
            && rs.first().turnover.contains(add26(rs.first().pos, 1))))
    }
}

/// Step/unstep symmetry of the rotor bank: one backward step undoes one
/// forward step, and the carries of the two passes agree.
proof fn lemma_rotors_step_then_unstep(rs: Seq<SpecRotor>)
    requires
        rotors_all_wf(rs),
        step_carries_ok(rs),
    ensures
        spec_rotors_unstep(spec_rotors_step(rs).0).0 =~~= rs,
        spec_rotors_unstep(spec_rotors_step(rs).0).1 == spec_rotors_step(rs).1,
    decreases rs.len(),
{
    if rs.len() > 0 {
        lemma_all_wf_drop_first(rs);
        lemma_rotors_step_then_unstep(rs.drop_first());
        let h = rs.first();
        let (tail2, c) = spec_rotors_step(rs.drop_first());
        let (h2, c0) = if c {
            spec_rotor_step(h)
        } else {
            spec_rotor_double_step(h)
        };
        let stepped = spec_rotors_step(rs).0;
        assert(stepped == seq![h2] + tail2);
        assert(stepped.first() == h2);
        assert(stepped.drop_first() =~= tail2);
        assert(rotor_wf(h));
        lemma_add_sub26(h.pos, 1);
        let (utail, uc) = spec_rotors_unstep(tail2);
        assert(utail =~~= rs.drop_first());
        assert(uc == c);
        let back = spec_rotors_unstep(stepped).0;
        if c {
            assert(h2.pos == add26(h.pos, 1));
            assert(sub26(h2.pos, 1) == h.pos);
            assert(back =~~= seq![h] + rs.drop_first());
        } else {
            if h.cds && h.turnover.contains(add26(h.pos, 1)) {
                assert(h2.pos == add26(h.pos, 1));
                assert(back =~~= seq![h] + rs.drop_first());
            } else {
                assert(h2 == h);
                if h.cds && h.turnover.contains(h.pos) {
                    assert(h.turnover.contains(add26(h.pos, 1)));
                    assert(false);
                }
                assert(back =~~= seq![h] + rs.drop_first());
            }
        }
        assert(seq![h] + rs.drop_first() =~~= rs);
    }
}

/// Unstep/step symmetry of the rotor bank, the mirror direction.
proof fn lemma_rotors_unstep_then_step(rs: Seq<SpecRotor>)
    requires
        rotors_all_wf(rs),
        unstep_carries_ok(rs),
    ensures
        spec_rotors_step(spec_rotors_unstep(rs).0).0 =~~= rs,
        spec_rotors_step(spec_rotors_unstep(rs).0).1 == spec_rotors_unstep(rs).1,
    decreases rs.len(),
{
    if rs.len() > 0 {
        lemma_all_wf_drop_first(rs);
        lemma_rotors_unstep_then_step(rs.drop_first());
        let h = rs.first();
        let (tail2, c) = spec_rotors_unstep(rs.drop_first());
        let (h2, c0) = if c {
            spec_rotor_unstep(h)
        } else {
            spec_rotor_double_unstep(h)
        };
        let stepped = spec_rotors_unstep(rs).0;
        assert(stepped == seq![h2] + tail2);
        assert(stepped.first() == h2);
        assert(stepped.drop_first() =~= tail2);
        assert(rotor_wf(h));
        lemma_add_sub26(h.pos, 1);
        let (utail, uc) = spec_rotors_step(tail2);
        assert(utail =~~= rs.drop_first());
        assert(uc == c);
        let back = spec_rotors_step(stepped).0;
        if c {
            assert(h2.pos == sub26(h.pos, 1));
            assert(add26(h2.pos, 1) == h.pos) by {
                lemma_add_sub26(h.pos, 1);
            }
            assert(back =~~= seq![h] + rs.drop_first());
        } else {
            if h.cds && h.turnover.contains(h.pos) {
                assert(h2.pos == sub26(h.pos, 1));
                assert(add26(h2.pos, 1) == h.pos);
                assert(back =~~= seq![h] + rs.drop_first());
            } else {
                assert(h2 == h);
                if h.cds && h.turnover.contains(add26(h.pos, 1)) {
                    assert(h.turnover.contains(h.pos));
                    assert(false);
                }
                assert(back =~~= seq![h] + rs.drop_first());
            }
        }
        assert(seq![h] + rs.drop_first() =~~= rs);
    }
}

/// One backward step of the machine undoes one forward step, wherever the
/// carry condition holds.
pub proof fn lemma_step_unstep(m: SpecMachine)
    requires
        machine_wf(m),
        step_carries_ok(m.rotors),
    ensures
        spec_unstep(spec_step(m)) == m,
{
    lemma_rotors_step_then_unstep(m.rotors);
    assert(spec_unstep(spec_step(m)) =~~= m);
}

/// One forward step of the machine undoes one backward step, wherever the
/// mirror carry condition holds.
pub proof fn lemma_unstep_step(m: SpecMachine)
    requires
        machine_wf(m),
        unstep_carries_ok(m.rotors),
    ensures
        spec_step(spec_unstep(m)) == m,
{
    lemma_rotors_unstep_then_step(m.rotors);
    assert(spec_step(spec_unstep(m)) =~~= m);
}

/// No rotor of the bank can double-step.  Banks of fewer than three
/// rotors are always of this kind.
pub open spec fn no_double_rotors(rs: Seq<SpecRotor>) -> bool {
    forall|i: int| 0 <= i < rs.len() ==> !(#[trigger] rs[i]).cds
}

/// Without double-steppable rotors, both carry conditions hold of every
/// position.
proof fn lemma_no_double_carries_ok(rs: Seq<SpecRotor>)
    requires
        no_double_rotors(rs),
    ensures
        step_carries_ok(rs),
        unstep_carries_ok(rs),
    decreases rs.len(),
{
    if rs.len() > 0 {
        assert forall|i: int| 0 <= i < rs.drop_first().len() implies !(
        #[trigger] rs.drop_first()[i]).cds by {
            assert(rs.drop_first()[i] == rs[i + 1]);
        }
        lemma_no_double_carries_ok(rs.drop_first());
        assert(!rs.first().cds);
    }
}

/// Unstepping `n + 1` times is unstepping `n` times and once more.
proof fn lemma_unstep_n_snoc(m: SpecMachine, n: nat)
    ensures
        spec_unstep_n(m, n + 1) == spec_unstep(spec_unstep_n(m, n)),
    decreases n,
{
    assert(spec_unstep_n(m, n + 1) == spec_unstep_n(spec_unstep(m), n));
    if n > 0 {
        lemma_unstep_n_snoc(spec_unstep(m), (n - 1) as nat);
        assert(spec_unstep_n(m, n) == spec_unstep_n(spec_unstep(m), (n - 1) as nat));
    } else {
        assert(spec_unstep_n(spec_unstep(m), 0) == spec_unstep(m));
        assert(spec_unstep_n(m, 0) == m);
    }
}

/// Stepping `n + 1` times is stepping `n` times and once more.
proof fn lemma_step_n_snoc(m: SpecMachine, n: nat)
    ensures
        spec_step_n(m, n + 1) == spec_step(spec_step_n(m, n)),
    decreases n,
{
    assert(spec_step_n(m, n + 1) == spec_step_n(spec_step(m), n));
    if n > 0 {
        lemma_step_n_snoc(spec_step(m), (n - 1) as nat);
        assert(spec_step_n(m, n) == spec_step_n(spec_step(m), (n - 1) as nat));
    } else {
        assert(spec_step_n(spec_step(m), 0) == spec_step(m));
        assert(spec_step_n(m, 0) == m);
    }
}

/// Step/unstep symmetry over whole runs, for machines without
/// double-steppable rotors: `k` steps followed by `k` unsteps restore the
/// rotor positions and the step counter.
pub proof fn lemma_step_n_unstep_n(m: SpecMachine, k: nat)
    requires
        machine_wf(m),
        no_double_rotors(m.rotors),
    ensures
        spec_unstep_n(spec_step_n(m, k), k) == m,
        spec_step_n(spec_unstep_n(m, k), k) == m,
    decreases k,
{
    if k > 0 {
        lemma_step_wf(m);
        assert forall|i: int|
            0 <= i < spec_step(m).rotors.len() implies !(#[trigger] spec_step(m).rotors[i]).cds by {
            crate::machine::enigma_machine::lemma_rotors_step_fields(m.rotors);
        }
        assert forall|i: int|
            0 <= i < spec_unstep(m).rotors.len() implies !(
        #[trigger] spec_unstep(m).rotors[i]).cds by {
            crate::machine::enigma_machine::lemma_rotors_step_fields(m.rotors);
        }
        lemma_step_n_unstep_n(spec_step(m), (k - 1) as nat);
        lemma_step_n_unstep_n(spec_unstep(m), (k - 1) as nat);
        lemma_no_double_carries_ok(m.rotors);
        lemma_step_unstep(m);
        lemma_unstep_step(m);
        assert(spec_step_n(m, k) == spec_step_n(spec_step(m), (k - 1) as nat));
        lemma_unstep_n_snoc(spec_step_n(m, k), (k - 1) as nat);
        assert(spec_unstep_n(spec_step_n(m, k), k) == spec_unstep_n(
            spec_unstep(spec_step_n(m, k)),
            (k - 1) as nat,
        ));
        assert(spec_unstep_n(spec_step_n(m, k), k) == spec_unstep(spec_unstep_n(
            spec_step_n(spec_step(m), (k - 1) as nat),
            (k - 1) as nat,
        ))) by {
            lemma_unstep_n_snoc(spec_step_n(m, k), (k - 1) as nat);
        }
        assert(spec_unstep_n(spec_step_n(spec_step(m), (k - 1) as nat), (k - 1) as nat)
            == spec_step(m));
        assert(spec_unstep(spec_step(m)) == m);
        assert(spec_step_n(spec_unstep_n(m, k), k) == m) by {
            assert(spec_unstep_n(m, k) == spec_unstep_n(spec_unstep(m), (k - 1) as nat));
            lemma_step_n_snoc(spec_unstep_n(m, k), (k - 1) as nat);
            assert(spec_step_n(spec_unstep_n(spec_unstep(m), (k - 1) as nat), (k - 1) as nat)
                == spec_unstep(m));
            assert(spec_step(spec_unstep(m)) == m);
        }
    }
}

/// A run of the machine: `true` is a forward step, `false` a backward
/// one.
pub open spec fn spec_apply_ops(m: SpecMachine, ops: Seq<bool>) -> SpecMachine
    decreases ops.len(),
{
    if ops.len() == 0 {
        m
    } else {
        spec_apply_ops(
            if ops.first() {
                spec_step(m)
            } else {
                spec_unstep(m)
            },
            ops.drop_first(),
        )
    }
}

/// Reset correctness: any sequence of forward and backward steps keeps
/// the machine tracking the configuration it was built from, so `reset`
/// afterwards restores the bit-exact initial state, as its contract
/// states.
pub proof fn lemma_run_preserves_tracks(m: SpecMachine, s: StateView, ops: Seq<bool>)
    requires
        crate::machine::enigma_machine::tracks_initial(m, s),
    ensures
        crate::machine::enigma_machine::tracks_initial(spec_apply_ops(m, ops), s),
    decreases ops.len(),
{
    if ops.len() > 0 {
        crate::machine::enigma_machine::lemma_step_tracks(m, s);
        if ops.first() {
            lemma_run_preserves_tracks(spec_step(m), s, ops.drop_first());
        } else {
            lemma_run_preserves_tracks(spec_unstep(m), s, ops.drop_first());
        }
    }
}

} // verus!
