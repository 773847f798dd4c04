use vstd::prelude::*;

use crate::letter::{letter_of, Letter};
use crate::machine::data::{
    reflector_table, rotor_fwd_table, rotor_rev_table, rotor_turnover, RotorId,
};
use crate::machine::machine_state::{MachineState, StateView};
use crate::machine::plug_board::{
    mapping_involution, spec_plug_table, spec_plug_valid, PlugBoard,
};
use crate::machine::reflector::{mapping_derangement_involution, Reflector};
use crate::machine::rotor::{
    rotor_wf, spec_rotor_char_in, spec_rotor_char_out, spec_rotor_double_step,
    spec_rotor_double_unstep, spec_rotor_step, spec_rotor_unstep, Rotor, SpecRotor,
};
use crate::message::{Message, MessageChar};

verus! {

/// Mathematical model of a machine at run time: the three wirings, the
/// rotors in their current positions, and the signed step counter.
#[verifier::ext_equal]
pub ghost struct SpecMachine {
    /// The plug-board lookup table.
    pub plug: Seq<int>,
    /// The rotors, leftmost first.
    pub rotors: Seq<SpecRotor>,
    /// The reflector lookup table.
    pub refl: Seq<int>,
    /// Net number of forward steps taken since construction.
    pub steps: int,
}

/// A well-formed machine: the plug board swaps, the reflector swaps
/// without fixed points, and every rotor carries mutually inverse tables.
pub open spec fn machine_wf(m: SpecMachine) -> bool {
    &&& mapping_involution(m.plug)
    &&& mapping_derangement_involution(m.refl)
    &&& rotors_all_wf(m.rotors)
}

/// Every rotor of a bank is well-formed.
pub open spec fn rotors_all_wf(rs: Seq<SpecRotor>) -> bool {
    forall|i: int| 0 <= i < rs.len() ==> rotor_wf(#[trigger] rs[i])
}

/// One step of the rotor bank.  Rotors are visited from the rightmost
/// (fastest) to the leftmost; the first rotor always steps, and each
/// further rotor steps regularly on a carry and otherwise may double-step.
/// Returns the new bank and the carry produced by the leftmost rotor.
pub open spec fn spec_rotors_step(rs: Seq<SpecRotor>) -> (Seq<SpecRotor>, bool)
    decreases rs.len(),
{
    if rs.len() == 0 {
        (rs, true)
    } else {
        let (tail, carry) = spec_rotors_step(rs.drop_first());
        let (head, c0) = if carry {
            spec_rotor_step(rs.first())
        } else {
            spec_rotor_double_step(rs.first())
        };
        (seq![head] + tail, c0)
    }
}

/// The mirror of `spec_rotors_step`, undoing steps right to left.
pub open spec fn spec_rotors_unstep(rs: Seq<SpecRotor>) -> (Seq<SpecRotor>, bool)
    decreases rs.len(),
{
    if rs.len() == 0 {
        (rs, true)
    } else {
        let (tail, carry) = spec_rotors_unstep(rs.drop_first());
        let (head, c0) = if carry {
            spec_rotor_unstep(rs.first())
        } else {
            spec_rotor_double_unstep(rs.first())
        };
        (seq![head] + tail, c0)
    }
}

/// One forward step of the whole machine.
pub open spec fn spec_step(m: SpecMachine) -> SpecMachine {
    SpecMachine { rotors: spec_rotors_step(m.rotors).0, steps: m.steps + 1, ..m }
}

/// One backward step of the whole machine.
pub open spec fn spec_unstep(m: SpecMachine) -> SpecMachine {
    SpecMachine { rotors: spec_rotors_unstep(m.rotors).0, steps: m.steps - 1, ..m }
}

/// A letter's path towards the reflector: through each rotor's inverse
/// table, rightmost rotor first.
pub open spec fn spec_rotors_out(rs: Seq<SpecRotor>, c: int) -> int
    decreases rs.len(),
{
    if rs.len() == 0 {
        c
    } else {
        spec_rotor_char_out(rs.first(), spec_rotors_out(rs.drop_first(), c))
    }
}

/// A letter's path back from the reflector: through each rotor's forward
/// table, leftmost rotor first.
pub open spec fn spec_rotors_in(rs: Seq<SpecRotor>, c: int) -> int
    decreases rs.len(),
{
    if rs.len() == 0 {
        c
    } else {
        spec_rotor_char_in(rs.last(), spec_rotors_in(rs.drop_last(), c))
    }
}

/// The full substitution the machine applies to one letter at its current
/// rotor positions: plug board, rotors, reflector, rotors, plug board.
pub open spec fn spec_cipher_letter(m: SpecMachine, c: int) -> int {
    m.plug[spec_rotors_in(m.rotors, m.refl[spec_rotors_out(m.rotors, m.plug[c])])]
}

/// Encipher one message character: a letter first steps the machine and
/// is then substituted, keeping its case; anything else passes through
/// without stepping.
pub open spec fn spec_encipher_char(m: SpecMachine, mc: MessageChar) -> (SpecMachine, MessageChar) {
    match mc {
        MessageChar::Letter(l, capital) => {
            let m2 = spec_step(m);
            (m2, MessageChar::Letter(letter_of(spec_cipher_letter(m2, l@)), capital))
        },
        MessageChar::Passthrough(c) => (m, mc),
    }
}

/// Encipher a whole message, character by character, in input order.
pub open spec fn spec_consume(m: SpecMachine, msg: Seq<MessageChar>) -> (SpecMachine, Seq<
    MessageChar,
>)
    decreases msg.len(),
{
    if msg.len() == 0 {
        (m, Seq::empty())
    } else {
        let (m1, c) = spec_encipher_char(m, msg.first());
        let (m2, rest) = spec_consume(m1, msg.drop_first());
        (m2, seq![c] + rest)
    }
}

/// The model of a rotor freshly mounted from its ID.
pub open spec fn spec_rotor_of(id: RotorId, pos: int, cds: bool) -> SpecRotor {
    SpecRotor {
        fwd: rotor_fwd_table(id),
        rev: rotor_rev_table(id),
        pos,
        turnover: seq![rotor_turnover(id)],
        cds,
    }
}

/// The model of a machine freshly built from a configuration.  Only
/// middle rotors of a bank of three or more can double-step.
pub open spec fn spec_machine_of_state(s: StateView) -> SpecMachine {
    let n = s.rotor_ids.len() as int;
    SpecMachine {
        plug: spec_plug_table(s.plug_map),
        rotors: Seq::new(
            s.rotor_ids.len(),
            |i: int|
                spec_rotor_of(s.rotor_ids[i], s.rotor_starts[i], n >= 3 && 0 < i && i < n - 1),
        ),
        refl: reflector_table(s.reflector_id),
        steps: 0,
    }
}

/// A configuration a machine can be built from: the plug pairs are
/// accepted and the rotor lists are parallel.
pub open spec fn state_buildable(s: StateView) -> bool {
    &&& spec_plug_valid(s.plug_map)
    &&& s.rotor_ids.len() == s.rotor_starts.len()
}

/// A rotor carries exactly the wiring its ID prescribes.
pub open spec fn rotor_mounted(r: SpecRotor, id: RotorId) -> bool {
    &&& r.fwd == rotor_fwd_table(id)
    &&& r.rev == rotor_rev_table(id)
    &&& r.turnover == seq![rotor_turnover(id)]
}

/// The machine still carries the wirings of the configuration it was
/// built from: only rotor positions and the step counter may have moved.
/// Construction establishes this and every operation keeps it.
pub open spec fn tracks_initial(m: SpecMachine, s: StateView) -> bool {
    &&& spec_plug_valid(s.plug_map)
    &&& s.rotor_ids.len() == s.rotor_starts.len()
    &&& m.plug == spec_plug_table(s.plug_map)
    &&& m.refl == reflector_table(s.reflector_id)
    &&& m.rotors.len() == s.rotor_ids.len()
    &&& forall|i: int|
        0 <= i < m.rotors.len() ==> rotor_mounted(#[trigger] m.rotors[i], s.rotor_ids[i])
            && m.rotors[i].cds == (s.rotor_ids.len() >= 3 && 0 < i && i < s.rotor_ids.len() - 1)
}

/// A machine freshly built from a configuration tracks it.
pub proof fn lemma_machine_of_state_tracks(s: StateView)
    requires
        state_buildable(s),
    ensures
        tracks_initial(spec_machine_of_state(s), s),
{
}

/// The view of a bank of rotors.
pub open spec fn rotor_views(rs: Seq<Rotor>) -> Seq<SpecRotor> {
    rs.map_values(|r: Rotor| r@)
}

/// Overall representation of the enigma machine.
#[derive(Debug)]
pub struct EnigmaMachine {
    /// The initial state of the machine.
    initial_state: MachineState,
    /// Plug board of the machine.
    plug_board: PlugBoard,
    /// Vector of rotors in the machine, leftmost first.
    rotors: Vec<Rotor>,
    /// Reflector, placed at the end of the rotors.
    reflector: Reflector,
    /// Number of steps that the machine has performed (positive for
    /// forwards, negative for backwards).
    steps: i32,
}

impl View for EnigmaMachine {
    type V = SpecMachine;

    closed spec fn view(&self) -> SpecMachine {
        SpecMachine {
            plug: self.plug_board@,
            rotors: rotor_views(self.rotors@),
            refl: self.reflector@,
            steps: self.steps as int,
        }
    }
}

impl EnigmaMachine {
    /// The configuration this machine was built from.
    pub closed spec fn initial(&self) -> StateView {
        self.initial_state@
    }

    /// The stored configuration's rotor start positions are letters.
    pub proof fn lemma_initial_starts_in_range(&self)
        ensures
            forall|i: int|
                0 <= i < self.initial().rotor_starts.len() ==> 0 <= #[trigger] self.initial().rotor_starts[i] < 26,
    {
        assert forall|i: int|
            0 <= i < self.initial().rotor_starts.len() implies 0 <= #[trigger] self.initial().rotor_starts[i] < 26 by {
            crate::letter::lemma_letter_view_range(self.initial_state.rotor_starts@[i]);
        }
    }

    /// Build a machine from a configuration.
    #[verifier::rlimit(100)]
    #[verifier::spinoff_prover]
    pub fn from(state: MachineState) -> (r: EnigmaMachine)
        requires
            state_buildable(state@),
        ensures
            r@ == spec_machine_of_state(state@),
            r.initial() == state@,
            machine_wf(r@),
    {
        let plug_board = match PlugBoard::new(state.plug_map.as_slice()) {
            Some(pb) => pb,
            None => {
                proof {
                    assert(false);
                }
                vstd::pervasive::unreached()
            },
        };
        let n = state.rotor_ids.len();
        let mut rotors: Vec<Rotor> = Vec::new();
        let mut i: usize = 0;
        while i < n
            invariant
                i <= n,
                n == state.rotor_ids@.len() == state.rotor_starts@.len(),
                rotor_views(rotors@) =~~= spec_machine_of_state(state@).rotors.take(i as int),
            decreases n - i,
        {
            let can_double_step = n >= 3 && 0 < i && i < n - 1;
            let rotor = state.rotor_ids[i].make_rotor(state.rotor_starts[i], can_double_step);
            let ghost prevseq = rotors@;
            let ghost pre = rotor_views(rotors@);
            rotors.push(rotor);
            proof {
                let target = spec_machine_of_state(state@).rotors;
                assert(pre.len() == i as int);
                assert(rotors@ == prevseq.push(rotor));
                assert(rotor_views(rotors@).len() == i + 1);
                assert(rotor@ =~~= target[i as int]);
                assert forall|k: int| 0 <= k < i + 1 implies rotor_views(rotors@)[k] == target.take(
                    i as int + 1,
                )[k] by {
                    assert(rotor_views(rotors@)[k] == rotors@[k]@);
                    if k < i as int {
                        assert(rotors@[k] == prevseq[k]);
                        assert(pre[k] == prevseq[k]@);
                        assert(pre[k] == pre.take(i as int)[k]);
                        assert(target.take(i as int)[k] == target.take(i as int + 1)[k]);
                    } else {
                        assert(rotors@[k] == rotor);
                    }
                }
                assert(rotor_views(rotors@) =~~= target.take(i as int + 1));
            }
            i = i + 1;
        }
        let reflector = state.reflector_id.make_reflector();
        let r = EnigmaMachine { initial_state: state, plug_board, rotors, reflector, steps: 0 };
        proof {
            assert(spec_machine_of_state(r.initial_state@).rotors.take(n as int)
                =~= spec_machine_of_state(r.initial_state@).rotors);
            assert(r@ =~~= spec_machine_of_state(r.initial_state@));
            crate::machine::plug_board::lemma_plug_table_involution(r.initial_state@.plug_map);
            assert(machine_wf(r@));
        }
        r
    }

    /// Get the starting state of the machine.
    pub fn get_starting_state(&self) -> (r: MachineState)
        ensures
            r@ == self.initial(),
    {
        self.initial_state.clone()
    }

    /// Move the machine forward by a step.
    pub fn step(&mut self)
        requires
            old(self)@.steps < i32::MAX,
        ensures
            final(self)@ == spec_step(old(self)@),
            final(self).initial() == old(self).initial(),
    {
        let ghost orig = rotor_views(self.rotors@);
        let n = self.rotors.len();
        let mut do_single_step = true;
        let mut i = n;
        while i > 0
            invariant
                i <= n,
                n == self.rotors@.len(),
                orig.len() == n,
                rotor_views(self.rotors@).take(i as int) =~~= orig.take(i as int),
                rotor_views(self.rotors@).skip(i as int) =~~= spec_rotors_step(
                    orig.skip(i as int),
                ).0,
                do_single_step == spec_rotors_step(orig.skip(i as int)).1,
                self.plug_board == old(self).plug_board,
                self.reflector == old(self).reflector,
                self.steps == old(self).steps,
                self.initial_state == old(self).initial_state,
            decreases i,
        {
            i = i - 1;
            let ghost pre = rotor_views(self.rotors@);
            proof {
                assert(pre.take(i as int + 1)[i as int] == orig.take(i as int + 1)[i as int]);
                assert(pre[i as int] == orig[i as int]);
            }
            let mut r = self.rotors[i].clone();
            let carried = if do_single_step {
                r.step()
            } else {
                r.double_step()
            };
            self.rotors[i] = r;
            do_single_step = carried;
            proof {
                let tl = orig.skip(i as int);
                assert(tl.first() == orig[i as int]);
                assert(tl.drop_first() =~= orig.skip(i as int + 1));
                assert(rotor_views(self.rotors@) =~~= pre.update(i as int, r@));
                assert(rotor_views(self.rotors@).skip(i as int) =~~= seq![r@] + pre.skip(
                    i as int + 1,
                ));
                assert(seq![r@] + pre.skip(i as int + 1) =~~= spec_rotors_step(tl).0);
                assert(rotor_views(self.rotors@).take(i as int) =~~= orig.take(i as int));
            }
        }
        self.steps = self.steps + 1;
        proof {
            assert(orig.skip(0) =~= orig);
            assert(rotor_views(self.rotors@).skip(0) =~= rotor_views(self.rotors@));
            assert(self@ =~~= spec_step(old(self)@));
        }
    }

    /// Move the machine backwards by a step.
    pub fn unstep(&mut self)
        requires
            old(self)@.steps > i32::MIN,
        ensures
            final(self)@ == spec_unstep(old(self)@),
            final(self).initial() == old(self).initial(),
    {
        let ghost orig = rotor_views(self.rotors@);
        let n = self.rotors.len();
        let mut do_single_step = true;
        let mut i = n;
        while i > 0
            invariant
                i <= n,
                n == self.rotors@.len(),
                orig.len() == n,
                rotor_views(self.rotors@).take(i as int) =~~= orig.take(i as int),
                rotor_views(self.rotors@).skip(i as int) =~~= spec_rotors_unstep(
                    orig.skip(i as int),
                ).0,
                do_single_step == spec_rotors_unstep(orig.skip(i as int)).1,
                self.plug_board == old(self).plug_board,
                self.reflector == old(self).reflector,
                self.steps == old(self).steps,
                self.initial_state == old(self).initial_state,
            decreases i,
        {
            i = i - 1;
            let ghost pre = rotor_views(self.rotors@);
            proof {
                assert(pre.take(i as int + 1)[i as int] == orig.take(i as int + 1)[i as int]);
                assert(pre[i as int] == orig[i as int]);
            }
            let mut r = self.rotors[i].clone();
            let carried = if do_single_step {
                r.unstep()
            } else {
                r.double_unstep()
            };
            self.rotors[i] = r;
            do_single_step = carried;
            proof {
                let tl = orig.skip(i as int);
                assert(tl.first() == orig[i as int]);
                assert(tl.drop_first() =~= orig.skip(i as int + 1));
                assert(rotor_views(self.rotors@) =~~= pre.update(i as int, r@));
                assert(rotor_views(self.rotors@).skip(i as int) =~~= seq![r@] + pre.skip(
                    i as int + 1,
                ));
                assert(seq![r@] + pre.skip(i as int + 1) =~~= spec_rotors_unstep(tl).0);
                assert(rotor_views(self.rotors@).take(i as int) =~~= orig.take(i as int));
            }
        }
        self.steps = self.steps - 1;
        proof {
            assert(orig.skip(0) =~= orig);
            assert(rotor_views(self.rotors@).skip(0) =~= rotor_views(self.rotors@));
            assert(self@ =~~= spec_unstep(old(self)@));
        }
    }

    /// Encipher one message character through the full signal path.
    fn encipher_char(&mut self, c: &MessageChar) -> (r: MessageChar)
        requires
            machine_wf(old(self)@),
            old(self)@.steps < i32::MAX,
        ensures
            machine_wf(final(self)@),
            final(self)@ == spec_encipher_char(old(self)@, *c).0,
            r == spec_encipher_char(old(self)@, *c).1,
            final(self).initial() == old(self).initial(),
            old(self)@.steps <= final(self)@.steps <= old(self)@.steps + 1,
    {
        match *c {
            MessageChar::Letter(l0, capital) => {
                self.step();
                proof {
                    lemma_step_wf(old(self)@);
                }
                let ghost m2 = self@;
                let mut letter = self.plug_board.map_char(l0);
                let ghost c1 = letter@;
                let n = self.rotors.len();
                let mut i = n;
                while i > 0
                    invariant
                        i <= n,
                        n == self.rotors@.len(),
                        machine_wf(self@),
                        self@ == m2,
                        letter@ == spec_rotors_out(rotor_views(self.rotors@).skip(i as int), c1),
                    decreases i,
                {
                    i = i - 1;
                    proof {
                        let views = rotor_views(self.rotors@);
                        assert(rotor_wf(views[i as int]));
                        assert(views.skip(i as int).first() == views[i as int]);
                        assert(views.skip(i as int).drop_first() =~~= views.skip(i as int + 1));
                    }
                    letter = self.rotors[i].char_out(letter);
                }
                proof {
                    assert(rotor_views(self.rotors@).skip(0) =~~= rotor_views(self.rotors@));
                }
                letter = self.reflector.reflect(letter);
                let ghost c3 = letter@;
                let mut i: usize = 0;
                while i < n
                    invariant
                        i <= n,
                        n == self.rotors@.len(),
                        machine_wf(self@),
                        self@ == m2,
                        letter@ == spec_rotors_in(rotor_views(self.rotors@).take(i as int), c3),
                    decreases n - i,
                {
                    proof {
                        let views = rotor_views(self.rotors@);
                        assert(rotor_wf(views[i as int]));
                        assert(views.take(i as int + 1).last() == views[i as int]);
                        assert(views.take(i as int + 1).drop_last() =~~= views.take(i as int));
                    }
                    letter = self.rotors[i].char_in(letter);
                    i = i + 1;
                }
                proof {
                    assert(rotor_views(self.rotors@).take(n as int) =~~= rotor_views(
                        self.rotors@,
                    ));
                }
                letter = self.plug_board.map_char(letter);
                proof {
                    assert(letter@ == spec_cipher_letter(m2, l0@));
                    crate::letter::lemma_letter_of_view(letter);
                }
                MessageChar::Letter(letter, capital)
            },
            MessageChar::Passthrough(_) => *c,
        }
    }

    /// Encipher a message, returning the result.
    pub fn consume(&mut self, input: &Message) -> (r: Message)
        requires
            machine_wf(old(self)@),
            old(self)@.steps + input@.len() <= i32::MAX,
        ensures
            machine_wf(final(self)@),
            final(self)@ == spec_consume(old(self)@, input@).0,
            r@ == spec_consume(old(self)@, input@).1,
            final(self).initial() == old(self).initial(),
    {
        let mut out: Vec<MessageChar> = Vec::new();
        let n = input.len();
        proof {
            assert(input@.skip(0) =~= input@);
        }
        let mut i: usize = 0;
        while i < n
            invariant
                i <= n,
                n == input@.len(),
                old(self)@.steps + input@.len() <= i32::MAX,
                machine_wf(self@),
                self@.steps <= old(self)@.steps + i,
                old(self)@.steps <= self@.steps,
                self.initial() == old(self).initial(),
                spec_consume(old(self)@, input@).0 == spec_consume(self@, input@.skip(i as int)).0,
                spec_consume(old(self)@, input@).1 =~= out@ + spec_consume(
                    self@,
                    input@.skip(i as int),
                ).1,
            decreases n - i,
        {
            let c = input.char_at(i);
            let ghost pre = self@;
            let e = self.encipher_char(&c);
            out.push(e);
            proof {
                let tl = input@.skip(i as int);
                assert(tl.first() == input@[i as int]);
                assert(tl.drop_first() =~= input@.skip(i as int + 1));
                assert(spec_consume(pre, tl).0 == spec_consume(self@, tl.drop_first()).0);
                assert(spec_consume(pre, tl).1 =~= seq![e] + spec_consume(
                    self@,
                    tl.drop_first(),
                ).1);
                assert(spec_consume(old(self)@, input@).1 =~= out@ + spec_consume(
                    self@,
                    input@.skip(i as int + 1),
                ).1);
            }
            i = i + 1;
        }
        proof {
            assert(input@.skip(n as int) =~= Seq::<MessageChar>::empty());
            assert(spec_consume(old(self)@, input@).1 =~= out@);
        }
        Message::from_chars(out)
    }

    /// Attempt to consume the given input, failing if the input does not
    /// encipher to the expected output.
    ///
    /// Note that regardless of the outcome, the machine is not reset to
    /// its starting state.
    pub fn try_consume(&mut self, input: &Message, expected_output: &Message) -> (r: bool)
        requires
            machine_wf(old(self)@),
            old(self)@.steps + input@.len() <= i32::MAX,
        ensures
            machine_wf(final(self)@),
            final(self)@ == spec_try_consume(old(self)@, input@, expected_output@).0,
            r == spec_try_consume(old(self)@, input@, expected_output@).1,
            final(self).initial() == old(self).initial(),
            old(self)@.steps <= final(self)@.steps <= old(self)@.steps + input@.len(),
    {
        let n1 = input.len();
        let n2 = expected_output.len();
        let m = if n1 < n2 {
            n1
        } else {
            n2
        };
        let mut i: usize = 0;
        while i < m
            invariant
                i <= m,
                m == vstd::math::min(input@.len() as int, expected_output@.len() as int),
                machine_wf(old(self)@),
                self@ == old(self)@,
                self.initial() == old(self).initial(),
                forall|k: int|
                    0 <= k < i ==> !((#[trigger] input@[k]) matches MessageChar::Letter(_, _)
                        && input@[k] == expected_output@[k]),
            decreases m - i,
        {
            let ci = input.char_at(i);
            let ce = expected_output.char_at(i);
            let is_letter = match ci {
                MessageChar::Letter(_, _) => true,
                MessageChar::Passthrough(_) => false,
            };
            if is_letter && ci == ce {
                proof {
                    assert(spec_prefilter_hit(input@, expected_output@));
                }
                return false;
            }
            i = i + 1;
        }
        proof {
            if spec_prefilter_hit(input@, expected_output@) {
                let k = choose|k: int|
                    0 <= k < input@.len() && k < expected_output@.len() && ((
                    #[trigger] input@[k]) matches MessageChar::Letter(_, _)) && input@[k]
                        == expected_output@[k];
                assert(k < m);
            }
            assert(!spec_prefilter_hit(input@, expected_output@));
            assert(input@.skip(0) =~= input@);
            assert(expected_output@.skip(0) =~= expected_output@);
        }
        let mut i: usize = 0;
        while i < m
            invariant
                i <= m,
                m == vstd::math::min(input@.len() as int, expected_output@.len() as int),
                old(self)@.steps + input@.len() <= i32::MAX,
                !spec_prefilter_hit(input@, expected_output@),
                machine_wf(self@),
                self@.steps <= old(self)@.steps + i,
                old(self)@.steps <= self@.steps,
                self.initial() == old(self).initial(),
                spec_try_consume_loop(old(self)@, input@, expected_output@)
                    == spec_try_consume_loop(
                    self@,
                    input@.skip(i as int),
                    expected_output@.skip(i as int),
                ),
            decreases m - i,
        {
            let ci = input.char_at(i);
            let ghost pre = self@;
            let e = self.encipher_char(&ci);
            let ce = expected_output.char_at(i);
            proof {
                let ti = input@.skip(i as int);
                let te = expected_output@.skip(i as int);
                assert(ti.first() == input@[i as int]);
                assert(te.first() == expected_output@[i as int]);
                assert(ti.drop_first() =~= input@.skip(i as int + 1));
                assert(te.drop_first() =~= expected_output@.skip(i as int + 1));
            }
            if e != ce {
                proof {
                    assert(spec_try_consume_loop(
                        pre,
                        input@.skip(i as int),
                        expected_output@.skip(i as int),
                    ) == (self@, false));
                }
                return false;
            }
            i = i + 1;
        }
        proof {
            assert(input@.skip(m as int).len() == 0 || expected_output@.skip(m as int).len()
                == 0);
        }
        true
    }

    /// Move the machine forwards through a message, as if that message
    /// had been enciphered, but without enciphering it.
    pub fn jump_forwards(&mut self, skipped_input: &[MessageChar])
        requires
            machine_wf(old(self)@),
            old(self)@.steps + skipped_input@.len() <= i32::MAX,
        ensures
            machine_wf(final(self)@),
            final(self)@ == spec_jump_fwd(old(self)@, skipped_input@),
            final(self).initial() == old(self).initial(),
            old(self)@.steps <= final(self)@.steps <= old(self)@.steps + skipped_input@.len(),
    {
        let n = skipped_input.len();
        proof {
            assert(skipped_input@.skip(0) =~= skipped_input@);
        }
        let mut i: usize = 0;
        while i < n
            invariant
                i <= n,
                n == skipped_input@.len(),
                old(self)@.steps + skipped_input@.len() <= i32::MAX,
                machine_wf(self@),
                self@.steps <= old(self)@.steps + i,
                old(self)@.steps <= self@.steps,
                self.initial() == old(self).initial(),
                spec_jump_fwd(old(self)@, skipped_input@) == spec_jump_fwd(
                    self@,
                    skipped_input@.skip(i as int),
                ),
            decreases n - i,
        {
            let c = *vstd::slice::slice_index_get(skipped_input, i);
            proof {
                let tl = skipped_input@.skip(i as int);
                assert(tl.first() == skipped_input@[i as int]);
                assert(tl.drop_first() =~= skipped_input@.skip(i as int + 1));
            }
            let ghost pre = self@;
            match c {
                MessageChar::Letter(_, _) => {
                    self.step();
                    proof {
                        lemma_step_wf(pre);
                    }
                },
                MessageChar::Passthrough(_) => {},
            }
            i = i + 1;
        }
        proof {
            assert(skipped_input@.skip(n as int) =~= Seq::<MessageChar>::empty());
        }
    }

    /// Move the machine backwards through a message.
    pub fn jump_backwards(&mut self, skipped_input: &[MessageChar])
        requires
            machine_wf(old(self)@),
            old(self)@.steps - skipped_input@.len() >= i32::MIN,
        ensures
            machine_wf(final(self)@),
            final(self)@ == spec_jump_back(old(self)@, skipped_input@),
            final(self).initial() == old(self).initial(),
            old(self)@.steps - skipped_input@.len() <= final(self)@.steps <= old(self)@.steps,
    {
        let n = skipped_input.len();
        proof {
            assert(skipped_input@.skip(0) =~= skipped_input@);
        }
        let mut i: usize = 0;
        while i < n
            invariant
                i <= n,
                n == skipped_input@.len(),
                old(self)@.steps - skipped_input@.len() >= i32::MIN,
                machine_wf(self@),
                old(self)@.steps - i <= self@.steps,
                self@.steps <= old(self)@.steps,
                self.initial() == old(self).initial(),
                spec_jump_back(old(self)@, skipped_input@) == spec_jump_back(
                    self@,
                    skipped_input@.skip(i as int),
                ),
            decreases n - i,
        {
            let c = *vstd::slice::slice_index_get(skipped_input, i);
            proof {
                let tl = skipped_input@.skip(i as int);
                assert(tl.first() == skipped_input@[i as int]);
                assert(tl.drop_first() =~= skipped_input@.skip(i as int + 1));
            }
            let ghost pre = self@;
            match c {
                MessageChar::Letter(_, _) => {
                    self.unstep();
                    proof {
                        lemma_step_wf(pre);
                    }
                },
                MessageChar::Passthrough(_) => {},
            }
            i = i + 1;
        }
        proof {
            assert(skipped_input@.skip(n as int) =~= Seq::<MessageChar>::empty());
        }
    }

    /// Reset the machine to its initial state: rotors turned back to
    /// their starting positions, step counter zeroed.
    pub fn reset(&mut self)
        requires
            tracks_initial(old(self)@, old(self).initial()),
        ensures
            final(self)@ == spec_machine_of_state(old(self).initial()),
            final(self)@.steps == 0,
            machine_wf(final(self)@),
            tracks_initial(final(self)@, final(self).initial()),
            final(self).initial() == old(self).initial(),
    {
        let ghost target = spec_machine_of_state(old(self).initial());
        let n = self.rotors.len();
        let mut i: usize = 0;
        while i < n
            invariant
                i <= n,
                n == self.rotors@.len(),
                tracks_initial(old(self)@, old(self).initial()),
                n == old(self).initial().rotor_starts.len(),
                self.initial_state == old(self).initial_state,
                self.plug_board == old(self).plug_board,
                self.reflector == old(self).reflector,
                self.rotors@.len() == old(self)@.rotors.len(),
                target == spec_machine_of_state(old(self).initial()),
                forall|k: int|
                    0 <= k < i ==> rotor_views(self.rotors@)[k] == target.rotors[k],
                forall|k: int|
                    i <= k < n ==> rotor_views(self.rotors@)[k] == old(self)@.rotors[k],
            decreases n - i,
        {
            let l = self.initial_state.rotor_starts[i];
            let ghost pre = rotor_views(self.rotors@);
            let mut r = self.rotors[i].clone();
            r.set_position(l);
            self.rotors[i] = r;
            proof {
                assert(rotor_views(self.rotors@) =~~= pre.update(i as int, r@));
                assert(rotor_mounted(old(self)@.rotors[i as int], old(
                    self,
                ).initial().rotor_ids[i as int]));
                assert(old(self).initial().rotor_starts[i as int] == l@);
                assert(r@ =~~= target.rotors[i as int]);
            }
            i = i + 1;
        }
        self.steps = 0;
        proof {
            assert(self@.rotors =~~= target.rotors);
            assert(self@ =~~= target);
            assert forall|k: int|
                0 <= k < old(self).initial().rotor_starts.len() implies 0 <= #[trigger] old(
                self,
            ).initial().rotor_starts[k] < 26 by {
                crate::letter::lemma_letter_view_range(old(self).initial_state.rotor_starts@[k]);
            }
            crate::machine::laws::lemma_machine_of_state_wf(old(self).initial());
            lemma_machine_of_state_tracks(old(self).initial());
        }
    }
}

/// Whether some aligned pair of the two sequences is the same letter
/// with the same case: the early-reject test of `try_consume`.
pub open spec fn spec_prefilter_hit(inp: Seq<MessageChar>, exp: Seq<MessageChar>) -> bool {
    exists|i: int|
        0 <= i < inp.len() && i < exp.len() && ((#[trigger] inp[i]) matches MessageChar::Letter(
            _,
            _,
        )) && inp[i] == exp[i]
}

/// The enciphering loop of `try_consume`: encipher pairwise until the
/// shorter sequence ends, stopping at the first mismatch.
pub open spec fn spec_try_consume_loop(
    m: SpecMachine,
    inp: Seq<MessageChar>,
    exp: Seq<MessageChar>,
) -> (SpecMachine, bool)
    decreases inp.len(),
{
    if inp.len() == 0 || exp.len() == 0 {
        (m, true)
    } else {
        let (m1, c) = spec_encipher_char(m, inp.first());
        if c != exp.first() {
            (m1, false)
        } else {
            spec_try_consume_loop(m1, inp.drop_first(), exp.drop_first())
        }
    }
}

/// What `try_consume` computes: a prefilter hit rejects without touching
/// the machine; otherwise the machine enciphers until a mismatch or the
/// end of the shorter sequence.
pub open spec fn spec_try_consume(m: SpecMachine, inp: Seq<MessageChar>, exp: Seq<MessageChar>) -> (
    SpecMachine,
    bool,
) {
    if spec_prefilter_hit(inp, exp) {
        (m, false)
    } else {
        spec_try_consume_loop(m, inp, exp)
    }
}

/// Step the machine once for every letter of the skipped input.
pub open spec fn spec_jump_fwd(m: SpecMachine, s: Seq<MessageChar>) -> SpecMachine
    decreases s.len(),
{
    if s.len() == 0 {
        m
    } else {
        let m1 = if s.first() matches MessageChar::Letter(_, _) {
            spec_step(m)
        } else {
            m
        };
        spec_jump_fwd(m1, s.drop_first())
    }
}

/// Unstep the machine once for every letter of the skipped input.
pub open spec fn spec_jump_back(m: SpecMachine, s: Seq<MessageChar>) -> SpecMachine
    decreases s.len(),
{
    if s.len() == 0 {
        m
    } else {
        let m1 = if s.first() matches MessageChar::Letter(_, _) {
            spec_unstep(m)
        } else {
            m
        };
        spec_jump_back(m1, s.drop_first())
    }
}

/// The machine after `n` forward steps.
pub open spec fn spec_step_n(m: SpecMachine, n: nat) -> SpecMachine
    decreases n,
{
    if n == 0 {
        m
    } else {
        spec_step_n(spec_step(m), (n - 1) as nat)
    }
}

/// The machine after `n` backward steps.
pub open spec fn spec_unstep_n(m: SpecMachine, n: nat) -> SpecMachine
    decreases n,
{
    if n == 0 {
        m
    } else {
        spec_unstep_n(spec_unstep(m), (n - 1) as nat)
    }
}

/// Stepping or unstepping a rotor changes its position alone: wiring,
/// turnover set and double-step flag stay.
pub proof fn lemma_rotors_step_fields(rs: Seq<SpecRotor>)
    ensures
        forall|i: int|
            0 <= i < rs.len() ==> (#[trigger] spec_rotors_step(rs).0[i]).fwd == rs[i].fwd
                && spec_rotors_step(rs).0[i].rev == rs[i].rev && spec_rotors_step(rs).0[i].turnover
                == rs[i].turnover && spec_rotors_step(rs).0[i].cds == rs[i].cds,
        forall|i: int|
            0 <= i < rs.len() ==> (#[trigger] spec_rotors_unstep(rs).0[i]).fwd == rs[i].fwd
                && spec_rotors_unstep(rs).0[i].rev == rs[i].rev && spec_rotors_unstep(
                rs,
            ).0[i].turnover == rs[i].turnover && spec_rotors_unstep(rs).0[i].cds == rs[i].cds,
    decreases rs.len(),
{
    lemma_rotors_step_len(rs);
    if rs.len() > 0 {
        lemma_rotors_step_fields(rs.drop_first());
        lemma_rotors_step_len(rs.drop_first());
        let (tail2, c) = spec_rotors_step(rs.drop_first());
        let (utail, uc) = spec_rotors_unstep(rs.drop_first());
        assert forall|i: int|
            0 <= i < rs.len() implies (#[trigger] spec_rotors_step(rs).0[i]).fwd == rs[i].fwd
            && spec_rotors_step(rs).0[i].rev == rs[i].rev && spec_rotors_step(rs).0[i].turnover
            == rs[i].turnover && spec_rotors_step(rs).0[i].cds == rs[i].cds && (
        #[trigger] spec_rotors_unstep(rs).0[i]).fwd == rs[i].fwd && spec_rotors_unstep(
            rs,
        ).0[i].rev == rs[i].rev && spec_rotors_unstep(rs).0[i].turnover == rs[i].turnover
            && spec_rotors_unstep(rs).0[i].cds == rs[i].cds by {
            if i > 0 {
                assert(spec_rotors_step(rs).0[i] == tail2[i - 1]);
                assert(spec_rotors_unstep(rs).0[i] == utail[i - 1]);
                assert(rs.drop_first()[i - 1] == rs[i]);
            }
        }
    }
}

/// One step either way keeps the machine tracking its configuration.
pub proof fn lemma_step_tracks(m: SpecMachine, s: StateView)
    requires
        tracks_initial(m, s),
    ensures
        tracks_initial(spec_step(m), s),
        tracks_initial(spec_unstep(m), s),
{
    lemma_rotors_step_len(m.rotors);
    lemma_rotors_step_fields(m.rotors);
}

/// Enciphering one character keeps the machine tracking its
/// configuration.
pub proof fn lemma_encipher_char_tracks(m: SpecMachine, s: StateView, mc: MessageChar)
    requires
        tracks_initial(m, s),
    ensures
        tracks_initial(spec_encipher_char(m, mc).0, s),
{
    lemma_step_tracks(m, s);
}

/// A crib attempt keeps the machine tracking its configuration.
pub proof fn lemma_try_consume_tracks(
    m: SpecMachine,
    s: StateView,
    inp: Seq<MessageChar>,
    exp: Seq<MessageChar>,
)
    requires
        tracks_initial(m, s),
    ensures
        tracks_initial(spec_try_consume(m, inp, exp).0, s),
{
    if !spec_prefilter_hit(inp, exp) {
        lemma_try_consume_loop_tracks(m, s, inp, exp);
    }
}

proof fn lemma_try_consume_loop_tracks(
    m: SpecMachine,
    s: StateView,
    inp: Seq<MessageChar>,
    exp: Seq<MessageChar>,
)
    requires
        tracks_initial(m, s),
    ensures
        tracks_initial(spec_try_consume_loop(m, inp, exp).0, s),
    decreases inp.len(),
{
    if inp.len() > 0 && exp.len() > 0 {
        let (m1, c) = spec_encipher_char(m, inp.first());
        lemma_encipher_char_tracks(m, s, inp.first());
        if c == exp.first() {
            lemma_try_consume_loop_tracks(m1, s, inp.drop_first(), exp.drop_first());
        }
    }
}

/// A forward jump keeps the machine tracking its configuration.
pub proof fn lemma_jump_fwd_tracks(m: SpecMachine, s: StateView, sk: Seq<MessageChar>)
    requires
        tracks_initial(m, s),
    ensures
        tracks_initial(spec_jump_fwd(m, sk), s),
    decreases sk.len(),
{
    if sk.len() > 0 {
        lemma_step_tracks(m, s);
        if sk.first() matches MessageChar::Letter(_, _) {
            lemma_jump_fwd_tracks(spec_step(m), s, sk.drop_first());
        } else {
            lemma_jump_fwd_tracks(m, s, sk.drop_first());
        }
    }
}

/// Stepping or unstepping a bank of rotors keeps its length.
pub proof fn lemma_rotors_step_len(rs: Seq<SpecRotor>)
    ensures
        spec_rotors_step(rs).0.len() == rs.len(),
        spec_rotors_unstep(rs).0.len() == rs.len(),
    decreases rs.len(),
{
    if rs.len() > 0 {
        lemma_rotors_step_len(rs.drop_first());
    }
}

/// Stepping or unstepping a bank of well-formed rotors keeps every rotor
/// well-formed.
pub proof fn lemma_rotors_step_wf(rs: Seq<SpecRotor>)
    requires
        rotors_all_wf(rs),
    ensures
        rotors_all_wf(spec_rotors_step(rs).0),
        rotors_all_wf(spec_rotors_unstep(rs).0),
    decreases rs.len(),
{
    lemma_rotors_step_len(rs);
    if rs.len() > 0 {
        assert forall|i: int| 0 <= i < rs.drop_first().len() implies rotor_wf(
            #[trigger] rs.drop_first()[i],
        ) by {
            assert(rs.drop_first()[i] == rs[i + 1]);
        }
        lemma_rotors_step_wf(rs.drop_first());
        lemma_rotors_step_len(rs.drop_first());
        let (tail, carry) = spec_rotors_step(rs.drop_first());
        let (utail, ucarry) = spec_rotors_unstep(rs.drop_first());
        let h = rs.first();
        assert(rotor_wf(h));
        assert(0 <= (h.pos + 1) % 26 < 26);
        assert(0 <= (h.pos - 1) % 26 < 26);
        assert forall|i: int| 0 <= i < spec_rotors_step(rs).0.len() implies rotor_wf(
            #[trigger] spec_rotors_step(rs).0[i],
        ) by {
            if i > 0 {
                assert(spec_rotors_step(rs).0[i] == tail[i - 1]);
                assert(rotor_wf(tail[i - 1]));
            } else {
                assert(spec_rotors_step(rs).0[0] == (if carry {
                    spec_rotor_step(h)
                } else {
                    spec_rotor_double_step(h)
                }).0);
                assert(rotor_wf(spec_rotor_step(h).0));
                assert(rotor_wf(spec_rotor_double_step(h).0));
            }
        }
        assert forall|i: int| 0 <= i < spec_rotors_unstep(rs).0.len() implies rotor_wf(
            #[trigger] spec_rotors_unstep(rs).0[i],
        ) by {
            if i > 0 {
                assert(spec_rotors_unstep(rs).0[i] == utail[i - 1]);
                assert(rotor_wf(utail[i - 1]));
            } else {
                assert(spec_rotors_unstep(rs).0[0] == (if ucarry {
                    spec_rotor_unstep(h)
                } else {
                    spec_rotor_double_unstep(h)
                }).0);
                assert(rotor_wf(spec_rotor_unstep(h).0));
                assert(rotor_wf(spec_rotor_double_unstep(h).0));
            }
        }
    }
}

/// Stepping preserves well-formedness at the machine level.
pub proof fn lemma_step_wf(m: SpecMachine)
    requires
        machine_wf(m),
    ensures
        machine_wf(spec_step(m)),
        machine_wf(spec_unstep(m)),
        spec_step(m).rotors.len() == m.rotors.len(),
        spec_unstep(m).rotors.len() == m.rotors.len(),
{
    lemma_rotors_step_len(m.rotors);
    lemma_rotors_step_wf(m.rotors);
}

} // verus!
