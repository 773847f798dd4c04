use enigma::{EnigmaMachine, Letter, MachineState, Message, ReflectorId, RotorId};

/// State of the simple reference run: no plugs, rotors I, II and III at
/// A, B and C, reflector C.
fn simple_state() -> MachineState {
    MachineState::new(
        vec![],
        vec![RotorId::I, RotorId::II, RotorId::III],
        vec![Letter::A, Letter::B, Letter::C],
        ReflectorId::C,
    )
}

const SIMPLE_INPUT: &str = "Hello world";
const SIMPLE_EXPECT: &str = "Fmdij fjcfu";

/// State of the double-step reference run: the middle rotor stands one
/// before its turnover while the right rotor is about to carry into it.
fn double_step_state() -> MachineState {
    MachineState::new(
        vec![],
        vec![RotorId::III, RotorId::II, RotorId::I],
        vec![Letter::A, Letter::D, Letter::Q],
        ReflectorId::B,
    )
}

const DOUBLE_STEP_INPUT: &str = "AAA";
const DOUBLE_STEP_EXPECT: &str = "ZGO";

fn richard_state() -> MachineState {
    MachineState::new(
        vec![(Letter::R, Letter::I), (Letter::C, Letter::H)],
        vec![RotorId::V, RotorId::III, RotorId::II],
        vec![Letter::R, Letter::I, Letter::C],
        ReflectorId::A,
    )
}

const RICHARD_INPUT: &str = "Antidisestablishmentarianism";
const RICHARD_EXPECT: &str = "Hlodwdylaynhfxlafqgfyaokrnbu";

fn run_case(state: MachineState, input: &str, expect: &str) {
    let mut machine = EnigmaMachine::from(state);
    let enciphered = machine.consume(&Message::from(input.to_string()));
    assert_eq!(enciphered.to_string(), expect);
}

#[test]
fn enigma_machine_simple() {
    run_case(simple_state(), SIMPLE_INPUT, SIMPLE_EXPECT);
}

#[test]
fn machine_simple() {
    run_case(simple_state(), SIMPLE_INPUT, SIMPLE_EXPECT);
}

#[test]
fn mod_simple() {
    run_case(simple_state(), SIMPLE_INPUT, SIMPLE_EXPECT);
}

#[test]
fn enigma_machine_double_step() {
    run_case(double_step_state(), DOUBLE_STEP_INPUT, DOUBLE_STEP_EXPECT);
}

#[test]
fn machine_double_step() {
    run_case(double_step_state(), DOUBLE_STEP_INPUT, DOUBLE_STEP_EXPECT);
}

#[test]
fn mod_double_step() {
    run_case(double_step_state(), DOUBLE_STEP_INPUT, DOUBLE_STEP_EXPECT);
}

#[test]
fn enigma_machine_richards_favourite_word() {
    run_case(richard_state(), RICHARD_INPUT, RICHARD_EXPECT);
}

#[test]
fn machine_richards_favourite_word() {
    run_case(richard_state(), RICHARD_INPUT, RICHARD_EXPECT);
}

#[test]
fn mod_richards_favourite_word() {
    run_case(richard_state(), RICHARD_INPUT, RICHARD_EXPECT);
}

#[test]
fn simple() {
    run_case(simple_state(), SIMPLE_INPUT, SIMPLE_EXPECT);
}

#[test]
fn double_step() {
    run_case(double_step_state(), DOUBLE_STEP_INPUT, DOUBLE_STEP_EXPECT);
}

#[test]
fn richards_favourite_word() {
    run_case(richard_state(), RICHARD_INPUT, RICHARD_EXPECT);
}

#[test]
fn enigma_machine_test_jumps() {
    let mut machine = EnigmaMachine::from(simple_state());

    // Jump forwards then backwards
    for _ in 0..1000 {
        machine.step();
    }
    for _ in 0..1000 {
        machine.unstep();
    }

    let enciphered = machine.consume(&Message::from(SIMPLE_INPUT.to_string()));

    assert_eq!(enciphered.to_string(), SIMPLE_EXPECT);
}

#[test]
fn consume_is_self_inverse() {
    let mut machine = EnigmaMachine::from(richard_state());
    let ciphertext = machine.consume(&Message::from("Attack at dawn! 123".to_string()));
    let mut fresh = EnigmaMachine::from(richard_state());
    let back = fresh.consume(&ciphertext);
    assert_eq!(back.to_string(), "Attack at dawn! 123");
}

#[test]
fn no_letter_enciphers_to_itself() {
    let mut machine = EnigmaMachine::from(simple_state());
    let input = "aaaaaaaaaaaaaaaaaaaaaaaaaaaaaaaaaaaaaaaaaaaaaaaaaaaa";
    let out = machine.consume(&Message::from(input.to_string())).to_string();
    for c in out.chars() {
        assert_ne!(c, 'a');
        assert_ne!(c, 'A');
    }
}

#[test]
fn case_and_passthrough_preserved() {
    let mut machine = EnigmaMachine::from(simple_state());
    let input = "Ab, cD! 42";
    let out = machine.consume(&Message::from(input.to_string())).to_string();
    assert_eq!(out.len(), input.len());
    for (ci, co) in input.chars().zip(out.chars()) {
        if ci.is_ascii_alphabetic() {
            assert_eq!(ci.is_ascii_uppercase(), co.is_ascii_uppercase());
            assert!(co.is_ascii_alphabetic());
        } else {
            assert_eq!(ci, co);
        }
    }
}

#[test]
fn reset_restores_double_step_edge() {
    // the middle rotor rests on its own turnover letter: stepping once and
    // resetting must still restore the exact starting configuration
    let state = MachineState::new(
        vec![],
        vec![RotorId::I, RotorId::II, RotorId::III],
        vec![Letter::A, Letter::F, Letter::A],
        ReflectorId::B,
    );
    let mut machine = EnigmaMachine::from(state);
    let first = machine.consume(&Message::from("Edge case".to_string()));
    machine.reset();
    machine.step();
    machine.reset();
    let second = machine.consume(&Message::from("Edge case".to_string()));
    assert_eq!(first.to_string(), second.to_string());
}

#[test]
fn reset_restores_initial_output() {
    let mut machine = EnigmaMachine::from(simple_state());
    let first = machine.consume(&Message::from(SIMPLE_INPUT.to_string()));
    machine.reset();
    let second = machine.consume(&Message::from(SIMPLE_INPUT.to_string()));
    assert_eq!(first.to_string(), second.to_string());
}

#[test]
fn try_consume_accepts_own_ciphertext() {
    let mut machine = EnigmaMachine::from(simple_state());
    let ct = machine.consume(&Message::from(SIMPLE_INPUT.to_string()));
    let mut fresh = EnigmaMachine::from(simple_state());
    assert!(fresh.try_consume(&ct, &Message::from("Hello".to_string())));
}

#[test]
fn try_consume_rejects_aligned_equal_letter() {
    let mut machine = EnigmaMachine::from(simple_state());
    // a letter can never encipher to itself, so an expectation repeating
    // the input letter is rejected by the early scan
    let input = Message::from("QQQQQ".to_string());
    assert!(!machine.try_consume(&input, &input));
}

#[test]
fn get_starting_state_returns_configuration() {
    let machine = EnigmaMachine::from(richard_state());
    assert_eq!(machine.get_starting_state(), richard_state());
}
