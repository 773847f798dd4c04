use enigma::{
    force_combinations, EnigmaMachine, Letter, MachineState, Message, PlugboardOptions,
    ReflectorId, RotorId,
};

fn base_state() -> MachineState {
    MachineState::new(
        vec![],
        vec![RotorId::I, RotorId::II, RotorId::III],
        vec![Letter::A, Letter::B, Letter::C],
        ReflectorId::C,
    )
}

fn encode(state: MachineState, text: &str) -> Message {
    let mut machine = EnigmaMachine::from(state);
    machine.consume(&Message::from(text.to_string()))
}

#[test]
fn force_unknown_rotor_starts() {
    let state = base_state();
    let encoded = encode(state.clone(), "Hello world");

    let results = force_combinations(
        PlugboardOptions::KnownConnections(vec![]),
        Some(vec![
            (Some(RotorId::I), None),
            (Some(RotorId::II), None),
            (Some(RotorId::III), None),
        ]),
        Some(ReflectorId::C),
        &encoded,
        &Some(Message::from("Hello".to_string())),
        &None,
        &None,
    );

    assert_eq!(results, vec![state]);
}

#[test]
fn force_unknown_rotor_ids() {
    let state = base_state();
    let encoded = encode(state.clone(), "Hello world");

    let results = force_combinations(
        PlugboardOptions::KnownConnections(vec![]),
        Some(vec![
            (None, Some(Letter::A)),
            (None, Some(Letter::B)),
            (None, Some(Letter::C)),
        ]),
        Some(ReflectorId::C),
        &encoded,
        &Some(Message::from("Hello".to_string())),
        &None,
        &None,
    );

    assert_eq!(results, vec![state]);
}

#[test]
fn force_unknown_reflector() {
    let state = base_state();
    let encoded = encode(state.clone(), "Hello world");

    let results = force_combinations(
        PlugboardOptions::KnownConnections(vec![]),
        Some(vec![
            (Some(RotorId::I), Some(Letter::A)),
            (Some(RotorId::II), Some(Letter::B)),
            (Some(RotorId::III), Some(Letter::C)),
        ]),
        None,
        &encoded,
        &Some(Message::from("Hello".to_string())),
        &None,
        &None,
    );

    assert_eq!(results, vec![state]);
}

#[test]
fn force_unknown_plugs() {
    let state = MachineState::new(
        vec![(Letter::A, Letter::B), (Letter::C, Letter::D)],
        vec![RotorId::I, RotorId::II, RotorId::III],
        vec![Letter::A, Letter::B, Letter::C],
        ReflectorId::C,
    );
    let encoded = encode(state.clone(), "Hello world");

    let results = force_combinations(
        PlugboardOptions::NumberInRangeInclusive(2, 2),
        Some(vec![
            (Some(RotorId::I), Some(Letter::A)),
            (Some(RotorId::II), Some(Letter::B)),
            (Some(RotorId::III), Some(Letter::C)),
        ]),
        Some(ReflectorId::C),
        &encoded,
        &Some(Message::from("Hello".to_string())),
        &None,
        &None,
    );

    // There are many plug board combinations that work, since we don't use
    // all chars in the encoded message, meaning unused chars could be
    // wired in any way, and it wouldn't affect the encoding
    assert!(results.contains(&state));
}

#[test]
fn force_message_end() {
    let state = base_state();
    let encoded = encode(state.clone(), "Hello world");

    let results = force_combinations(
        PlugboardOptions::KnownConnections(vec![]),
        Some(vec![
            (Some(RotorId::I), None),
            (Some(RotorId::II), None),
            (Some(RotorId::III), None),
        ]),
        Some(ReflectorId::C),
        &encoded,
        &None,
        &Some(Message::from("world".to_string())),
        &None,
    );

    assert_eq!(results, vec![state]);
}

#[test]
fn force_message_contains() {
    let state = base_state();
    let encoded = encode(state.clone(), "Hello world");

    let results = force_combinations(
        // Specify all options to simplify debugging
        PlugboardOptions::KnownConnections(vec![]),
        Some(vec![
            (Some(RotorId::I), Some(Letter::A)),
            (Some(RotorId::II), Some(Letter::B)),
            (Some(RotorId::III), Some(Letter::C)),
        ]),
        Some(ReflectorId::C),
        &encoded,
        &None,
        &None,
        &Some(Message::from("wor".to_string())),
    );

    assert_eq!(results, vec![state]);
}

#[test]
fn force_no_cribs_accepts_all_candidates() {
    let state = base_state();
    let encoded = encode(state.clone(), "Hello world");

    // With every dimension fixed and no crib, the single candidate matches
    let results = force_combinations(
        PlugboardOptions::KnownConnections(vec![]),
        Some(vec![
            (Some(RotorId::I), Some(Letter::A)),
            (Some(RotorId::II), Some(Letter::B)),
            (Some(RotorId::III), Some(Letter::C)),
        ]),
        Some(ReflectorId::C),
        &encoded,
        &None,
        &None,
        &None,
    );

    assert_eq!(results.len(), 1);
}

#[test]
fn force_invalid_known_plugs_yields_nothing() {
    let state = base_state();
    let encoded = encode(state.clone(), "Hello world");

    // A plug list claiming a letter twice can never build a machine
    let results = force_combinations(
        PlugboardOptions::KnownConnections(vec![
            (Letter::A, Letter::B),
            (Letter::A, Letter::C),
        ]),
        Some(vec![
            (Some(RotorId::I), Some(Letter::A)),
            (Some(RotorId::II), Some(Letter::B)),
            (Some(RotorId::III), Some(Letter::C)),
        ]),
        Some(ReflectorId::C),
        &encoded,
        &Some(Message::from("Hello".to_string())),
        &None,
        &None,
    );

    assert_eq!(results.len(), 0);
}

#[test]
fn force_plug_count_range_covers_empty_board() {
    let state = base_state();
    let encoded = encode(state.clone(), "Hello world");

    // A half-open count range including zero must find the plugless state
    let results = force_combinations(
        PlugboardOptions::NumberInRange(0, 1),
        Some(vec![
            (Some(RotorId::I), Some(Letter::A)),
            (Some(RotorId::II), Some(Letter::B)),
            (Some(RotorId::III), Some(Letter::C)),
        ]),
        Some(ReflectorId::C),
        &encoded,
        &Some(Message::from("Hello".to_string())),
        &None,
        &None,
    );

    assert_eq!(results, vec![state]);
}

#[test]
fn message_round_trip_is_lossless() {
    let text = "Mixed CASE, punctuation... and 123 numbers!";
    assert_eq!(Message::from(text.to_string()).to_string(), text);
}
