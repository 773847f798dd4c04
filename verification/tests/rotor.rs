use enigma::{Letter, PlugBoard, Reflector, ReflectorId, RotorId};

#[test]
fn inputs_are_symmetric() {
    let r = RotorId::I.make_rotor(Letter::A, false);

    for n in 0..26 {
        let i = Letter::from_usize(n).unwrap();
        let encoded = r.char_in(i);
        let decoded = r.char_out(encoded);
        assert_eq!(decoded, i);
    }
}

#[test]
fn rotor_inputs_are_symmetric() {
    for id in [RotorId::I, RotorId::II, RotorId::III, RotorId::IV, RotorId::V] {
        let r = id.make_rotor(Letter::G, false);
        for n in 0..26 {
            let i = Letter::from_usize(n).unwrap();
            assert_eq!(r.char_out(r.char_in(i)), i);
            assert_eq!(r.char_in(r.char_out(i)), i);
        }
    }
}

#[test]
fn step_unstep_simple() {
    let mut r = RotorId::I.make_rotor(Letter::A, false);

    let starting_pos = r.position();

    r.step();
    r.unstep();

    assert_eq!(r.position(), starting_pos);
}

/// When we hit a turnover step, does unstepping tell us that it was a
/// turnover
#[test]
fn step_unstep_turnover() {
    let mut r = RotorId::I.make_rotor(Letter::Q, false);

    // It should have triggered the next one to step
    assert!(r.step());

    // And unstepping should also trigger it
    assert!(r.unstep());
}

#[test]
fn double_step_double_unstep() {
    let mut r = RotorId::I.make_rotor(Letter::Q, true);

    // The next one should double step
    assert!(r.double_step());

    // And unstepping should double unstep
    assert!(r.double_unstep());
}

#[test]
fn reflector_swaps_without_fixed_points() {
    for id in [ReflectorId::A, ReflectorId::B, ReflectorId::C] {
        let refl: Reflector = id.make_reflector();
        for n in 0..26 {
            let l = Letter::from_usize(n).unwrap();
            let m = refl.reflect(l);
            assert_ne!(m, l);
            assert_eq!(refl.reflect(m), l);
        }
    }
}

#[test]
fn plug_board_swaps_pairs() {
    let board = PlugBoard::new(&[(Letter::A, Letter::B), (Letter::C, Letter::D)]).unwrap();
    assert_eq!(board.map_char(Letter::A), Letter::B);
    assert_eq!(board.map_char(Letter::B), Letter::A);
    assert_eq!(board.map_char(Letter::C), Letter::D);
    assert_eq!(board.map_char(Letter::E), Letter::E);
}

#[test]
fn plug_board_rejects_duplicate_letter() {
    assert!(PlugBoard::new(&[(Letter::A, Letter::B), (Letter::A, Letter::C)]).is_none());
    assert!(PlugBoard::new(&[(Letter::A, Letter::B), (Letter::C, Letter::B)]).is_none());
    assert!(PlugBoard::new(&[(Letter::A, Letter::B)]).is_some());
}
