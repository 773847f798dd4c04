use enigma::Letter;

#[test]
fn letter_to_number() {
    assert_eq!(Letter::A as usize, 0);
}

#[test]
fn add_letters() {
    assert_eq!(Letter::A.add_usize(1), Letter::B);
}

#[test]
fn add_letters_wrap() {
    assert_eq!(Letter::Z.add_usize(1), Letter::A);
}

#[test]
fn sub_letters() {
    assert_eq!(Letter::B.sub_usize(1), Letter::A);
}

#[test]
fn sub_letters_wrap() {
    assert_eq!(Letter::A.sub_usize(1), Letter::Z);
}

#[test]
fn letter_from_char_cases() {
    assert_eq!(Letter::from_char('a'), Some((Letter::A, false)));
    assert_eq!(Letter::from_char('Z'), Some((Letter::Z, true)));
    assert_eq!(Letter::from_char('!'), None);
    assert_eq!(Letter::from_char(' '), None);
}

#[test]
fn letter_to_char_round_trip() {
    for n in 0..26 {
        let l = Letter::from_usize(n).unwrap();
        let (l2, upper) = Letter::from_char(l.to_char(true)).unwrap();
        assert_eq!(l2, l);
        assert!(upper);
        let (l3, upper3) = Letter::from_char(l.to_char(false)).unwrap();
        assert_eq!(l3, l);
        assert!(!upper3);
    }
}

#[test]
fn letter_from_usize_out_of_range() {
    assert_eq!(Letter::from_usize(26), None);
    assert_eq!(Letter::from_usize(1000), None);
}

#[test]
fn letter_add_sub_inverse() {
    for n in 0..26 {
        let l = Letter::from_usize(n).unwrap();
        for k in 0..60 {
            assert_eq!(l.add_usize(k).sub_usize(k), l);
        }
    }
}
