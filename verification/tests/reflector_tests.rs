use enigma::error::EnigmaError;
use enigma::reflector::{Reflector, Reflectors};

const LETTERS: [char; 26] = [
    'A', 'B', 'C', 'D', 'E', 'F', 'G', 'H', 'I', 'J', 'K', 'L', 'M', 'N', 'O', 'P', 'Q', 'R',
    'S', 'T', 'U', 'V', 'W', 'X', 'Y', 'Z',
];

#[test]
fn test_reflector_B_conv() {
    let in_char = 'X';
    let out_char = 'J';

    let reflector = Reflector::Reflector_B();

    let ref_out = reflector.convert(in_char).unwrap();

    assert!(ref_out == out_char);
}

#[test]
fn test_reflector_C_conv() {
    let in_char = 'X';
    let out_char = 'M';

    let reflector = Reflector::Reflector_C();

    let ref_out = reflector.convert(in_char).unwrap();

    assert!(ref_out == out_char);
}

#[test]
fn reflectors_are_involutions() {
    for refl in [Reflector::Reflector_B(), Reflector::Reflector_C()] {
        for c in LETTERS {
            let once = refl.convert(c).unwrap();
            assert_eq!(refl.convert(once).unwrap(), c);
        }
    }
}

#[test]
fn reflectors_have_no_fixed_points() {
    for refl in [Reflector::Reflector_B(), Reflector::Reflector_C()] {
        for c in LETTERS {
            assert_ne!(refl.convert(c).unwrap(), c);
        }
    }
}

#[test]
fn reflectors_builds_by_tag() {
    assert_eq!(Reflectors('B').unwrap().convert('A').unwrap(), 'Y');
    assert_eq!(Reflectors('C').unwrap().convert('A').unwrap(), 'F');
}

#[test]
fn unknown_reflector_tag_is_refused() {
    assert_eq!(Reflectors('A').err().unwrap(), EnigmaError::UnknownReflectorTag);
    assert_eq!(Reflectors('b').err().unwrap(), EnigmaError::UnknownReflectorTag);
}

#[test]
fn reflector_refuses_invalid_symbols() {
    let refl = Reflector::Reflector_B();
    assert_eq!(refl.convert('#').unwrap_err(), EnigmaError::InvalidSymbol);
}
