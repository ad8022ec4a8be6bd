use enigma::error::EnigmaError;
use enigma::rotor::{Rotor, Rotors};

const INPUT: [char; 26] = [
    'A', 'B', 'C', 'D', 'E', 'F', 'G', 'H', 'I', 'J', 'K', 'L', 'M', 'N', 'O', 'P', 'Q', 'R',
    'S', 'T', 'U', 'V', 'W', 'X', 'Y', 'Z',
];

#[test]
fn test_rotor_1_conv() {
    let rotor = Rotor::Rotor_1();
    let output = [
        'E', 'K', 'M', 'F', 'L', 'G', 'D', 'Q', 'V', 'Z', 'N', 'T', 'O', 'W', 'Y', 'H', 'X',
        'U', 'S', 'P', 'A', 'I', 'B', 'R', 'C', 'J',
    ];
    for i in 0..INPUT.len() {
        assert!(rotor.convert(INPUT[i]).unwrap() == output[i]);
    }
}

#[test]
fn test_rotor_2_conv() {
    let rotor = Rotor::Rotor_2();
    let output = [
        'A', 'J', 'D', 'K', 'S', 'I', 'R', 'U', 'X', 'B', 'L', 'H', 'W', 'T', 'M', 'C', 'Q',
        'G', 'Z', 'N', 'P', 'Y', 'F', 'V', 'O', 'E',
    ];
    for i in 0..INPUT.len() {
        assert!(rotor.convert(INPUT[i]).unwrap() == output[i]);
    }
}

#[test]
fn test_rotor_3_conv() {
    let rotor = Rotor::Rotor_3();
    let output = [
        'B', 'D', 'F', 'H', 'J', 'L', 'C', 'P', 'R', 'T', 'X', 'V', 'Z', 'N', 'Y', 'E', 'I',
        'W', 'G', 'A', 'K', 'M', 'U', 'S', 'Q', 'O',
    ];
    for i in 0..INPUT.len() {
        assert!(rotor.convert(INPUT[i]).unwrap() == output[i]);
    }
}

#[test]
fn test_rotor_4_conv() {
    let rotor = Rotor::Rotor_4();
    let output = [
        'E', 'S', 'O', 'V', 'P', 'Z', 'J', 'A', 'Y', 'Q', 'U', 'I', 'R', 'H', 'X', 'L', 'N',
        'F', 'T', 'G', 'K', 'D', 'C', 'M', 'W', 'B',
    ];
    for i in 0..INPUT.len() {
        assert!(rotor.convert(INPUT[i]).unwrap() == output[i]);
    }
}

#[test]
fn test_rotor_5_conv() {
    let rotor = Rotor::Rotor_5();
    let output = [
        'V', 'Z', 'B', 'R', 'G', 'I', 'T', 'Y', 'U', 'P', 'S', 'D', 'N', 'H', 'L', 'X', 'A',
        'W', 'M', 'J', 'Q', 'O', 'F', 'E', 'C', 'K',
    ];
    for i in 0..INPUT.len() {
        assert!(rotor.convert(INPUT[i]).unwrap() == output[i]);
    }
}

#[test]
fn test_rotor_6_conv() {
    let rotor = Rotor::Rotor_6();
    let output = [
        'J', 'P', 'G', 'V', 'O', 'U', 'M', 'F', 'Y', 'Q', 'B', 'E', 'N', 'H', 'Z', 'R', 'D',
        'K', 'A', 'S', 'X', 'L', 'I', 'C', 'T', 'W',
    ];
    for i in 0..INPUT.len() {
        assert!(rotor.convert(INPUT[i]).unwrap() == output[i]);
    }
}

#[test]
fn test_rotor_7_conv() {
    let rotor = Rotor::Rotor_7();
    let output = [
        'N', 'Z', 'J', 'H', 'G', 'R', 'C', 'X', 'M', 'Y', 'S', 'W', 'B', 'O', 'U', 'F', 'A',
        'I', 'V', 'L', 'P', 'E', 'K', 'Q', 'D', 'T',
    ];
    for i in 0..INPUT.len() {
        assert!(rotor.convert(INPUT[i]).unwrap() == output[i]);
    }
}

#[test]
fn test_rotor_8_conv() {
    let rotor = Rotor::Rotor_8();
    let output = [
        'F', 'K', 'Q', 'H', 'T', 'L', 'X', 'O', 'C', 'B', 'J', 'S', 'P', 'D', 'Z', 'R', 'A',
        'M', 'E', 'W', 'N', 'I', 'U', 'Y', 'G', 'V',
    ];
    for i in 0..INPUT.len() {
        assert!(rotor.convert(INPUT[i]).unwrap() == output[i]);
    }
}

#[test]
fn rotor_convert_is_a_bijection() {
    for id in 1..=8 {
        let rotor = Rotors(id).unwrap();
        let mut seen = [false; 26];
        for i in 0..26 {
            let out = rotor.convert(INPUT[i]).unwrap();
            let pos = (out as u32 - 'A' as u32) as usize;
            assert!(!seen[pos], "duplicate output for rotor {}", id);
            seen[pos] = true;
        }
        assert!(seen.iter().all(|&b| b));
    }
}

#[test]
fn rotor_convert_inv_undoes_convert() {
    for id in 1..=8 {
        let rotor = Rotors(id).unwrap();
        for c in INPUT {
            assert_eq!(rotor.convert_inv(rotor.convert(c).unwrap()).unwrap(), c);
        }
    }
}

#[test]
fn full_ring_cycle_restores_wiring() {
    let mut rotor = Rotor::Rotor_3();
    let reference = Rotor::Rotor_3();
    rotor.apply_ring_offset(26);
    for c in INPUT {
        assert_eq!(rotor.convert(c).unwrap(), reference.convert(c).unwrap());
    }
    assert!(rotor == reference);
}

#[test]
fn single_ring_shift_moves_wiring() {
    let mut rotor = Rotor::Rotor_1();
    rotor.rotate_inner_ring();
    // contact 0 now carries what contact 1 carried: B -> K on rotor I
    assert_eq!(rotor.convert('A').unwrap(), 'K');
}

#[test]
fn rotate_advances_face_cyclically() {
    let mut rotor = Rotor::Rotor_1();
    assert_eq!(rotor.get_face_letter(), 'A');
    rotor.rotate(None);
    assert_eq!(rotor.get_face_letter(), 'B');
    for _ in 0..25 {
        rotor.rotate(None);
    }
    assert_eq!(rotor.get_face_letter(), 'A');
}

#[test]
fn notches_match_the_historical_rotors() {
    assert_eq!(Rotor::Rotor_1().get_notches(), vec!['R']);
    assert_eq!(Rotor::Rotor_2().get_notches(), vec!['F']);
    assert_eq!(Rotor::Rotor_3().get_notches(), vec!['W']);
    assert_eq!(Rotor::Rotor_4().get_notches(), vec!['K']);
    assert_eq!(Rotor::Rotor_5().get_notches(), vec!['A']);
    assert_eq!(Rotor::Rotor_6().get_notches(), vec!['A', 'N']);
    assert_eq!(Rotor::Rotor_7().get_notches(), vec!['A', 'N']);
    assert_eq!(Rotor::Rotor_8().get_notches(), vec!['A', 'N']);
}

#[test]
fn terminals_follow_the_wiring() {
    let rotor = Rotor::Rotor_1();
    assert_eq!(rotor.get_output_terminal('A').unwrap(), 4);
    let rotor = Rotor::Rotor_1();
    assert_eq!(rotor.get_input_terminal('C').unwrap(), 2);
}

#[test]
fn unknown_rotor_id_is_refused() {
    assert_eq!(Rotors(0).err().unwrap(), EnigmaError::UnknownRotorId);
    assert_eq!(Rotors(9).err().unwrap(), EnigmaError::UnknownRotorId);
    assert_eq!(Rotors(-3).err().unwrap(), EnigmaError::UnknownRotorId);
}

#[test]
fn invalid_symbol_is_refused() {
    let rotor = Rotor::Rotor_1();
    assert_eq!(rotor.convert('1').unwrap_err(), EnigmaError::InvalidSymbol);
    assert_eq!(rotor.convert_inv('?').unwrap_err(), EnigmaError::InvalidSymbol);
}
