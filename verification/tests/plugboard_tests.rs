use enigma::error::EnigmaError;
use enigma::plugboard::Plugboard;

const LETTERS: [char; 26] = [
    'A', 'B', 'C', 'D', 'E', 'F', 'G', 'H', 'I', 'J', 'K', 'L', 'M', 'N', 'O', 'P', 'Q', 'R',
    'S', 'T', 'U', 'V', 'W', 'X', 'Y', 'Z',
];

#[test]
fn plugboard_is_an_involution() {
    let board = Plugboard::new();
    for c in LETTERS {
        let once = board.convert(c).unwrap();
        assert_eq!(board.convert(once).unwrap(), c);
    }
}

#[test]
fn default_wiring_has_no_self_pairs() {
    let board = Plugboard::new();
    for c in LETTERS {
        assert_ne!(board.convert(c).unwrap(), c);
    }
}

#[test]
fn convert_inv_matches_convert() {
    let board = Plugboard::new();
    for c in LETTERS {
        assert_eq!(board.convert_inv(c).unwrap(), board.convert(c).unwrap());
    }
}

#[test]
fn default_pairs_match_the_fixed_table() {
    let board = Plugboard::new();
    assert_eq!(board.convert('A').unwrap(), 'Z');
    assert_eq!(board.convert('B').unwrap(), 'P');
    assert_eq!(board.convert('O').unwrap(), 'W');
}

#[test]
fn swap_rewires_both_pairs() {
    let mut board = Plugboard::new();
    // A was paired with Z, B with P
    board.swap_letter_wiring('A', 'B');
    assert_eq!(board.convert('A').unwrap(), 'B');
    assert_eq!(board.convert('B').unwrap(), 'A');
    assert_eq!(board.convert('Z').unwrap(), 'P');
    assert_eq!(board.convert('P').unwrap(), 'Z');
    // untouched pairs stay
    assert_eq!(board.convert('C').unwrap(), 'M');
}

#[test]
fn swap_keeps_the_involution() {
    let mut board = Plugboard::new();
    board.swap_letter_wiring('A', 'B');
    board.swap_letter_wiring('Q', 'Z');
    board.swap_letter_wiring('A', 'Q');
    for c in LETTERS {
        let once = board.convert(c).unwrap();
        assert_eq!(board.convert(once).unwrap(), c);
    }
}

#[test]
fn plugboard_refuses_invalid_symbols() {
    let board = Plugboard::new();
    assert_eq!(board.convert(' ').unwrap_err(), EnigmaError::InvalidSymbol);
    assert_eq!(board.convert_inv('7').unwrap_err(), EnigmaError::InvalidSymbol);
}
