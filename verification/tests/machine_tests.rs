use enigma::error::EnigmaError;
use enigma::machine::Enigma;

fn letters_of(s: &str) -> String {
    s.chars().filter(|c| !c.is_whitespace()).collect()
}

#[test]
fn test_type_letter() {
    let rotor_list = vec![1, 2, 3, 4];
    let enigma_type = "M4".to_string();
    let reflector = 'B';
    let letter = 'K';
    let before = letter.clone();
    let mut machine = Enigma::new(rotor_list.clone(), reflector, enigma_type.clone()).unwrap();
    assert!(machine.type_letter(letter).unwrap() != before);
}

#[test]
fn test_m3_encoding() {
    let rotor_list = vec![4, 3, 2];
    let enigma_type = "M3".to_string();
    let reflector = 'C';
    let key = "OUY".to_string();
    let message = "NOBODYEXPECTSTHESPANISHINQUISITION";
    let mut machine = Enigma::new(rotor_list.clone(), reflector, enigma_type.clone()).unwrap();

    machine.set_key(key.clone()).unwrap();

    let result = machine.type_phrase(message.to_string());

    machine = Enigma::new(rotor_list.clone(), reflector, enigma_type.clone()).unwrap();
    machine.set_key(key.clone()).unwrap();
    let out = letters_of(&machine.type_phrase(result));

    assert!(&out[..message.len()] == message);
}

#[test]
fn test_m4_encoding() {
    let rotor_list = vec![4, 3, 2, 1];
    let enigma_type = "M4".to_string();
    let reflector = 'B';
    let key = "MOAN".to_string();
    let message = "SOTHATSCAPRICORNISIT";
    let mut machine = Enigma::new(rotor_list.clone(), reflector, enigma_type.clone()).unwrap();

    machine.set_key(key.clone()).unwrap();

    let result = machine.type_phrase(message.to_string());

    machine = Enigma::new(rotor_list.clone(), reflector, enigma_type.clone()).unwrap();
    machine.set_key(key.clone()).unwrap();
    let out = letters_of(&machine.type_phrase(result));

    assert!(out == message);
}

#[test]
fn test_ringstellung() {
    let rotor_list = vec![1, 2, 3, 4];
    let enigma_type = "M4".to_string();
    let reflector = 'B';
    let key = "TEST".to_string();
    let message = "This is a test".to_string().replace(" ", "").to_ascii_uppercase();
    let mut machine = Enigma::new(rotor_list.clone(), reflector, enigma_type.clone()).unwrap();

    machine.set_key(key.clone()).unwrap();
    machine.ringstellung(rotor_list.clone());
    let result = machine.type_phrase(message.clone()).replace(" ", "");
    machine = Enigma::new(rotor_list.clone(), reflector, enigma_type.clone()).unwrap();
    machine.set_key(key.clone()).unwrap();
    machine.ringstellung(rotor_list.clone());
    let orig = machine.type_phrase(result.clone()).replace(" ", "");

    assert!(&orig[..orig.len() - 4] == message);
}

#[test]
fn typed_letters_are_self_reciprocal() {
    let mut m1 = Enigma::new(vec![2, 5, 7], 'B', "M3".to_string()).unwrap();
    let mut m2 = Enigma::new(vec![2, 5, 7], 'B', "M3".to_string()).unwrap();
    m1.set_key("CAT".to_string()).unwrap();
    m2.set_key("CAT".to_string()).unwrap();
    for plain in ['H', 'E', 'L', 'L', 'O'] {
        let cipher = m1.type_letter(plain).unwrap();
        let back = m2.type_letter(cipher).unwrap();
        assert_eq!(back, plain);
    }
}

#[test]
fn a_letter_never_enciphers_to_itself() {
    let mut machine = Enigma::new(vec![6, 1, 4], 'C', "M3".to_string()).unwrap();
    for c in 'A'..='Z' {
        assert_ne!(machine.type_letter(c).unwrap(), c);
    }
}

#[test]
fn identical_machines_step_identically() {
    let mut m1 = Enigma::new(vec![3, 1, 8], 'C', "M3".to_string()).unwrap();
    let mut m2 = Enigma::new(vec![3, 1, 8], 'C', "M3".to_string()).unwrap();
    m1.set_key("XYZ".to_string()).unwrap();
    m2.set_key("XYZ".to_string()).unwrap();
    // the same inputs drive both machines through the same face states,
    // so every output agrees, across more than one full turnover
    for i in 0..60 {
        let c = (b'A' + (i % 26) as u8) as char;
        assert_eq!(m1.type_letter(c).unwrap(), m2.type_letter(c).unwrap());
    }
}

#[test]
fn lowercase_input_is_uppercased() {
    let mut m1 = Enigma::new(vec![1, 2, 3], 'B', "M3".to_string()).unwrap();
    let mut m2 = Enigma::new(vec![1, 2, 3], 'B', "M3".to_string()).unwrap();
    assert_eq!(m1.type_letter('q').unwrap(), m2.type_letter('Q').unwrap());
}

#[test]
fn inter_rotor_conv_applies_the_face_offset() {
    let mut machine = Enigma::new(vec![1, 2, 3], 'B', "M3".to_string()).unwrap();
    machine.set_key("ABC".to_string()).unwrap();
    // faces: left A (0), middle B (1), right C (2)
    let right = "right".to_string();
    let middle = "middle".to_string();
    // from right (2) to middle (1): A shifts by -1 to Z
    assert_eq!(machine.inter_rotor_conv(&right, &middle, 'A').unwrap(), 'Z');
    // from middle (1) to right (2): A shifts by +1 to B
    assert_eq!(machine.inter_rotor_conv(&middle, &right, 'A').unwrap(), 'B');
}

#[test]
fn rotor_conv_reaches_the_labelled_rotor() {
    let machine = Enigma::new(vec![1, 2, 3], 'B', "M3".to_string()).unwrap();
    // the left slot holds rotor I, which maps A to E
    assert_eq!(machine.rotor_conv(&"left".to_string(), 'A').unwrap(), 'E');
    // rotor I maps A to E, so the inverse pass takes E back to A
    assert_eq!(machine.rotor_conv_inv(&"left".to_string(), 'E').unwrap(), 'A');
}

#[test]
fn machine_component_conversions() {
    let machine = Enigma::new(vec![1, 2, 3], 'B', "M3".to_string()).unwrap();
    assert_eq!(machine.reflector_conv('X').unwrap(), 'J');
    assert_eq!(machine.plugboard_conv('A').unwrap(), 'Z');
    assert_eq!(machine.plugboard_conv_inv('Z').unwrap(), 'A');
}

#[test]
fn rewired_machines_stay_self_reciprocal() {
    let mut m1 = Enigma::new(vec![5, 2, 6], 'B', "M3".to_string()).unwrap();
    let mut m2 = Enigma::new(vec![5, 2, 6], 'B', "M3".to_string()).unwrap();
    m1.rewire_plugboard('A', 'B');
    m2.rewire_plugboard('A', 'B');
    m1.set_key("KEY".to_string()).unwrap();
    m2.set_key("KEY".to_string()).unwrap();
    for plain in ['A', 'B', 'Z', 'P', 'Q'] {
        let cipher = m1.type_letter(plain).unwrap();
        assert_eq!(m2.type_letter(cipher).unwrap(), plain);
    }
}

#[test]
fn phrases_are_padded_and_grouped_in_fives() {
    let mut machine = Enigma::new(vec![1, 2, 3], 'B', "M3".to_string()).unwrap();
    let out = machine.type_phrase("HELLO THERE WORLD".to_string());
    // 15 letters stripped of spaces: no padding, three groups of five
    let groups: Vec<&str> = out.split(' ').collect();
    assert_eq!(groups.len(), 3);
    for g in &groups {
        assert_eq!(g.len(), 5);
        assert!(g.chars().all(|c| c.is_ascii_uppercase()));
    }

    let mut machine = Enigma::new(vec![1, 2, 3], 'B', "M3".to_string()).unwrap();
    let out = machine.type_phrase("AB".to_string());
    // two letters pad up to one full group of five filler-extended letters
    assert_eq!(out.len(), 5);
    assert!(out.chars().all(|c| c.is_ascii_uppercase()));
}

#[test]
fn invalid_letter_is_refused_per_call() {
    let mut machine = Enigma::new(vec![1, 2, 3], 'B', "M3".to_string()).unwrap();
    assert_eq!(machine.type_letter('3').unwrap_err(), EnigmaError::InvalidSymbol);
    // the failed call left the machine unstepped: both machines agree
    let mut fresh = Enigma::new(vec![1, 2, 3], 'B', "M3".to_string()).unwrap();
    assert_eq!(machine.type_letter('A').unwrap(), fresh.type_letter('A').unwrap());
}

#[test]
fn unknown_machine_type_is_refused() {
    let r = Enigma::new(vec![1, 2, 3], 'B', "M5".to_string());
    assert_eq!(r.err().unwrap(), EnigmaError::UnknownMachineType);
}

#[test]
fn rotor_count_mismatch_is_refused() {
    let r = Enigma::new(vec![1, 2, 3, 4], 'B', "M3".to_string());
    assert_eq!(r.err().unwrap(), EnigmaError::RotorCountMismatch);
    let r = Enigma::new(vec![1, 2, 3], 'B', "M4".to_string());
    assert_eq!(r.err().unwrap(), EnigmaError::RotorCountMismatch);
}

#[test]
fn unknown_rotor_id_in_machine_is_refused() {
    let r = Enigma::new(vec![1, 2, 9], 'B', "M3".to_string());
    assert_eq!(r.err().unwrap(), EnigmaError::UnknownRotorId);
}

#[test]
fn unknown_reflector_tag_in_machine_is_refused() {
    let r = Enigma::new(vec![1, 2, 3], 'Q', "M3".to_string());
    assert_eq!(r.err().unwrap(), EnigmaError::UnknownReflectorTag);
}

#[test]
fn key_length_mismatch_is_refused() {
    let mut machine = Enigma::new(vec![1, 2, 3], 'B', "M3".to_string()).unwrap();
    assert_eq!(machine.set_key("AB".to_string()).unwrap_err(), EnigmaError::KeyLengthMismatch);
    assert_eq!(
        machine.set_key("ABCD".to_string()).unwrap_err(),
        EnigmaError::KeyLengthMismatch
    );
    machine.set_key("ABC".to_string()).unwrap();
}
