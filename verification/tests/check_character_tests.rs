use ark_service::{calculate_check_character, validate_check_character};

#[test]
fn test_check_character_calculation() {
    let identifier = "13030/xf93gt2";
    let check = calculate_check_character(identifier);
    assert_eq!(check, 'q');
}

#[test]
fn test_check_character_validation() {
    assert!(validate_check_character("13030/xf93gt2q"));
    assert!(!validate_check_character("13030/xf93gt2x"));
}

#[test]
fn test_case_insensitive() {
    // Uppercase and lowercase identifiers produce the same check character.
    assert_eq!(
        calculate_check_character("13030/XF93GT2"),
        calculate_check_character("13030/xf93gt2")
    );

    // Validation works with both cases.
    assert!(validate_check_character("13030/XF93GT2Q"));
    assert!(validate_check_character("13030/xf93gt2q"));
    assert!(validate_check_character("13030/Xf93Gt2Q")); // Mixed case
}

#[test]
fn check_character_worked_example() {
    // 'b'=10, 'c'=11, 'd'=12; 10*1 + 11*2 + 12*3 = 68; 68 mod 29 = 10 -> 'b'.
    assert_eq!(calculate_check_character("bcd"), 'b');
}

#[test]
fn appended_check_character_always_validates() {
    for s in ["x6", "13030/xf93gt2", "b3test", "0", "zzzz", "k4/ark"] {
        let check = calculate_check_character(s);
        let full = format!("{}{}", s, check);
        assert!(validate_check_character(&full));
    }
}

#[test]
fn validate_rejects_short_inputs() {
    assert!(!validate_check_character(""));
    assert!(!validate_check_character("a"));
}

#[test]
fn characters_outside_alphabet_have_ordinal_zero() {
    // 'a' is not in the alphabet, so it contributes nothing at any position.
    assert_eq!(calculate_check_character("bacd"), calculate_check_character("b\u{40}cd"));
}
