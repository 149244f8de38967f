use ark_service::{validate_ark, AppState, Shoulder, ShoulderRegistry, ValidationResult};

fn create_test_state() -> AppState {
    let mut shoulders = ShoulderRegistry::new();
    shoulders.insert(
        "x6".to_string(),
        Shoulder {
            route_pattern: "https://example.org/${value}".to_string(),
            project_name: "Test Project".to_string(),
            ..Default::default()
        },
    );
    shoulders.insert(
        "b3".to_string(),
        Shoulder {
            route_pattern: "https://beta.org/items/${value}".to_string(),
            project_name: "Beta Project".to_string(),
            uses_check_character: false,
            ..Default::default()
        },
    );

    AppState {
        naan: "12345".to_string(),
        default_blade_length: 8,
        max_mint_count: 1000,
        shoulders,
    }
}

#[test]
fn test_validate_valid_ark_with_check_char() {
    let state = create_test_state();
    // Valid ARK with check character.
    let result = validate_ark(&state, "ark:/12345/x6np1wh8f", Some(true));

    assert!(result.valid);
    assert_eq!(result.naan, Some("12345".to_string()));
    assert_eq!(result.shoulder, Some("x6".to_string()));
    assert_eq!(result.blade, Some("np1wh8f".to_string()));
    assert_eq!(result.shoulder_registered, Some(true));
    assert_eq!(result.check_character_valid, Some(true));
    assert!(result.error.is_none());
}

#[test]
fn test_validate_invalid_check_char() {
    let state = create_test_state();
    // Wrong check character.
    let result = validate_ark(&state, "ark:/12345/x6np1wh8x", Some(true));

    assert!(!result.valid);
    assert_eq!(result.check_character_valid, Some(false));
    assert!(result.warnings.is_some());
}

#[test]
fn test_validate_wrong_naan() {
    let state = create_test_state();
    let result = validate_ark(&state, "ark:/99999/x6nmkd123", None);

    assert!(!result.valid);
    assert_eq!(result.naan, Some("99999".to_string()));
    assert_eq!(result.shoulder, Some("x6".to_string()));
    assert_eq!(result.blade, Some("nmkd123".to_string()));
    assert_eq!(result.shoulder_registered, Some(true)); // x6 is registered
    assert!(result.has_check_character.is_some());
    assert!(result.check_character_valid.is_some());
    assert!(result.error.is_some());
    assert!(result.error.unwrap().contains("does not match"));
}

#[test]
fn test_validate_unregistered_shoulder() {
    let state = create_test_state();
    let result = validate_ark(&state, "ark:/12345/z9nmkd123", Some(false));

    assert!(!result.valid);
    assert_eq!(result.shoulder_registered, Some(false));
}

#[test]
fn test_validate_invalid_ark_format() {
    let state = create_test_state();
    let result = validate_ark(&state, "not-an-ark", None);

    assert!(!result.valid);
    assert!(result.error.is_some());
    assert_eq!(result.error.unwrap(), "Failed to parse ARK structure");
}

#[test]
fn test_validate_no_check_char_shoulder() {
    let state = create_test_state();
    // The b3 shoulder doesn't use check characters.
    let result = validate_ark(&state, "ark:/12345/b3nmkd123", None); // Uses shoulder config

    assert!(result.valid);
    assert_eq!(result.has_check_character, Some(false));
    assert_eq!(result.check_character_valid, Some(true)); // Skipped validation
}

#[test]
fn test_validate_blade_too_short() {
    let state = create_test_state();
    let result = validate_ark(&state, "ark:/12345/x6b", Some(true)); // Blade is only "b"

    // Blade too short for check character validation, but the shoulder is
    // registered, so it is valid with a warning.
    assert!(result.valid);
    assert_eq!(result.shoulder_registered, Some(true));
    assert_eq!(result.check_character_valid, None); // No validation performed
    assert!(result.warnings.is_some());
    let warnings = result.warnings.unwrap();
    assert!(warnings.iter().any(|w| w.contains("too short")));
}

#[test]
fn test_validate_invalid_shoulder_characters() {
    let state = create_test_state();
    // Shoulder with the vowel 'a'.
    let result = validate_ark(&state, "ark:/12345/a6nmkd123", None);

    assert!(!result.valid);
    assert!(result.error.is_some());
    assert!(result.error.unwrap().contains("betanumeric"));
}

#[test]
fn test_validate_invalid_blade_characters() {
    let state = create_test_state();
    // Blade with an uppercase letter.
    let result = validate_ark(&state, "ark:/12345/x6Nmkd123", None);

    assert!(!result.valid);
    assert!(result.error.is_some());
    assert!(result.error.unwrap().contains("betanumeric"));
}

#[test]
fn test_validate_invalid_blade_with_vowel() {
    let state = create_test_state();
    // Blade with the vowel 'e'.
    let result = validate_ark(&state, "ark:/12345/x6nmked123", None);

    assert!(!result.valid);
    assert!(result.error.is_some());
    assert!(result.error.unwrap().contains("betanumeric"));
}

#[test]
fn test_validate_invalid_blade_with_special_char() {
    let state = create_test_state();
    // Blade with the special character '@'.
    let result = validate_ark(&state, "ark:/12345/x6nmkd@123", None);

    assert!(!result.valid);
    assert!(result.error.is_some());
    assert!(result.error.unwrap().contains("betanumeric"));
}

#[test]
fn validate_unknown_shoulder_without_hint_is_refused() {
    let state = create_test_state();
    let result = validate_ark(&state, "ark:/12345/z9nmkd123", None);

    assert!(!result.valid);
    assert_eq!(result.shoulder_registered, Some(false));
    assert_eq!(result.has_check_character, None);
    assert_eq!(result.check_character_valid, None);
    assert!(result.error.unwrap().contains("Unknown shoulder"));
}

#[test]
fn parse_error_result_shape() {
    let r = ValidationResult::parse_error();
    assert!(!r.valid);
    assert_eq!(r.naan, None);
    assert_eq!(r.error, Some("Failed to parse ARK structure".to_string()));
    assert_eq!(r.warnings, None);
}
