use ark_service::{
    generate_random_blade, mint_ark, mint_arks, parse_ark, AppError, AppState, Shoulder,
    ShoulderRegistry,
};

const BETANUMERIC: &[u8] = b"0123456789bcdfghjkmnpqrstvwxz";

fn create_test_state(uses_check_character: bool) -> AppState {
    let mut shoulders = ShoulderRegistry::new();
    shoulders.insert(
        "x6".to_string(),
        Shoulder {
            route_pattern: "https://example.org/${value}".to_string(),
            project_name: "Test Project".to_string(),
            uses_check_character,
            ..Default::default()
        },
    );

    AppState {
        naan: "12345".to_string(),
        default_blade_length: 8,
        max_mint_count: 1000,
        shoulders,
    }
}

#[test]
fn mints_requested_number_of_arks() {
    let state = create_test_state(true);
    let arks = mint_arks(&state, "x6", 5).unwrap();

    assert_eq!(arks.len(), 5);
    for ark in arks {
        assert!(ark.starts_with("ark:12345/x6"));
    }
}

#[test]
fn enforces_maximum_count_limit() {
    let state = create_test_state(true);
    let arks = mint_arks(&state, "x6", 5000).unwrap();

    assert_eq!(arks.len(), 1000);
}

#[test]
fn returns_error_for_invalid_shoulder() {
    let state = create_test_state(true);
    let result = mint_arks(&state, "invalid", 1);

    assert!(matches!(result, Err(AppError::ShoulderNotFound)));
}

#[test]
fn mints_ark_with_check_character() {
    let ark = mint_ark("12345", "x6", 8, true);

    assert!(ark.starts_with("ark:12345/x6"));
    assert_eq!(ark.len(), "ark:12345/x6".len() + 9); // 8 blade + 1 check

    let parsed = parse_ark(&ark).unwrap();
    assert_eq!(parsed.naan, "12345");
    assert_eq!(parsed.shoulder, "x6");
    assert_eq!(parsed.blade.len(), 9);
}

#[test]
fn mints_ark_without_check_character() {
    let ark = mint_ark("12345", "x6", 8, false);

    assert!(ark.starts_with("ark:12345/x6"));
    assert_eq!(ark.len(), "ark:12345/x6".len() + 8); // 8 blade only

    let parsed = parse_ark(&ark).unwrap();
    assert_eq!(parsed.naan, "12345");
    assert_eq!(parsed.shoulder, "x6");
    assert_eq!(parsed.blade.len(), 8);
}

#[test]
fn generates_random_betanumeric_blades() {
    let blade1 = generate_random_blade(8);
    let blade2 = generate_random_blade(8);

    assert_eq!(blade1.len(), 8);
    assert_eq!(blade2.len(), 8);
    assert_ne!(blade1, blade2);

    for ch in blade1.chars().chain(blade2.chars()) {
        assert!(BETANUMERIC.contains(&(ch as u8)));
    }
}

#[test]
fn uses_shoulder_specific_blade_length() {
    let mut shoulders = ShoulderRegistry::new();
    // Shoulder with custom blade length.
    shoulders.insert(
        "x6".to_string(),
        Shoulder {
            route_pattern: "https://example.org/${value}".to_string(),
            project_name: "Custom Length Project".to_string(),
            uses_check_character: false,
            blade_length: Some(12),
        },
    );
    // Shoulder using the default blade length.
    shoulders.insert(
        "b3".to_string(),
        Shoulder {
            route_pattern: "https://example.org/${value}".to_string(),
            project_name: "Default Length Project".to_string(),
            uses_check_character: false,
            ..Default::default()
        },
    );

    let state = AppState {
        naan: "12345".to_string(),
        default_blade_length: 8,
        max_mint_count: 1000,
        shoulders,
    };

    // Shoulder with custom blade length (12 characters).
    let arks_x6 = mint_arks(&state, "x6", 1).unwrap();
    assert_eq!(arks_x6.len(), 1);
    let parsed_x6 = parse_ark(&arks_x6[0]).unwrap();
    assert_eq!(parsed_x6.blade.len(), 12); // Custom length

    // Shoulder with default blade length (8 characters).
    let arks_b3 = mint_arks(&state, "b3", 1).unwrap();
    assert_eq!(arks_b3.len(), 1);
    let parsed_b3 = parse_ark(&arks_b3[0]).unwrap();
    assert_eq!(parsed_b3.blade.len(), 8); // Default length
}

#[test]
fn uses_shoulder_blade_length_with_check_character() {
    let mut shoulders = ShoulderRegistry::new();
    shoulders.insert(
        "fk4".to_string(),
        Shoulder {
            route_pattern: "https://example.org/${value}".to_string(),
            project_name: "Custom Length with Check".to_string(),
            blade_length: Some(10),
            ..Default::default()
        },
    );

    let state = AppState {
        naan: "99999".to_string(),
        default_blade_length: 8,
        max_mint_count: 1000,
        shoulders,
    };

    let arks = mint_arks(&state, "fk4", 1).unwrap();
    assert_eq!(arks.len(), 1);
    let parsed = parse_ark(&arks[0]).unwrap();
    // Blade should be 11 characters (10 + 1 check character).
    assert_eq!(parsed.blade.len(), 11);
    assert_eq!(parsed.naan, "99999");
    assert_eq!(parsed.shoulder, "fk4");
}

#[test]
fn minted_ark_with_check_character_validates() {
    let ark = mint_ark("12345", "x6", 8, true);
    let parsed = parse_ark(&ark).unwrap();
    let identifier = format!("{}{}", parsed.shoulder, parsed.blade);
    assert!(ark_service::validate_check_character(&identifier));
}
