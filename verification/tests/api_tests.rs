use ark_service::{
    handle_mint, handle_validate, resolve_redirect, shoulder_infos, AppError, AppState,
    MintRequest, Shoulder, ShoulderRegistry, ValidateRequest,
};

fn create_test_state() -> AppState {
    let mut shoulders = ShoulderRegistry::new();
    shoulders.insert(
        "x6".to_string(),
        Shoulder {
            route_pattern: "https://example.org/${value}".to_string(),
            project_name: "Test Project".to_string(),
            ..Default::default()
        },
    );
    shoulders.insert(
        "b3".to_string(),
        Shoulder {
            route_pattern: "https://beta.org/items/${value}".to_string(),
            project_name: "Beta Project".to_string(),
            uses_check_character: false,
            ..Default::default()
        },
    );

    AppState {
        naan: "12345".to_string(),
        default_blade_length: 8,
        max_mint_count: 1000,
        shoulders,
    }
}

#[test]
fn mint_endpoint_returns_requested_count() {
    let state = create_test_state();
    let request = MintRequest {
        shoulder: "x6".to_string(),
        count: 3,
    };

    let response = handle_mint(&state, &request).unwrap();
    assert_eq!(response.count, 3);
    assert_eq!(response.arks.len(), 3);
    for ark in &response.arks {
        assert!(ark.starts_with("ark:12345/x6"));
    }
}

#[test]
fn mint_endpoint_rejects_unknown_shoulder() {
    let state = create_test_state();
    let request = MintRequest {
        shoulder: "z9".to_string(),
        count: 1,
    };

    let result = handle_mint(&state, &request);
    assert!(matches!(result, Err(AppError::ShoulderNotFound)));
}

#[test]
fn validate_endpoint_preserves_order() {
    let state = create_test_state();
    let request = ValidateRequest {
        arks: vec![
            "ark:12345/x6test123".to_string(),
            "ark:12345/b3data456".to_string(),
        ],
        has_check_character: None,
    };

    let response = handle_validate(&state, &request);
    assert_eq!(response.results.len(), 2);
    assert_eq!(response.results[0].ark, "ark:12345/x6test123");
    assert_eq!(response.results[1].ark, "ark:12345/b3data456");
}

#[test]
fn validate_endpoint_accepts_checkless_shoulder() {
    let state = create_test_state();
    let request = ValidateRequest {
        arks: vec!["ark:12345/b3nmkd456".to_string()],
        has_check_character: None,
    };

    let response = handle_validate(&state, &request);
    // b3 does not use check characters, so its entry is valid as-is.
    assert!(response.results[0].valid);
    assert_eq!(response.results[0].has_check_character, Some(false));
}

#[test]
fn info_lists_every_shoulder_with_example() {
    let state = create_test_state();
    let infos = shoulder_infos(&state);

    assert_eq!(infos.len(), 2);
    let names: Vec<&str> = infos.iter().map(|s| s.shoulder.as_str()).collect();
    assert!(names.contains(&"x6"));
    assert!(names.contains(&"b3"));
    for info in &infos {
        assert_eq!(info.blade_length, 8);
        assert!(info.example_ark.starts_with("ark:12345/"));
    }
}

#[test]
fn resolve_endpoint_success() {
    let state = create_test_state();
    let target = resolve_redirect(&state, "ark:12345/x6np1wh8k").unwrap();
    assert_eq!(target, "https://example.org/x6np1wh8k");
}

#[test]
fn resolve_endpoint_with_qualifier() {
    let state = create_test_state();
    let target = resolve_redirect(&state, "ark:12345/x6np1wh8k/page2.pdf").unwrap();
    assert_eq!(target, "https://example.org/x6np1wh8k/page2.pdf");
}

#[test]
fn resolve_endpoint_with_query_string() {
    let state = create_test_state();
    let target = resolve_redirect(&state, "ark:12345/x6np1wh8k?info").unwrap();
    assert_eq!(target, "https://example.org/x6np1wh8k?info");
}

#[test]
fn resolve_endpoint_rejects_wrong_naan() {
    let state = create_test_state();
    let result = resolve_redirect(&state, "ark:99999/x6np1wh8k");
    assert!(matches!(result, Err(AppError::InvalidNaan)));
}

#[test]
fn resolve_endpoint_rejects_unknown_shoulder() {
    let state = create_test_state();
    let result = resolve_redirect(&state, "ark:12345/z9unknown");
    assert!(matches!(result, Err(AppError::ShoulderNotFound)));
}

#[test]
fn resolve_endpoint_rejects_malformed_ark() {
    let state = create_test_state();
    let result = resolve_redirect(&state, "ark:invalid");
    assert!(matches!(result, Err(AppError::InvalidArk)));
}

#[test]
fn registry_insert_replaces_existing_entry() {
    let mut shoulders = ShoulderRegistry::new();
    shoulders.insert(
        "x6".to_string(),
        Shoulder {
            route_pattern: "https://old.example.org/${value}".to_string(),
            project_name: "Old".to_string(),
            ..Default::default()
        },
    );
    shoulders.insert(
        "x6".to_string(),
        Shoulder {
            route_pattern: "https://new.example.org/${value}".to_string(),
            project_name: "New".to_string(),
            ..Default::default()
        },
    );

    assert_eq!(shoulders.len(), 1);
    let x6 = shoulders.get("x6").unwrap();
    assert_eq!(x6.route_pattern, "https://new.example.org/${value}");
    assert_eq!(x6.project_name, "New");
}

#[test]
fn error_messages_are_stable() {
    assert_eq!(AppError::ShoulderNotFound.message(), "Shoulder not found");
    assert_eq!(AppError::InvalidArk.message(), "Invalid ARK format");
    assert_eq!(AppError::InvalidNaan.message(), "NAAN does not match");
}
