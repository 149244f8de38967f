use ark_service::{parse_ark, parse_shoulders_simple, validate_registry, Shoulder};
use url::Url;

// Security validation tests

#[test]
fn test_validate_route_pattern_valid_urls() {
    let valid_patterns = vec![
        "https://example.org/",
        "http://example.org/items",
        "https://example.org/${value}",
        "https://api.example.org/resolve?id=${pid}",
        "https://example.org/path/${value}/more",
    ];

    for pattern in valid_patterns {
        let shoulder = Shoulder {
            route_pattern: pattern.to_string(),
            project_name: "Test".to_string(),
            ..Default::default()
        };
        assert!(
            shoulder.validate_route_pattern().is_ok(),
            "Should accept valid pattern: {}",
            pattern
        );
    }
}

#[test]
fn test_validate_route_pattern_invalid_schemes() {
    let invalid_schemes = vec![
        "javascript:alert(1)",
        "data:text/html,<script>alert(1)</script>",
        "file:///etc/passwd",
        "ftp://example.org/",
    ];

    for pattern in invalid_schemes {
        let shoulder = Shoulder {
            route_pattern: pattern.to_string(),
            project_name: "Test".to_string(),
            ..Default::default()
        };
        assert!(
            shoulder.validate_route_pattern().is_err(),
            "Should reject invalid scheme: {}",
            pattern
        );
    }
}

#[test]
fn test_validate_route_pattern_template_in_scheme() {
    let patterns = vec![
        "${scheme}://example.org/",
        "{scheme}://example.org/",
        "ht${value}://example.org/",
    ];

    for pattern in patterns {
        let shoulder = Shoulder {
            route_pattern: pattern.to_string(),
            project_name: "Test".to_string(),
            ..Default::default()
        };
        assert!(
            shoulder.validate_route_pattern().is_err(),
            "Should reject template in scheme: {}",
            pattern
        );
    }
}

#[test]
fn test_validate_route_pattern_template_in_host() {
    let patterns = vec![
        "https://${value}.example.org/",
        "https://evil${pid}.com/",
        "https://example.${content}/",
    ];

    for pattern in patterns {
        let shoulder = Shoulder {
            route_pattern: pattern.to_string(),
            project_name: "Test".to_string(),
            ..Default::default()
        };
        assert!(
            shoulder.validate_route_pattern().is_err(),
            "Should reject template in host: {}",
            pattern
        );
    }
}

#[test]
fn test_validate_route_pattern_control_characters() {
    let patterns = vec![
        "https://example.org/\r\n",
        "https://example.org/\x00",
        "https://example.org/\t",
    ];

    for pattern in &patterns {
        let shoulder = Shoulder {
            route_pattern: pattern.to_string(),
            project_name: "Test".to_string(),
            ..Default::default()
        };
        assert!(
            shoulder.validate_route_pattern().is_err(),
            "Should reject control characters"
        );
    }
}

#[test]
fn test_validate_route_pattern_malformed_urls() {
    let patterns = vec!["not-a-url", "://missing-scheme", "https://", ""];

    for pattern in patterns {
        let shoulder = Shoulder {
            route_pattern: pattern.to_string(),
            project_name: "Test".to_string(),
            ..Default::default()
        };
        assert!(
            shoulder.validate_route_pattern().is_err(),
            "Should reject malformed URL: {}",
            pattern
        );
    }
}

#[test]
fn test_resolve_blocks_malicious_ark_components() {
    // Even if identifier components carry malicious content, the final URL
    // validation catches it.
    let shoulder = Shoulder {
        route_pattern: "https://example.org/${value}".to_string(),
        project_name: "Test".to_string(),
        ..Default::default()
    };

    let test_cases = vec![
        ("ark:12345/x6test", "https://example.org/x6test"),
        // Normal case - should work
    ];

    for (ark_str, expected) in test_cases {
        if let Some(parsed) = parse_ark(ark_str) {
            let result = shoulder.resolve(&parsed);
            // If it's a valid redirect, check it matches expected.
            // If it's blocked, it will be about:blank#error=...
            if !result.starts_with("about:blank") {
                assert_eq!(result, expected);
            }
        }
    }
}

#[test]
fn test_resolve_validates_final_url() {
    // URL validation of the final constructed redirect.
    let shoulder = Shoulder {
        route_pattern: "https://example.org/${value}".to_string(),
        project_name: "Test".to_string(),
        ..Default::default()
    };

    let ark = parse_ark("ark:12345/x6test").unwrap();
    let result = shoulder.resolve(&ark);

    // Should be a valid URL.
    assert!(Url::parse(&result).is_ok());

    // Should be https.
    let parsed = Url::parse(&result).unwrap();
    assert!(parsed.scheme() == "https" || result.starts_with("about:blank"));
}

#[test]
fn test_parse_shoulders_simple() {
    // Valid: single and multiple shoulders with complex URLs and special
    // characters in names.
    let simple = "x6\thttps://alpha.tm.org:8080/${value}\tProject Alpha,b3\thttp://beta.tm.org\tProject: Beta";
    let shoulders = parse_shoulders_simple(simple).unwrap();

    assert_eq!(shoulders.len(), 2);

    let x6 = shoulders.get("x6").unwrap();
    assert_eq!(x6.route_pattern, "https://alpha.tm.org:8080/${value}");
    assert_eq!(x6.project_name, "Project Alpha");
    assert!(x6.uses_check_character);
    assert_eq!(x6.blade_length, None);

    let b3 = shoulders.get("b3").unwrap();
    assert_eq!(b3.route_pattern, "http://beta.tm.org");
    assert_eq!(b3.project_name, "Project: Beta");

    // Skip invalid entries (wrong number of parts).
    let mixed = "invalid,x6\thttps://example.org\tTest";
    assert_eq!(parse_shoulders_simple(mixed).unwrap().len(), 1);

    // Error on all invalid.
    assert!(parse_shoulders_simple("").is_err());
    assert!(parse_shoulders_simple("invalid").is_err());
    assert!(parse_shoulders_simple("x6\tonly_two").is_err());
    assert!(parse_shoulders_simple("x6\ttoo\tmany\tparts").is_err());
}

#[test]
fn test_parse_shoulders_simple_escaped_tabs() {
    // Escaped \t sequences, as they appear in environment files.
    let escaped = r"b1\thttps://ark.timeatlas.eu/${pid}\tTime Atlas";
    let shoulders = parse_shoulders_simple(escaped).unwrap();

    assert_eq!(shoulders.len(), 1);

    let b1 = shoulders.get("b1").unwrap();
    assert_eq!(b1.route_pattern, "https://ark.timeatlas.eu/${pid}");
    assert_eq!(b1.project_name, "Time Atlas");
    assert!(b1.uses_check_character);

    // Multiple shoulders using escaped tabs.
    let multiple_escaped =
        r"x6\thttps://example.org/${value}\tProject X,b3\thttps://test.org/${pid}\tProject B";
    let shoulders = parse_shoulders_simple(multiple_escaped).unwrap();
    assert_eq!(shoulders.len(), 2);
}

// Template resolution tests

#[test]
fn test_resolve_all_placeholders() {
    let ark = "ark:12345/x6np1wh8k/page2.pdf";
    let parsed = parse_ark(ark).unwrap();

    // All standard variables in realistic URL contexts.
    let shoulder_pid = Shoulder {
        route_pattern: "https://example.org/resolve?id=${pid}".to_string(),
        project_name: "Test".to_string(),
        ..Default::default()
    };
    assert_eq!(
        shoulder_pid.resolve(&parsed),
        "https://example.org/resolve?id=ark:12345/x6np1wh8k/page2.pdf"
    );

    let shoulder_content = Shoulder {
        route_pattern: "https://example.org/${content}".to_string(),
        project_name: "Test".to_string(),
        ..Default::default()
    };
    assert_eq!(
        shoulder_content.resolve(&parsed),
        "https://example.org/12345/x6np1wh8k/page2.pdf"
    );

    let shoulder_prefix = Shoulder {
        route_pattern: "https://example.org/${prefix}/items".to_string(),
        project_name: "Test".to_string(),
        ..Default::default()
    };
    assert_eq!(
        shoulder_prefix.resolve(&parsed),
        "https://example.org/12345/items"
    );

    let shoulder_value = Shoulder {
        route_pattern: "https://example.org/objects/${value}".to_string(),
        project_name: "Test".to_string(),
        ..Default::default()
    };
    assert_eq!(
        shoulder_value.resolve(&parsed),
        "https://example.org/objects/x6np1wh8k/page2.pdf"
    );

    // A complex template with multiple variables.
    let shoulder_complex = Shoulder {
        route_pattern: "https://example.org/view?ark=${pid}&naan=${prefix}&id=${value}"
            .to_string(),
        project_name: "Test".to_string(),
        ..Default::default()
    };
    let expected = "https://example.org/view?ark=ark:12345/x6np1wh8k/page2.pdf&naan=12345&id=x6np1wh8k/page2.pdf";
    assert_eq!(shoulder_complex.resolve(&parsed), expected);
}

#[test]
fn test_resolve_without_qualifier() {
    let ark = "ark:12345/x6np1wh8k";
    let parsed = parse_ark(ark).unwrap();

    let shoulder = Shoulder {
        route_pattern: "https://example.org/items/${value}".to_string(),
        project_name: "Test".to_string(),
        ..Default::default()
    };
    assert_eq!(
        shoulder.resolve(&parsed),
        "https://example.org/items/x6np1wh8k"
    );
}

#[test]
fn test_resolve_with_query_string() {
    // Query strings are forwarded with template variables.
    let ark = "ark:12345/x6np1wh8k?info";
    let parsed = parse_ark(ark).unwrap();

    // With the ${value} template.
    let shoulder = Shoulder {
        route_pattern: "https://example.org/items/${value}".to_string(),
        project_name: "Test".to_string(),
        ..Default::default()
    };
    assert_eq!(
        shoulder.resolve(&parsed),
        "https://example.org/items/x6np1wh8k?info"
    );

    // With the ${pid} template.
    let shoulder2 = Shoulder {
        route_pattern: "https://example.org/resolve?id=${pid}".to_string(),
        project_name: "Test".to_string(),
        ..Default::default()
    };
    assert_eq!(
        shoulder2.resolve(&parsed),
        "https://example.org/resolve?id=ark:12345/x6np1wh8k?info"
    );

    // With no template variables.
    let shoulder3 = Shoulder {
        route_pattern: "https://example.org/".to_string(),
        project_name: "Test".to_string(),
        ..Default::default()
    };
    assert_eq!(
        shoulder3.resolve(&parsed),
        "https://example.org/ark:12345/x6np1wh8k?info"
    );
}

#[test]
fn test_resolve_real_world_examples() {
    let ark = "ark:99999/fk4test123/metadata.xml";
    let parsed = parse_ark(ark).unwrap();

    // Simple redirect: the full identifier is appended to the base URL.
    let shoulder1 = Shoulder {
        route_pattern: "https://example.org/".to_string(),
        project_name: "Test".to_string(),
        ..Default::default()
    };
    assert_eq!(
        shoulder1.resolve(&parsed),
        "https://example.org/ark:99999/fk4test123/metadata.xml"
    );

    // The ${value} variable (most common).
    let shoulder2 = Shoulder {
        route_pattern: "https://ark.example.org/mycontent/${value}".to_string(),
        project_name: "Test".to_string(),
        ..Default::default()
    };
    assert_eq!(
        shoulder2.resolve(&parsed),
        "https://ark.example.org/mycontent/fk4test123/metadata.xml"
    );

    // ${pid} as a query parameter.
    let shoulder3 = Shoulder {
        route_pattern: "https://resolver.example.org/resolve?id=${pid}".to_string(),
        project_name: "Test".to_string(),
        ..Default::default()
    };
    assert_eq!(
        shoulder3.resolve(&parsed),
        "https://resolver.example.org/resolve?id=ark:99999/fk4test123/metadata.xml"
    );

    // ${content} (without the scheme prefix).
    let shoulder4 = Shoulder {
        route_pattern: "https://api.example.org/v1/objects/${content}".to_string(),
        project_name: "Test".to_string(),
        ..Default::default()
    };
    assert_eq!(
        shoulder4.resolve(&parsed),
        "https://api.example.org/v1/objects/99999/fk4test123/metadata.xml"
    );

    // ${prefix} and ${value} separately.
    let shoulder5 = Shoulder {
        route_pattern: "https://storage.example.org/${prefix}/items/${value}".to_string(),
        project_name: "Test".to_string(),
        ..Default::default()
    };
    assert_eq!(
        shoulder5.resolve(&parsed),
        "https://storage.example.org/99999/items/fk4test123/metadata.xml"
    );
}

#[test]
fn resolve_rejects_disallowed_scheme_with_inert_url() {
    // A pattern with a non-http scheme never escapes as a redirect target:
    // the result is the inert about:blank URL carrying the encoded error.
    let shoulder = Shoulder {
        route_pattern: "ftp://example.org/${value}".to_string(),
        project_name: "Test".to_string(),
        ..Default::default()
    };
    let parsed = parse_ark("ark:12345/x6test").unwrap();
    let result = shoulder.resolve(&parsed);

    let expected_msg = "Redirect URL has invalid scheme (expected http/https): ftp";
    let expected = format!("about:blank#error={}", urlencoding::encode(expected_msg));
    assert_eq!(result, expected);
}

#[test]
fn resolve_normalizes_through_url_parser() {
    // The returned target is the parsed URL's serialization, not the raw
    // substituted text: a bare authority gains its root slash.
    let shoulder = Shoulder {
        route_pattern: "https://example.org?id=${value}".to_string(),
        project_name: "Test".to_string(),
        ..Default::default()
    };
    let parsed = parse_ark("ark:12345/x6test").unwrap();
    assert_eq!(shoulder.resolve(&parsed), "https://example.org/?id=x6test");
}

#[test]
fn registry_validation_fails_on_any_bad_pattern() {
    let good = parse_shoulders_simple("x6\thttps://example.org/${value}\tGood").unwrap();
    assert!(validate_registry(&good).is_ok());

    let bad =
        parse_shoulders_simple("x6\thttps://example.org/${value}\tGood,z9\tjavascript:alert(1)\tEvil")
            .unwrap();
    let err = validate_registry(&bad).unwrap_err();
    assert!(err.contains("Security validation failed"));
}
