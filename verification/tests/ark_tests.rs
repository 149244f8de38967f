use ark_service::{extract_shoulder, parse_ark};

#[test]
fn test_shoulder_extraction() {
    assert_eq!(extract_shoulder("x6np1wh8k"), Some("x6"));
    assert_eq!(extract_shoulder("b3test"), Some("b3"));
    assert_eq!(extract_shoulder("abc7def"), Some("abc7"));
    assert_eq!(extract_shoulder("xyz"), None); // No digit
}

#[test]
fn test_ark_parsing() {
    let ark = "ark:12345/x6np1wh8k/nl7l/page2.pdf";
    let parsed = parse_ark(ark).unwrap();

    assert_eq!(parsed.naan, "12345");
    assert_eq!(parsed.shoulder, "x6");
    assert_eq!(parsed.blade, "np1wh8k");
    assert_eq!(parsed.qualifier, "nl7l/page2.pdf");
}

#[test]
fn test_ark_parsing_both_formats() {
    let modern = parse_ark("ark:12345/x6np1wh8k").unwrap();
    let classic = parse_ark("ark:/12345/x6np1wh8k").unwrap();

    assert_eq!(modern, classic);
}

#[test]
fn test_hyphen_removal() {
    // Hyphens are identity-inert for comparison, but the original form is
    // kept for resolution.
    let with_hyphens = parse_ark("ark:12345/x5-4-xz-321").unwrap();
    let without_hyphens = parse_ark("ark:12345/x54xz321").unwrap();

    // Equality comparison uses the normalized form.
    assert_eq!(with_hyphens, without_hyphens);

    // But original components are preserved.
    assert_eq!(with_hyphens.shoulder, "x5");
    assert_eq!(with_hyphens.blade, "-4-xz-321"); // Hyphens preserved!

    // Without hyphens has clean components.
    assert_eq!(without_hyphens.shoulder, "x5");
    assert_eq!(without_hyphens.blade, "4xz321");
}

#[test]
fn test_hyphen_like_character_removal() {
    // Removal of the hyphen-like characters U+2010 to U+2015.
    let with_en_dash = parse_ark("ark:12345/x6np–1wh8k").unwrap(); // U+2013 EN DASH
    let with_em_dash = parse_ark("ark:12345/x6np—1wh8k").unwrap(); // U+2014 EM DASH
    let normal = parse_ark("ark:12345/x6np1wh8k").unwrap();

    assert_eq!(with_en_dash, normal);
    assert_eq!(with_em_dash, normal);
}

#[test]
fn test_query_string_removal() {
    // Query strings are removed during normalization for comparison only.
    let with_query = parse_ark("ark:12345/x6np1wh8k?foo=bar&baz=qux").unwrap();
    let without_query = parse_ark("ark:12345/x6np1wh8k").unwrap();

    // Equal for comparison (normalized form strips query string).
    assert_eq!(with_query, without_query);

    // But original preserves query string.
    assert_eq!(with_query.original, "ark:12345/x6np1wh8k?foo=bar&baz=qux");
    assert_eq!(without_query.original, "ark:12345/x6np1wh8k");
}

#[test]
fn test_query_string_with_qualifier() {
    let with_query = parse_ark("ark:12345/x6np1wh8k/page2?foo=bar").unwrap();
    let without_query = parse_ark("ark:12345/x6np1wh8k/page2").unwrap();

    // Equal for comparison.
    assert_eq!(with_query, without_query);

    // Qualifier includes query string (for forwarding during resolution).
    assert_eq!(with_query.qualifier, "page2?foo=bar");

    // But original also includes query string.
    assert_eq!(with_query.original, "ark:12345/x6np1wh8k/page2?foo=bar");
}

#[test]
fn test_query_string_without_path_qualifier() {
    // Query string becomes the qualifier when there's no path.
    let with_query = parse_ark("ark:12345/x6np1wh8k?info").unwrap();
    let without_query = parse_ark("ark:12345/x6np1wh8k").unwrap();

    // Equal for comparison (normalized form removes query).
    assert_eq!(with_query, without_query);

    // Components.
    assert_eq!(with_query.naan, "12345");
    assert_eq!(with_query.shoulder, "x6");
    assert_eq!(with_query.blade, "np1wh8k");
    // Query string is the qualifier.
    assert_eq!(with_query.qualifier, "?info");

    // Without query has empty qualifier.
    assert_eq!(without_query.qualifier, "");
}

#[test]
fn test_trailing_slash_removal() {
    let with_trailing = parse_ark("ark:12345/x6np1wh8k/").unwrap();
    let without_trailing = parse_ark("ark:12345/x6np1wh8k").unwrap();

    assert_eq!(with_trailing, without_trailing);
}

#[test]
fn test_trailing_period_removal() {
    let with_trailing = parse_ark("ark:12345/x6np1wh8k.").unwrap();
    let without_trailing = parse_ark("ark:12345/x6np1wh8k").unwrap();

    assert_eq!(with_trailing, without_trailing);
}

#[test]
fn test_trailing_structural_chars_on_qualifier() {
    // Trailing chars are preserved in the original, but removed in the
    // normalized form.
    let ark = parse_ark("ark:12345/x6np1wh8k/page2.pdf/").unwrap();
    assert_eq!(ark.qualifier, "page2.pdf/"); // Original preserved

    let ark2 = parse_ark("ark:12345/x6np1wh8k/page2.").unwrap();
    assert_eq!(ark2.qualifier, "page2."); // Original preserved

    // But they're equal to versions without trailing chars.
    let clean1 = parse_ark("ark:12345/x6np1wh8k/page2.pdf").unwrap();
    let clean2 = parse_ark("ark:12345/x6np1wh8k/page2").unwrap();
    assert_eq!(ark, clean1);
    assert_eq!(ark2, clean2);
}

#[test]
fn test_naan_lowercase_normalization() {
    // The NAAN is normalized to lowercase for comparison, but the original
    // case is kept for resolution.
    let uppercase_naan = parse_ark("ark:ABCDE/x6np1wh8k").unwrap();
    let lowercase_naan = parse_ark("ark:abcde/x6np1wh8k").unwrap();
    let mixed_case = parse_ark("ark:AbCdE/x6np1wh8k").unwrap();

    // Equality uses the normalized form.
    assert_eq!(uppercase_naan, lowercase_naan);
    assert_eq!(uppercase_naan, mixed_case);

    // But original case is preserved in fields.
    assert_eq!(uppercase_naan.naan, "ABCDE");
    assert_eq!(lowercase_naan.naan, "abcde");
    assert_eq!(mixed_case.naan, "AbCdE");
}

#[test]
fn test_combined_normalization() {
    // Multiple normalization features together, as if the identifier was
    // copy-pasted from formatted text.
    let messy = parse_ark("ark:/ABCDE/x6-np-1wh8k/page2.pdf/?foo=bar").unwrap();
    let clean = parse_ark("ark:abcde/x6np1wh8k/page2.pdf").unwrap();

    // They're equal for comparison (normalized).
    assert_eq!(messy, clean);

    // But the messy form preserves original components (with the query
    // string in the qualifier).
    assert_eq!(messy.naan, "ABCDE"); // Original case preserved
    assert_eq!(messy.shoulder, "x6");
    assert_eq!(messy.blade, "-np-1wh8k"); // Hyphens preserved
    assert_eq!(messy.qualifier, "page2.pdf/?foo=bar"); // Trailing slash AND query preserved

    // The clean form has normalized components.
    assert_eq!(clean.naan, "abcde");
    assert_eq!(clean.shoulder, "x6");
    assert_eq!(clean.blade, "np1wh8k");
    assert_eq!(clean.qualifier, "page2.pdf");
}

#[test]
fn test_whitespace_removal() {
    // White space from text wrapping or copy-paste normalizes away.
    let with_spaces = parse_ark("ark:12345/x6np 1wh8k").unwrap();
    let with_newline = parse_ark("ark:12345/x6np\n1wh8k").unwrap();
    let with_tab = parse_ark("ark:12345/x6np\t1wh8k").unwrap();
    let clean = parse_ark("ark:12345/x6np1wh8k").unwrap();

    // All should be equal when normalized.
    assert_eq!(with_spaces, clean);
    assert_eq!(with_newline, clean);
    assert_eq!(with_tab, clean);

    // But original components preserve white space.
    assert_eq!(with_spaces.blade, "np 1wh8k");
    assert_eq!(with_newline.blade, "np\n1wh8k");
    assert_eq!(with_tab.blade, "np\t1wh8k");
}

#[test]
fn test_line_wrapped_ark() {
    // An identifier that was line-wrapped in an email or document.
    let wrapped = parse_ark("ark:12345/x6np1wh8k/\npage2.pdf").unwrap();
    let clean = parse_ark("ark:12345/x6np1wh8k/page2.pdf").unwrap();

    assert_eq!(wrapped, clean);
    assert_eq!(wrapped.qualifier, "\npage2.pdf"); // Original preserves newline
}

#[test]
fn test_rfc_example_equivalence() {
    // These identifiers should be equivalent for comparison:
    // ark:12345/x5-4-xz-321, ark:12345/x54--xz32-1, ark:12345/x54xz321
    let ark1 = parse_ark("ark:12345/x5-4-xz-321").unwrap();
    let ark2 = parse_ark("ark:12345/x54--xz32-1").unwrap();
    let ark3 = parse_ark("ark:12345/x54xz321").unwrap();

    // All three are equal for comparison.
    assert_eq!(ark1, ark2);
    assert_eq!(ark2, ark3);

    // But they preserve their original forms.
    assert_eq!(ark1.shoulder, "x5");
    assert_eq!(ark1.blade, "-4-xz-321"); // Hyphens preserved

    assert_eq!(ark2.shoulder, "x5");
    assert_eq!(ark2.blade, "4--xz32-1"); // Hyphens preserved

    assert_eq!(ark3.shoulder, "x5");
    assert_eq!(ark3.blade, "4xz321"); // No hyphens in original
}

#[test]
fn parse_rejects_missing_scheme() {
    assert!(parse_ark("doi:12345/x6np1wh8k").is_none());
    assert!(parse_ark("").is_none());
}

#[test]
fn parse_rejects_missing_blade_segment() {
    // No slash after the NAAN.
    assert!(parse_ark("ark:12345").is_none());
}

#[test]
fn parse_rejects_missing_shoulder_digit() {
    // No digit before the query string: the digit inside the query must not
    // become part of the shoulder.
    assert!(parse_ark("ark:12345/xyz").is_none());
    assert!(parse_ark("ark:12345/xyz?page2").is_none());
}
