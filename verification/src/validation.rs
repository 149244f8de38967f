//! Structured validation of identifier strings: parsing, character set,
//! NAAN match, registry membership, and check character verification.

use vstd::prelude::*;

use crate::ark::{parse_ark, spec_blade, spec_naan, spec_parse_ok, spec_shoulder};
use crate::check_character::{
    is_betanumeric_char, is_betanumeric_char_of, spec_validate_check_character,
    validate_check_character,
};
use crate::config::AppState;
use crate::minting::all_betanumeric;
use crate::shoulder::Shoulder;
use crate::text::{chars_to_string, push_all, to_char_vec};

verus! {

/// Result of validating one identifier string.
#[derive(Debug, Clone, PartialEq)]
pub struct ValidationResult {
    pub valid: bool,
    pub naan: Option<String>,
    pub shoulder: Option<String>,
    pub blade: Option<String>,
    pub shoulder_registered: Option<bool>,
    pub has_check_character: Option<bool>,
    pub check_character_valid: Option<bool>,
    pub error: Option<String>,
    pub warnings: Option<Vec<String>>,
}

impl ValidationResult {
    /// The result reported when the identifier string cannot be parsed.
    pub fn parse_error() -> (r: ValidationResult)
        ensures
            r.valid == false,
            r.naan is None,
            r.shoulder is None,
            r.blade is None,
            r.shoulder_registered is None,
            r.has_check_character is None,
            r.check_character_valid is None,
            r.error matches Some(m) && m@ == "Failed to parse ARK structure"@,
            r.warnings is None,
    {
        ValidationResult {
            valid: false,
            naan: None,
            shoulder: None,
            blade: None,
            shoulder_registered: None,
            has_check_character: None,
            check_character_valid: None,
            error: Some(String::from_str("Failed to parse ARK structure")),
            warnings: None,
        }
    }
}

/// Whether a check character should be verified: an explicit hint wins;
/// otherwise the registered shoulder's setting applies; an unregistered
/// shoulder with no hint leaves the intent undecidable.
pub open spec fn spec_should_check(hint: Option<bool>, config: Option<Shoulder>) -> Option<bool> {
    match hint {
        Some(h) => Some(h),
        None => match config {
            Some(c) => Some(c.uses_check_character),
            None => None,
        },
    }
}

/// Betanumeric character-set test over a string slice.
pub fn is_betanumeric(s: &str) -> (r: bool)
    ensures
        r == all_betanumeric(s@),
{
    let v = to_char_vec(s);
    let n = v.len();
    let mut i: usize = 0;
    while i < n
        invariant
            v@ == s@,
            i <= n == s@.len(),
            forall|k: int| 0 <= k < i ==> is_betanumeric_char(s@[k]),
        decreases n - i,
    {
        if !is_betanumeric_char_of(v[i]) {
            return false;
        }
        i = i + 1;
    }
    true
}

/// The full validation verdict for one identifier string: what each field
/// of the result must hold, given the service state and the optional
/// check-character hint.
pub open spec fn validates_to(
    state: AppState,
    s: Seq<char>,
    hint: Option<bool>,
    r: ValidationResult,
) -> bool {
    if !spec_parse_ok(s) {
                &&& r.valid == false
                &&& r.naan is None
                &&& r.shoulder is None
                &&& r.blade is None
                &&& r.shoulder_registered is None
                &&& r.has_check_character is None
                &&& r.check_character_valid is None
                &&& r.error matches Some(m) && m@ == "Failed to parse ARK structure"@
                &&& r.warnings is None
            } else {
                let nn = spec_naan(s);
                let sh = spec_shoulder(s);
                let bl = spec_blade(s);
                &&& r.naan matches Some(x) && x@ == nn
                &&& r.shoulder matches Some(x) && x@ == sh
                &&& r.blade matches Some(x) && x@ == bl
                &&& if !(all_betanumeric(sh) && all_betanumeric(bl)) {
                    &&& r.valid == false
                    &&& r.shoulder_registered is None
                    &&& r.has_check_character is None
                    &&& r.check_character_valid is None
                    &&& r.error matches Some(m) && m@
                        == "Shoulder and blade must contain only betanumeric characters (0-9, b-z excluding vowels)"@
                    &&& r.warnings is None
                } else {
                    let config = state.shoulders.spec_get(sh);
                    let registered = config is Some;
                    let naan_matches = nn == state.naan@;
                    match spec_should_check(hint, config) {
                        None => {
                            &&& r.valid == false
                            &&& r.shoulder_registered == Some(false)
                            &&& r.has_check_character is None
                            &&& r.check_character_valid is None
                            &&& r.error matches Some(m) && m@
                                == "Unknown shoulder. Please specify has_check_character parameter to validate unregistered shoulders."@
                            &&& r.warnings is None
                        },
                        Some(sc) => {
                            &&& r.shoulder_registered == Some(registered)
                            &&& r.has_check_character == Some(sc)
                            &&& (r.error is Some <==> !naan_matches)
                            &&& !naan_matches ==> r.error->0@ == "NAAN "@ + nn
                                + " does not match configured NAAN "@ + state.naan@
                            &&& if sc && bl.len() > 1 {
                                let ok = spec_validate_check_character(sh + bl);
                                &&& r.check_character_valid == Some(ok)
                                &&& r.valid == (naan_matches && ok && registered)
                                &&& if ok && registered {
                                    r.warnings is None
                                } else {
                                    &&& r.warnings is Some
                                    &&& r.warnings->0@.len() == (if ok {
                                        0int
                                    } else {
                                        1int
                                    }) + (if registered {
                                        0int
                                    } else {
                                        1int
                                    })
                                    &&& !ok ==> r.warnings->0@[0]@
                                        == "Check character validation failed. Either there's an error or this ARK has no check character."@
                                    &&& !registered ==> r.warnings->0@[if ok {
                                        0int
                                    } else {
                                        1int
                                    }]@ == "Shoulder is not registered in the system."@
                                }
                            } else if !sc {
                                &&& r.check_character_valid == Some(true)
                                &&& r.valid == (naan_matches && registered)
                                &&& r.warnings is None
                            } else {
                                &&& r.check_character_valid is None
                                &&& r.valid == (naan_matches && registered)
                                &&& r.warnings matches Some(w) && w@.len() == 1 && w@[0]@
                                    == "Blade too short for check character validation"@
                            }
                        },
                    }
                }
            }
}

/// Validate an identifier string against the service configuration.
///
/// The string is parsed; its shoulder and blade must be betanumeric; its
/// NAAN must match the configured NAAN; the shoulder should be registered;
/// and, when a check character is expected — by explicit hint, or by the
/// registered shoulder's setting — the trailing check character is verified.
/// An unregistered shoulder with no hint is refused rather than guessed
/// about. A blade too short to carry a check character yields a warning,
/// not a hard failure.
pub fn validate_ark(state: &AppState, ark: &str, has_check_character: Option<bool>) -> (r:
    ValidationResult)
    ensures
        validates_to(*state, ark@, has_check_character, r),
{
    let parsed = match parse_ark(ark) {
        Some(p) => p,
        None => {
            return ValidationResult::parse_error();
        },
    };
    if !(is_betanumeric(parsed.shoulder.as_str()) && is_betanumeric(parsed.blade.as_str())) {
        return ValidationResult {
            valid: false,
            naan: Some(parsed.naan),
            shoulder: Some(parsed.shoulder),
            blade: Some(parsed.blade),
            shoulder_registered: None,
            has_check_character: None,
            check_character_valid: None,
            error: Some(
                String::from_str(
                    "Shoulder and blade must contain only betanumeric characters (0-9, b-z excluding vowels)",
                ),
            ),
            warnings: None,
        };
    }
    let naan_matches = parsed.naan == state.naan;
    let naan_error = if !naan_matches {
        Some(
            String::from_str("NAAN ").concat(parsed.naan.as_str()).concat(
                " does not match configured NAAN ",
            ).concat(state.naan.as_str()),
        )
    } else {
        None
    };
    let shoulder_config = state.shoulders.get(parsed.shoulder.as_str());
    let shoulder_registered = shoulder_config.is_some();
    let should_validate_check = match has_check_character {
        Some(has_check) => Some(has_check),
        None => match shoulder_config {
            Some(c) => Some(c.uses_check_character),
            None => None,
        },
    };
    let sc = match should_validate_check {
        Some(sc) => sc,
        None => {
            return ValidationResult {
                valid: false,
                naan: Some(parsed.naan),
                shoulder: Some(parsed.shoulder),
                blade: Some(parsed.blade),
                shoulder_registered: Some(false),
                has_check_character: None,
                check_character_valid: None,
                error: Some(
                    String::from_str(
                        "Unknown shoulder. Please specify has_check_character parameter to validate unregistered shoulders.",
                    ),
                ),
                warnings: None,
            };
        },
    };
    let blade_len = parsed.blade.as_str().unicode_len();
    let (check_character_valid, warnings): (Option<bool>, Option<Vec<String>>) = if sc && blade_len
        > 1 {
        let mut sb = to_char_vec(parsed.shoulder.as_str());
        let bv = to_char_vec(parsed.blade.as_str());
        push_all(&mut sb, &bv);
        let sb_s = chars_to_string(&sb);
        let is_valid = validate_check_character(sb_s.as_str());
        let mut warnings_list: Vec<String> = Vec::new();
        if !is_valid {
            warnings_list.push(
                String::from_str(
                    "Check character validation failed. Either there's an error or this ARK has no check character.",
                ),
            );
        }
        if !shoulder_registered {
            warnings_list.push(String::from_str("Shoulder is not registered in the system."));
        }
        if warnings_list.len() == 0 {
            (Some(is_valid), None)
        } else {
            (Some(is_valid), Some(warnings_list))
        }
    } else if !sc {
        (Some(true), None)
    } else {
        let mut warnings_list: Vec<String> = Vec::new();
        warnings_list.push(String::from_str("Blade too short for check character validation"));
        (None, Some(warnings_list))
    };
    let check_ok = match check_character_valid {
        Some(b) => b,
        None => true,
    };
    let valid = naan_matches && check_ok && shoulder_registered;
    ValidationResult {
        valid,
        naan: Some(parsed.naan),
        shoulder: Some(parsed.shoulder),
        blade: Some(parsed.blade),
        shoulder_registered: Some(shoulder_registered),
        has_check_character: Some(sc),
        check_character_valid,
        error: naan_error,
        warnings,
    }
}

} // verus!
