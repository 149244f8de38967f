//! The service operations behind the HTTP endpoints: minting, batch
//! validation, registry information and redirect resolution, together with
//! the plain request and response shapes they exchange.

use vstd::prelude::*;

use crate::ark::{
    parse_ark, spec_blade, spec_collapse_prefix, spec_naan, spec_parse_ok, spec_qualifier,
    spec_shoulder,
};
use crate::config::AppState;
use crate::error::AppError;
use crate::minting::{is_minted, mint_ark, mint_arks, spec_blade_length_for};
use crate::shoulder::{is_allowed_scheme, spec_apply_template, url_parse_of, Shoulder};
use crate::text::str_eq;
use crate::validation::{validate_ark, validates_to, ValidationResult};

verus! {

/// A request to mint identifiers under a shoulder.
#[derive(Debug, Clone)]
pub struct MintRequest {
    pub shoulder: String,
    /// How many identifiers to mint; callers that leave it out get one.
    pub count: usize,
}

/// A request to validate a batch of identifier strings, with an optional
/// hint on whether they carry check characters.
#[derive(Debug, Clone)]
pub struct ValidateRequest {
    pub arks: Vec<String>,
    pub has_check_character: Option<bool>,
}

/// The minted identifiers and how many there are.
#[derive(Debug, Clone)]
pub struct MintResponse {
    pub arks: Vec<String>,
    pub count: usize,
}

/// One validation verdict per requested identifier, in request order.
#[derive(Debug, Clone)]
pub struct ValidateResponse {
    pub results: Vec<ArkValidationResult>,
}

/// A validation verdict paired with the identifier string it describes.
#[derive(Debug, Clone)]
pub struct ArkValidationResult {
    pub ark: String,
    pub valid: bool,
    pub naan: Option<String>,
    pub shoulder: Option<String>,
    pub blade: Option<String>,
    pub shoulder_registered: Option<bool>,
    pub has_check_character: Option<bool>,
    pub check_character_valid: Option<bool>,
    pub error: Option<String>,
    pub warnings: Option<Vec<String>>,
}

impl ArkValidationResult {
    /// The verdict fields, without the echoed identifier.
    pub open spec fn spec_verdict(self) -> ValidationResult {
        ValidationResult {
            valid: self.valid,
            naan: self.naan,
            shoulder: self.shoulder,
            blade: self.blade,
            shoulder_registered: self.shoulder_registered,
            has_check_character: self.has_check_character,
            check_character_valid: self.check_character_valid,
            error: self.error,
            warnings: self.warnings,
        }
    }
}

/// A registered shoulder as reported by the information endpoint.
#[derive(Debug, Clone)]
pub struct ShoulderInfo {
    pub shoulder: String,
    pub project_name: String,
    pub uses_check_character: bool,
    /// The blade length minted under this shoulder, excluding any check
    /// character.
    pub blade_length: usize,
    /// A freshly minted example identifier for this shoulder.
    pub example_ark: String,
}

/// The service's NAAN and its registered shoulders.
#[derive(Debug, Clone)]
pub struct InfoResponse {
    pub naan: String,
    pub shoulders: Vec<ShoulderInfo>,
}

/// Mint the requested number of identifiers under the requested shoulder.
/// Fails exactly when the shoulder is not registered; the count is capped
/// at the configured maximum.
pub fn handle_mint(state: &AppState, request: &MintRequest) -> (r: Result<MintResponse, AppError>)
    ensures
        r is Ok <==> state.shoulders.spec_contains(request.shoulder@),
        r matches Err(e) ==> e == AppError::ShoulderNotFound,
        r matches Ok(resp) ==> {
            let config = state.shoulders.spec_get(request.shoulder@)->0;
            let blade_length = spec_blade_length_for(config, state.default_blade_length);
            &&& resp.count == resp.arks@.len()
            &&& resp.arks@.len() == if request.count <= state.max_mint_count {
                request.count as int
            } else {
                state.max_mint_count as int
            }
            &&& forall|k: int|
                0 <= k < resp.arks@.len() ==> is_minted(
                    resp.arks@[k]@,
                    state.naan@,
                    request.shoulder@,
                    blade_length as int,
                    config.uses_check_character,
                )
        },
{
    let arks = mint_arks(state, request.shoulder.as_str(), request.count)?;
    let count = arks.len();
    Ok(MintResponse { arks, count })
}

/// Validate every requested identifier, preserving request order and
/// echoing each input string beside its verdict.
pub fn handle_validate(state: &AppState, request: &ValidateRequest) -> (r: ValidateResponse)
    ensures
        r.results@.len() == request.arks@.len(),
        forall|i: int|
            0 <= i < r.results@.len() ==> {
                &&& (#[trigger] r.results@[i]).ark@ == request.arks@[i]@
                &&& validates_to(
                    *state,
                    request.arks@[i]@,
                    request.has_check_character,
                    r.results@[i].spec_verdict(),
                )
            },
{
    let n = request.arks.len();
    let mut results: Vec<ArkValidationResult> = Vec::new();
    let mut i: usize = 0;
    while i < n
        invariant
            i <= n == request.arks@.len(),
            results@.len() == i,
            forall|k: int|
                0 <= k < i ==> {
                    &&& (#[trigger] results@[k]).ark@ == request.arks@[k]@
                    &&& validates_to(
                        *state,
                        request.arks@[k]@,
                        request.has_check_character,
                        results@[k].spec_verdict(),
                    )
                },
        decreases n - i,
    {
        let ark = &request.arks[i];
        let verdict = validate_ark(state, ark.as_str(), request.has_check_character);
        let entry = ArkValidationResult {
            ark: ark.clone(),
            valid: verdict.valid,
            naan: verdict.naan,
            shoulder: verdict.shoulder,
            blade: verdict.blade,
            shoulder_registered: verdict.shoulder_registered,
            has_check_character: verdict.has_check_character,
            check_character_valid: verdict.check_character_valid,
            error: verdict.error,
            warnings: verdict.warnings,
        };
        results.push(entry);
        i = i + 1;
    }
    ValidateResponse { results }
}

/// Describe every registered shoulder, with its effective blade length and
/// a freshly minted example identifier.
pub fn shoulder_infos(state: &AppState) -> (r: Vec<ShoulderInfo>)
    ensures
        r@.len() == state.shoulders.spec_entries().len(),
        forall|i: int|
            0 <= i < r@.len() ==> {
                let entry = state.shoulders.spec_entries()[i];
                let blade_length = spec_blade_length_for(entry.1, state.default_blade_length);
                &&& (#[trigger] r@[i]).shoulder@ == entry.0
                &&& r@[i].project_name@ == entry.1.project_name@
                &&& r@[i].uses_check_character == entry.1.uses_check_character
                &&& r@[i].blade_length == blade_length
                &&& is_minted(
                    r@[i].example_ark@,
                    state.naan@,
                    entry.0,
                    blade_length as int,
                    entry.1.uses_check_character,
                )
            },
{
    let n = state.shoulders.len();
    let mut infos: Vec<ShoulderInfo> = Vec::new();
    let mut i: usize = 0;
    while i < n
        invariant
            i <= n == state.shoulders.spec_entries().len(),
            infos@.len() == i,
            forall|k: int|
                0 <= k < i ==> {
                    let entry = state.shoulders.spec_entries()[k];
                    let blade_length = spec_blade_length_for(entry.1, state.default_blade_length);
                    &&& (#[trigger] infos@[k]).shoulder@ == entry.0
                    &&& infos@[k].project_name@ == entry.1.project_name@
                    &&& infos@[k].uses_check_character == entry.1.uses_check_character
                    &&& infos@[k].blade_length == blade_length
                    &&& is_minted(
                        infos@[k].example_ark@,
                        state.naan@,
                        entry.0,
                        blade_length as int,
                        entry.1.uses_check_character,
                    )
                },
        decreases n - i,
    {
        let entry = state.shoulders.entry_at(i);
        let blade_length = match entry.1.blade_length {
            Some(l) => l,
            None => state.default_blade_length,
        };
        let example_ark = mint_ark(
            state.naan.as_str(),
            entry.0.as_str(),
            blade_length,
            entry.1.uses_check_character,
        );
        let info = ShoulderInfo {
            shoulder: entry.0.clone(),
            project_name: entry.1.project_name.clone(),
            uses_check_character: entry.1.uses_check_character,
            blade_length,
            example_ark,
        };
        infos.push(info);
        i = i + 1;
    }
    infos
}

/// Resolve a full identifier string to its redirect target.
///
/// The string must parse, its NAAN must match the configured NAAN, and its
/// shoulder must be registered; each failure maps to its own error. The
/// redirect target is the shoulder's route pattern applied to the parsed
/// identifier, re-validated against scheme injection.
pub fn resolve_redirect(state: &AppState, ark_string: &str) -> (r: Result<String, AppError>)
    ensures
        ({
            let s = ark_string@;
            if !spec_parse_ok(s) {
                r == Err::<String, AppError>(AppError::InvalidArk)
            } else if spec_naan(s) != state.naan@ {
                r == Err::<String, AppError>(AppError::InvalidNaan)
            } else if state.shoulders.spec_get(spec_shoulder(s)) is None {
                r == Err::<String, AppError>(AppError::ShoulderNotFound)
            } else {
                let config = state.shoulders.spec_get(spec_shoulder(s))->0;
                let target = spec_apply_template(
                    config.route_pattern@,
                    spec_collapse_prefix(s),
                    spec_naan(s),
                    spec_shoulder(s),
                    spec_blade(s),
                    spec_qualifier(s),
                );
                &&& r is Ok
                &&& match url_parse_of(target) {
                    Some(t) => if is_allowed_scheme(t.0) {
                        r->Ok_0@ == t.1
                    } else {
                        r->Ok_0@ == Shoulder::inert_redirect(
                            "Redirect URL has invalid scheme (expected http/https): "@ + t.0,
                        )
                    },
                    None => exists|m: Seq<char>| r->Ok_0@ == Shoulder::inert_redirect(m),
                }
            }
        }),
{
    let parsed = match parse_ark(ark_string) {
        Some(p) => p,
        None => {
            return Err(AppError::InvalidArk);
        },
    };
    if !str_eq(parsed.naan.as_str(), state.naan.as_str()) {
        return Err(AppError::InvalidNaan);
    }
    let config = match state.shoulders.get(parsed.shoulder.as_str()) {
        Some(c) => c,
        None => {
            return Err(AppError::ShoulderNotFound);
        },
    };
    Ok(config.resolve(&parsed))
}

} // verus!
