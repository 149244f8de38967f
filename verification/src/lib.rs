mod api;
mod ark;
mod check_character;
mod config;
mod equivalence;
mod error;
mod minting;
mod registry;
mod shoulder;
mod simple_format;
mod text;
mod validation;

pub use api::{handle_mint, handle_validate, resolve_redirect, shoulder_infos};
pub use api::{ArkValidationResult, InfoResponse, MintRequest, MintResponse, ShoulderInfo, ValidateRequest, ValidateResponse};
pub use ark::{extract_shoulder, parse_ark, Ark};
pub use check_character::calculate_check_character;
pub use check_character::validate_check_character;
pub use config::AppState;
pub use error::AppError;
pub use equivalence::{lemma_equal_normalized_arks, lemma_normalize_append_query, lemma_normalize_append_trailing, lemma_normalize_insert_inert, lemma_normalize_naan_case, lemma_parse_append_query, lemma_parse_insert_inert};
pub use minting::{generate_random_blade, mint_ark, mint_arks};
pub use registry::ShoulderRegistry;
pub use shoulder::Shoulder;
pub use simple_format::{parse_shoulders_simple, validate_registry};
pub use validation::{is_betanumeric, validate_ark, ValidationResult};
