//! Service-wide configuration: the state shared read-only by every
//! operation.

use vstd::prelude::*;

use crate::registry::ShoulderRegistry;

verus! {

/// The application state shared across request handlers. Built once at
/// startup and never mutated afterwards.
#[derive(Debug, Clone)]
pub struct AppState {
    /// The NAAN (Name Assigning Authority Number) this service answers for.
    pub naan: String,
    /// The default blade length for minted identifiers, excluding the check
    /// character. Used when a shoulder has no blade length of its own.
    pub default_blade_length: usize,
    /// The maximum number of identifiers a single mint request may produce.
    pub max_mint_count: usize,
    /// The registered shoulders and their configurations.
    pub shoulders: ShoulderRegistry,
}

} // verus!
