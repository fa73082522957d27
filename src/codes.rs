//! Standard diagnostic codes for semantic errors and warnings.
use vstd::prelude::*;

verus! {

/// Undefined reference (name not found).
pub const UNDEFINED_REFERENCE: &'static str = "E0001";

/// Ambiguous reference (multiple candidates).
pub const AMBIGUOUS_REFERENCE: &'static str = "E0002";

/// Type mismatch.
pub const TYPE_MISMATCH: &'static str = "E0003";

/// Duplicate definition.
pub const DUPLICATE_DEFINITION: &'static str = "E0004";

/// Missing required element.
pub const MISSING_REQUIRED: &'static str = "E0005";

/// Invalid specialization.
pub const INVALID_SPECIALIZATION: &'static str = "E0006";

/// Circular dependency.
pub const CIRCULAR_DEPENDENCY: &'static str = "E0007";

/// Unused symbol.
pub const UNUSED_SYMBOL: &'static str = "W0001";

/// Deprecated usage.
pub const DEPRECATED: &'static str = "W0002";

/// Naming convention violation.
pub const NAMING_CONVENTION: &'static str = "W0003";

} // verus!
