//! Diagnostics hooks.
//!
//! The binary around this library renders diagnostics (`<stage> error at
//! line <N>: <message>`) from the structured kinds and line numbers that
//! the compiler and the virtual machine report; see
//! [`crate::compiler::Compiler::diagnostics`]. This reporting hook is kept
//! as a seam for richer in-library reporting.

use vstd::prelude::*;

verus! {

/// Reserved reporting hook; diagnostics are currently rendered by the
/// embedding program.
pub fn report_parse_error() {
}

} // verus!
