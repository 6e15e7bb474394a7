//! The core of a desktop prompt-assembly tool, with its behaviour stated
//! and proved: sandboxed filesystem access, so a caller-supplied path can
//! never escape its designated root; a cancellable single-slot registry
//! for the one in-flight streaming session; and versioned persistence of
//! the workspace document, upgraded transparently across schema changes
//! and backed up before every overwrite.
//!
//! Everything here is pure decision and text work. The surrounding program
//! performs the filesystem queries, network calls and wire-format parsing,
//! and hands their outcomes in as plain values.

use vstd::prelude::*;

pub mod compose;
pub mod digest;
pub mod excerpt;
pub mod json;
pub mod number;
pub mod project;
pub mod registry;
pub mod sandbox;
pub mod setup;
pub mod store;
pub mod stream;
pub mod text;
pub mod workspace;

verus! {

/// Classification of failures surfaced by the core components.
#[derive(Debug, Clone, Copy, PartialEq, Eq)]
pub enum CoreError {
    SandboxViolation,
    NotFound,
    PolicyRejected,
    Io,
    Parse,
    Cancelled,
}

impl CoreError {
    /// Stable classification string for each failure class, so calling
    /// layers can tell security rejections from policy rejections.
    pub fn message(&self) -> (r: &'static str)
        ensures
            *self == CoreError::SandboxViolation ==> r@ == "path out of sandbox"@,
            *self == CoreError::NotFound ==> r@ == "file not found"@,
            *self == CoreError::PolicyRejected ==> r@ == "unsupported extension"@,
            *self == CoreError::Io ==> r@ == "io error"@,
            *self == CoreError::Parse ==> r@ == "unreadable document"@,
            *self == CoreError::Cancelled ==> r@ == "cancelled"@,
    {
        match self {
            CoreError::SandboxViolation => "path out of sandbox",
            CoreError::NotFound => "file not found",
            CoreError::PolicyRejected => "unsupported extension",
            CoreError::Io => "io error",
            CoreError::Parse => "unreadable document",
            CoreError::Cancelled => "cancelled",
        }
    }
}

} // verus!
