//! Deterministic per-step checks that a plan may attach to its steps.
use vstd::prelude::*;

use crate::text::str_eq;

verus! {

/// A deterministic check run after a plan step (`kind` plus its operands).
#[derive(Debug, Clone)]
pub struct VerifySpec {
    pub kind: String,
    pub path: Option<String>,
    pub needle: Option<String>,
    pub manifest: Option<String>,
}

/// The check kinds the workspace knows how to run.
pub open spec fn known_verify_kind(k: Seq<char>) -> bool {
    ||| k == "file_contains"@
    ||| k == "file_not_contains"@
    ||| k == "php_lint"@
    ||| k == "cargo_check"@
    ||| k == "vitest"@
}

/// Copy of an optional string.
pub fn copy_opt_string(s: &Option<String>) -> (r: Option<String>)
    ensures
        r == *s,
{
    match s {
        Some(v) => Some(v.clone()),
        None => None,
    }
}

impl VerifySpec {
    /// Whether `kind` names one of the supported checks.
    pub fn is_known_kind(kind: &str) -> (r: bool)
        ensures
            r == known_verify_kind(kind@),
    {
        str_eq(kind, "file_contains") || str_eq(kind, "file_not_contains") || str_eq(
            kind,
            "php_lint",
        ) || str_eq(kind, "cargo_check") || str_eq(kind, "vitest")
    }

    /// Builds a check from its fields; `None` when the kind is not a supported one.
    pub fn from_fields(
        kind: String,
        path: Option<String>,
        needle: Option<String>,
        manifest: Option<String>,
    ) -> (r: Option<VerifySpec>)
        ensures
            known_verify_kind(kind@) ==> r == Some(VerifySpec { kind, path, needle, manifest }),
            !known_verify_kind(kind@) ==> r is None,
    {
        if Self::is_known_kind(kind.as_str()) {
            Some(VerifySpec { kind, path, needle, manifest })
        } else {
            None
        }
    }

    /// Field-by-field copy.
    pub fn duplicate(&self) -> (r: VerifySpec)
        ensures
            r == *self,
    {
        VerifySpec {
            kind: self.kind.clone(),
            path: copy_opt_string(&self.path),
            needle: copy_opt_string(&self.needle),
            manifest: copy_opt_string(&self.manifest),
        }
    }
}

} // verus!
