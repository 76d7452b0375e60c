//! The two failure classes a caller can see: construction-time path
//! validation, and a fatal per-cycle traversal failure.

use vstd::prelude::*;
use vstd::string::StringExecFns;

verus! {

/// Returned by watcher construction when the root path does not name an
/// existing directory. No watcher comes into existence in that case.
#[derive(Debug, Clone, PartialEq, Eq, Structural)]
pub struct PathError;

impl PathError {
    /// A human-readable description of the failure.
    pub fn message(&self) -> (r: String)
        ensures
            r@ == "expected path: no valid path to a directory found"@,
    {
        String::from_str("expected path: no valid path to a directory found")
    }
}

/// Returned by a poll cycle whose directory listing failed (for example the
/// root was removed between polls). The failure is fatal to the cycle: the
/// caller receives no partial batch, and the registry is left as it was.
#[derive(Debug, Clone, PartialEq, Eq, Structural)]
pub struct TraversalError;

impl TraversalError {
    /// A human-readable description of the failure.
    pub fn message(&self) -> (r: String)
        ensures
            r@ == "traversal failed: the directory could not be listed"@,
    {
        String::from_str("traversal failed: the directory could not be listed")
    }
}

} // verus!
