use vstd::prelude::*;

verus! {

/// Errors that abort generation at once.
#[derive(Clone, Copy, Debug, PartialEq, Eq, Structural)]
pub enum GenError {
    /// A declaration in the manifest lacks what it needs (a version).
    MalformedManifest,
    /// A version requirement is not a single exact, caret, tilde or wildcard
    /// comparator naming one compatibility bucket.
    MalformedVersionRequirement,
    /// Synthesis did not yield exactly one description per vendored crate.
    SynthesisMismatch,
    /// A standard-library dependency resolved outside the source tree; the
    /// field is its position in the normalized package list.
    NonLocalResolution { package: usize },
    /// A standard-library dependency matches no vendored package; the field is
    /// its position in the normalized package list.
    UnvendoredStdDependency { package: usize },
}

} // verus!
