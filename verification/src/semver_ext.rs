//! The classifier that decides whether a dash-segment of a tag is a bare
//! semantic version. The decision itself is delegated to the `semver` crate;
//! the surrounding logic only depends on the answer.

use vstd::prelude::*;

verus! {

use crate::strutil::dec;

/// Whether the `semver` crate accepts a string as a valid semantic version.
pub uninterp spec fn semver_accepts(s: Seq<char>) -> bool;

/// A bare numeric core `major.minor.patch` in canonical decimal.
pub open spec fn core_seq(major: nat, minor: nat, patch: nat) -> Seq<char> {
    dec(major) + seq!['.'] + dec(minor) + seq!['.'] + dec(patch)
}

/// Relies on `semver::Version::parse`: whether a string is a valid semantic
/// version is a function of its characters alone, and a bare
/// `major.minor.patch` core in canonical decimal (three dot-separated
/// numbers without leading zeros) always parses successfully.
#[verifier::external_body]
pub(crate) fn is_semver(s: &str) -> (r: bool)
    ensures
        r == semver_accepts(s@),
        (exists|m: u32, n: u32, p: u32|
            s@ == core_seq(m as nat, n as nat, p as nat)) ==> r,
{
    semver::Version::parse(s).is_ok()
}

} // verus!
