//! A library for parsing, rendering and bumping version tags of the form
//! `[prefix-]major.minor.patch[-label]`, with an optional release-candidate
//! counter (`-rc.N`), together with the logic that picks the latest matching
//! tag out of a repository's tag list.

use vstd::prelude::*;

pub mod semver_ext;
pub mod strutil;
pub mod tags;
pub mod version;

verus! {

/// The view of an optional string slice.
pub open spec fn opt_str_view(o: Option<&str>) -> Option<Seq<char>> {
    match o {
        Some(s) => Some(s@),
        None => None,
    }
}

/// A character is an ASCII decimal digit.
pub open spec fn is_digit(c: char) -> bool {
    48 <= c as u32 <= 57
}

/// The numeric value of a digit character.
pub open spec fn digit_val(c: char) -> nat {
    (c as u32 - 48) as nat
}

} // verus!
