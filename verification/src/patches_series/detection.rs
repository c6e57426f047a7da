//! Recognising a quilt series file.

use vstd::prelude::*;
use crate::text::str_ends_with;

verus! {

/// Check if a given URL represents a Debian patches/series file
pub fn is_patches_series_file(uri: &str) -> (r: bool)
    ensures
        r == "/debian/patches/series"@.is_suffix_of(uri@),
{
    str_ends_with(uri, "/debian/patches/series")
}

} // verus!
