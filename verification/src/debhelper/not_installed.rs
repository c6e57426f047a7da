//! `debian/not-installed` and `debian/<package>.not-installed` files.

use vstd::prelude::*;
use crate::debhelper::detection::{is_debhelper_file, is_debhelper_uri};

verus! {

/// Whether the URI is a debian/not-installed or debian/<package>.not-installed
/// file.
pub fn is_not_installed_file(uri: &str) -> (r: bool)
    ensures
        r == is_debhelper_uri(uri@, "not-installed"@),
{
    is_debhelper_file(uri, "not-installed")
}

} // verus!
