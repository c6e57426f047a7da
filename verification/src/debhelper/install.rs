//! `debian/install` and `debian/<package>.install` files.

use vstd::prelude::*;
use crate::debhelper::detection::{is_debhelper_file, is_debhelper_uri};

verus! {

/// Whether the URI is a debian/install or debian/<package>.install file.
pub fn is_install_file(uri: &str) -> (r: bool)
    ensures
        r == is_debhelper_uri(uri@, "install"@),
{
    is_debhelper_file(uri, "install")
}

} // verus!
