//! Recognising a debconf templates file.

use vstd::prelude::*;
use crate::debhelper::detection::{is_debhelper_file, is_debhelper_uri};

verus! {

/// Whether the URI points to a debconf templates file.
///
/// Matches:
/// - `debian/templates`
/// - `debian/<package>.templates`
pub fn is_templates_file(uri: &str) -> (r: bool)
    ensures
        r == is_debhelper_uri(uri@, "templates"@),
{
    is_debhelper_file(uri, "templates")
}

} // verus!
