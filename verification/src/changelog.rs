//! What the server reads from the head of `debian/changelog`: the source
//! package and its version.

use vstd::prelude::*;
use crate::text::fits_text_size;
use crate::lsp::opt_view;

verus! {

/// What `debian_changelog` finds in the first entry of a changelog, if
/// there is one: its package name and its version, each if present.
pub uninterp spec fn changelog_head_of(text: Seq<char>) -> Option<(Option<Seq<char>>, Option<Seq<char>>)>;

/// `ChangeLog::parse(text).tree().iter().next()` from `debian_changelog`,
/// given as `Entry::package` and `Entry::version` written out with
/// `to_string`. The result is named, not described: it is what the parser
/// gives for `text`.
#[verifier::external_body]
fn changelog_head(text: &str) -> (r: Option<(Option<String>, Option<String>)>)
    requires
        fits_text_size(text@),
    ensures
        match r {
            Some((p, v)) => changelog_head_of(text@) == Some((opt_view(p), opt_view(v))),
            None => changelog_head_of(text@).is_none(),
        },
{
    let changelog = debian_changelog::ChangeLog::parse(text).tree();
    let entry = changelog.iter().next();
    entry.map(|e| (e.package(), e.version().map(|v| v.to_string())))
}

/// The source package and version shown in the editor's status bar.
pub struct PackageStatus {
    pub name: String,
    pub version: String,
}

/// The status of a changelog: the package and version of its first entry,
/// when it has both.
pub open spec fn package_status_spec(text: Seq<char>) -> Option<(Seq<char>, Seq<char>)> {
    match changelog_head_of(text) {
        Some((Some(p), Some(v))) => Some((p, v)),
        _ => None,
    }
}

/// The status of a changelog from its parsed head.
pub fn status_from_head(head: Option<(Option<String>, Option<String>)>) -> (r: Option<PackageStatus>)
    ensures
        match r {
            Some(s) => head matches Some((Some(p), Some(v))) && s.name@ == p@ && s.version@ == v@,
            None => !(head matches Some((Some(_), Some(_)))),
        },
{
    match head {
        Some((Some(name), Some(version))) => Some(PackageStatus { name, version }),
        _ => None,
    }
}

/// The package and version of the first entry of a changelog.
pub fn package_status(text: &str) -> (r: Option<PackageStatus>)
    requires
        fits_text_size(text@),
    ensures
        match r {
            Some(s) => package_status_spec(text@) == Some((s.name@, s.version@)),
            None => package_status_spec(text@).is_none(),
        },
{
    status_from_head(changelog_head(text))
}

/// The version of the first entry of a changelog.
pub fn changelog_version(text: &str) -> (r: Option<String>)
    requires
        fits_text_size(text@),
    ensures
        opt_view(r) == match changelog_head_of(text@) {
            Some((_, v)) => v,
            None => None,
        },
{
    match changelog_head(text) {
        Some((_, v)) => v,
        None => None,
    }
}

} // verus!
