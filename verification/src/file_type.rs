//! The kind of Debian packaging file a document is, from its URI.

use vstd::prelude::*;
use crate::debhelper::detection::{is_debhelper_uri};
use crate::text::{after_last, after_last_in, chars_of, lemma_after_last, str_ends_with};

verus! {

/// Debian file type
#[derive(Clone, Copy, Debug, PartialEq, Eq, Structural)]
pub enum FileType {
    /// debian/control file
    Control,
    /// debian/copyright file
    Copyright,
    /// debian/watch file
    Watch,
    /// debian/tests/control file
    TestsControl,
    /// debian/changelog file
    Changelog,
    /// debian/source/format file
    SourceFormat,
    /// debian/source/options or debian/source/local-options file
    SourceOptions,
    /// debian/upstream/metadata file
    UpstreamMetadata,
    /// debian/rules file
    Rules,
    /// lintian overrides file (debian/source/lintian-overrides or debian/*.lintian-overrides)
    LintianOverrides,
    /// debian/patches/series file
    PatchesSeries,
    /// A file under debian/patches/ other than the series file.
    Patch,
    /// debian/debcargo.toml file (debcargo configuration)
    DebcargoToml,
}

/// The URI names `debian/<path>`: it ends in `/debian/` and `path`.
pub open spec fn names_debian(uri: Seq<char>, path: Seq<char>) -> bool {
    ("/debian/"@ + path).is_suffix_of(uri)
}

/// The URI names a file directly in `debian/patches/` other than `series`,
/// or a file in a directory below it.
pub open spec fn under_patches(uri: Seq<char>) -> bool {
    let dir = uri.take(after_last(uri, '/'));
    &&& after_last(uri, '/') < uri.len()
    &&& exists|k: int|
        0 <= k && k + "/debian/patches/"@.len() <= dir.len() && #[trigger] dir.subrange(
            k,
            k + "/debian/patches/"@.len(),
        ) == "/debian/patches/"@
}

/// The kind of file a URI names, tried in this order: the autopkgtest
/// control file before the package's control file, and the series file
/// before the patches.
pub open spec fn detect_spec(uri: Seq<char>) -> Option<FileType> {
    if names_debian(uri, "tests/control"@) {
        Some(FileType::TestsControl)
    } else if names_debian(uri, "control"@) {
        Some(FileType::Control)
    } else if names_debian(uri, "copyright"@) {
        Some(FileType::Copyright)
    } else if names_debian(uri, "watch"@) {
        Some(FileType::Watch)
    } else if names_debian(uri, "changelog"@) {
        Some(FileType::Changelog)
    } else if names_debian(uri, "source/format"@) {
        Some(FileType::SourceFormat)
    } else if names_debian(uri, "source/options"@) || names_debian(uri, "source/local-options"@) {
        Some(FileType::SourceOptions)
    } else if names_debian(uri, "upstream/metadata"@) {
        Some(FileType::UpstreamMetadata)
    } else if names_debian(uri, "rules"@) {
        Some(FileType::Rules)
    } else if names_debian(uri, "source/lintian-overrides"@) || is_debhelper_uri(
        uri,
        "lintian-overrides"@,
    ) {
        Some(FileType::LintianOverrides)
    } else if names_debian(uri, "patches/series"@) {
        Some(FileType::PatchesSeries)
    } else if under_patches(uri) {
        Some(FileType::Patch)
    } else if names_debian(uri, "debcargo.toml"@) {
        Some(FileType::DebcargoToml)
    } else {
        None
    }
}

/// Whether `uri` ends in `/debian/` and `path`.
fn ends_in_debian(uri: &str, path: &str) -> (r: bool)
    ensures
        r == names_debian(uri@, path@),
{
    let p = crate::text::concat("/debian/", path);
    str_ends_with(uri, p.as_str())
}

/// Whether `uri` names a file below `debian/patches/`.
fn is_under_patches(uri: &str) -> (r: bool)
    ensures
        r == under_patches(uri@),
{
    let cs = chars_of(uri);
    let n = cs.len();
    let j = after_last_in(&cs, n, '/');
    assert(cs@.take(n as int) =~= uri@);
    if j >= n {
        return false;
    }
    let dir = uri.substring_char(0, j);
    assert(dir@ =~= uri@.take(after_last(uri@, '/')));
    let pat = "/debian/patches/";
    proof {
        reveal_strlit("/debian/patches/");
    }
    let ds = chars_of(dir);
    let ps = chars_of(pat);
    let m = ps.len();
    if ds.len() < m {
        assert forall|k: int| 0 <= k && k + m <= ds.len() implies #[trigger] dir@.subrange(k, k + m) != pat@ by {}
        return false;
    }
    let mut k: usize = 0;
    while k <= ds.len() - m
        invariant
            ds@ == dir@,
            ps@ == pat@,
            pat@ == "/debian/patches/"@,
            dir@ == uri@.take(after_last(uri@, '/')),
            after_last(uri@, '/') < uri@.len(),
            m == pat@.len(),
            m <= ds.len(),
            k <= ds.len() - m + 1,
            forall|i: int| 0 <= i < k ==> #[trigger] dir@.subrange(i, i + m) != pat@,
        decreases ds.len() + 1 - k,
    {
        let mut t: usize = 0;
        while t < m && ds[k + t] == ps[t]
            invariant
                k + m <= ds.len(),
                ds@ == dir@,
                ps@ == pat@,
                m == pat@.len(),
                t <= m,
                forall|q: int| 0 <= q < t ==> ds@[k + q] == ps@[q],
            decreases m - t,
        {
            t += 1;
        }
        if t == m {
            assert(dir@.subrange(k as int, k + m) =~= pat@);
            assert(uri@.take(after_last(uri@, '/')).subrange(k as int, k + m) == "/debian/patches/"@);
            return true;
        }
        assert(dir@.subrange(k as int, k + m)[t as int] != pat@[t as int]);
        k += 1;
    }
    false
}

impl FileType {
    /// Detect the file type from a URI
    pub fn detect(uri: &str) -> (r: Option<FileType>)
        ensures
            r == detect_spec(uri@),
    {
        if ends_in_debian(uri, "tests/control") {
            Some(FileType::TestsControl)
        } else if ends_in_debian(uri, "control") {
            Some(FileType::Control)
        } else if ends_in_debian(uri, "copyright") {
            Some(FileType::Copyright)
        } else if ends_in_debian(uri, "watch") {
            Some(FileType::Watch)
        } else if ends_in_debian(uri, "changelog") {
            Some(FileType::Changelog)
        } else if ends_in_debian(uri, "source/format") {
            Some(FileType::SourceFormat)
        } else if ends_in_debian(uri, "source/options") || ends_in_debian(uri, "source/local-options") {
            Some(FileType::SourceOptions)
        } else if ends_in_debian(uri, "upstream/metadata") {
            Some(FileType::UpstreamMetadata)
        } else if ends_in_debian(uri, "rules") {
            Some(FileType::Rules)
        } else if ends_in_debian(uri, "source/lintian-overrides")
            || crate::debhelper::detection::is_debhelper_file(uri, "lintian-overrides") {
            Some(FileType::LintianOverrides)
        } else if ends_in_debian(uri, "patches/series") {
            Some(FileType::PatchesSeries)
        } else if is_under_patches(uri) {
            Some(FileType::Patch)
        } else if ends_in_debian(uri, "debcargo.toml") {
            Some(FileType::DebcargoToml)
        } else {
            None
        }
    }
}

} // verus!
