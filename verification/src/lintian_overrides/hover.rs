//! Hover texts for the tokens of a lintian-overrides file.

use vstd::prelude::*;
use crate::text::{lead_run, str_eq, trim_start_char};

verus! {

/// The kind of token of an override line that the cursor is on.
#[derive(Clone, Copy, Debug, PartialEq, Eq, Structural)]
pub enum OverrideTokenKind {
    Tag,
    PackageName,
    Arch,
    PackageType,
    Other,
}

/// The markup of hover content.
#[derive(Clone, Copy, Debug, PartialEq, Eq, Structural)]
pub enum MarkupKind {
    PlainText,
    Markdown,
}

/// Hover content: text in the markup `kind`, for the range `range` of the
/// document, when one is given.
#[derive(Clone, Debug)]
pub struct Hover {
    pub kind: MarkupKind,
    pub value: String,
    pub range: Option<crate::lsp::Range>,
}

/// The description of the first entry of `tags` named `text`.
pub open spec fn tag_description(tags: Seq<(String, String)>, text: Seq<char>) -> Option<Seq<char>>
    decreases tags.len(),
{
    if tags.len() == 0 {
        None
    } else if tags[0].0@ == text {
        Some(tags[0].1@)
    } else {
        tag_description(tags.drop_first(), text)
    }
}

/// Whether `text` names one of `packages`.
pub open spec fn names_package(packages: Seq<String>, text: Seq<char>) -> bool {
    exists|i: int| 0 <= i < packages.len() && #[trigger] packages[i]@ == text
}

/// The description of a package-type keyword.
pub open spec fn package_type_description(text: Seq<char>) -> Option<Seq<char>> {
    if text == "source"@ {
        Some("Applies to the source package."@)
    } else if text == "binary"@ {
        Some("Applies to binary packages."@)
    } else if text == "udeb"@ {
        Some("Applies to udeb (micro-deb) packages."@)
    } else {
        None
    }
}

/// The Markdown shown on hover over `text`, a token of kind `kind`.
pub open spec fn hover_value(
    kind: OverrideTokenKind,
    text: Seq<char>,
    tags: Seq<(String, String)>,
    packages: Seq<String>,
) -> Option<Seq<char>> {
    let bold = "**"@ + text + "**\n\n"@;
    match kind {
        OverrideTokenKind::Tag => match tag_description(tags, text) {
            Some(d) => if d.len() == 0 {
                None
            } else {
                Some(bold + "Lintian tag\n\n"@ + d)
            },
            None => None,
        },
        OverrideTokenKind::PackageName => if names_package(packages, text) {
            Some(bold + "Package defined in `debian/control`"@)
        } else {
            Some(bold + "Package, not found in `debian/control`"@)
        },
        OverrideTokenKind::Arch => if text.len() > 0 && text[0] == '!' {
            Some(bold + "Architecture restriction (excludes `"@ + text.skip(lead_run(text, '!'))
                + "`)"@)
        } else {
            Some(bold + "Architecture restriction"@)
        },
        OverrideTokenKind::PackageType => match package_type_description(text) {
            Some(d) => Some(bold + "Package type\n\n"@ + d),
            None => None,
        },
        OverrideTokenKind::Other => None,
    }
}

/// The description of the first tag named `text`.
fn find_tag_description<'a>(tags: &'a [(String, String)], text: &str) -> (r: Option<&'a String>)
    ensures
        r matches Some(d) ==> tag_description(tags@, text@) == Some(d@),
        r is None ==> tag_description(tags@, text@) is None,
{
    let mut i: usize = 0;
    assert(tags@.skip(0) =~= tags@);
    while i < tags.len()
        invariant
            i <= tags.len(),
            tag_description(tags@, text@) == tag_description(tags@.skip(i as int), text@),
        decreases tags.len() - i,
    {
        if str_eq(tags[i].0.as_str(), text) {
            return Some(&tags[i].1);
        }
        assert(tags@.skip(i as int).drop_first() =~= tags@.skip(i + 1));
        i += 1;
    }
    None
}

/// Whether `text` names one of `packages`.
fn is_known_package(packages: &[String], text: &str) -> (r: bool)
    ensures
        r == names_package(packages@, text@),
{
    let mut i: usize = 0;
    while i < packages.len()
        invariant
            i <= packages.len(),
            forall|j: int| 0 <= j < i ==> #[trigger] packages@[j]@ != text@,
        decreases packages.len() - i,
    {
        if str_eq(packages[i].as_str(), text) {
            return true;
        }
        i += 1;
    }
    false
}

/// Get hover information for a lintian-overrides token of kind `kind`
/// whose text is `text`.
pub fn get_hover(
    kind: OverrideTokenKind,
    text: &str,
    tags: &[(String, String)],
    packages: &[String],
) -> (r: Option<Hover>)
    ensures
        r matches Some(h) ==> hover_value(kind, text@, tags@, packages@) == Some(h.value@) && h.kind
            == MarkupKind::Markdown && h.range is None,
        r is None ==> hover_value(kind, text@, tags@, packages@) is None,
{
    let mut value = String::from_str("**");
    value.append(text);
    value.append("**\n\n");
    match kind {
        OverrideTokenKind::Tag => {
            let description = match find_tag_description(tags, text) {
                Some(d) => d,
                None => return None,
            };
            if description.as_str().is_empty() {
                return None;
            }
            value.append("Lintian tag\n\n");
            value.append(description.as_str());
        },
        OverrideTokenKind::PackageName => {
            if is_known_package(packages, text) {
                value.append("Package defined in `debian/control`");
            } else {
                value.append("Package, not found in `debian/control`");
            }
        },
        OverrideTokenKind::Arch => {
            let bare = trim_start_char(text, '!');
            if text.unicode_len() > 0 && text.get_char(0) == '!' {
                value.append("Architecture restriction (excludes `");
                value.append(bare);
                value.append("`)");
            } else {
                value.append("Architecture restriction");
            }
        },
        OverrideTokenKind::PackageType => {
            let description = if str_eq(text, "source") {
                "Applies to the source package."
            } else if str_eq(text, "binary") {
                "Applies to binary packages."
            } else if str_eq(text, "udeb") {
                "Applies to udeb (micro-deb) packages."
            } else {
                return None;
            };
            value.append("Package type\n\n");
            value.append(description);
        },
        OverrideTokenKind::Other => {
            return None;
        },
    }
    Some(Hover { kind: MarkupKind::Markdown, value, range: None })
}

/// Hovering a package-type keyword: exactly the keywords the completer
/// offers (`source`, `binary`, `udeb`) get a hover, which names the keyword
/// in bold and says which packages it applies to.
pub proof fn lemma_package_type_hover(text: Seq<char>, tags: Seq<(String, String)>, packages: Seq<String>)
    ensures
        hover_value(OverrideTokenKind::PackageType, text, tags, packages) is Some
            <==> crate::lintian_overrides::completion::package_type_names().contains(text),
        text == "source"@ ==> hover_value(OverrideTokenKind::PackageType, text, tags, packages) == Some(
            "**"@ + text + "**\n\n"@ + "Package type\n\n"@ + "Applies to the source package."@,
        ),
        text == "binary"@ ==> hover_value(OverrideTokenKind::PackageType, text, tags, packages) == Some(
            "**"@ + text + "**\n\n"@ + "Package type\n\n"@ + "Applies to binary packages."@,
        ),
        text == "udeb"@ ==> hover_value(OverrideTokenKind::PackageType, text, tags, packages) == Some(
            "**"@ + text + "**\n\n"@ + "Package type\n\n"@ + "Applies to udeb (micro-deb) packages."@,
        ),
{
    reveal_strlit("source");
    reveal_strlit("binary");
    reveal_strlit("udeb");
    let names = crate::lintian_overrides::completion::package_type_names();
    if text == "source"@ {
        assert(names[0] == text);
    } else if text == "binary"@ {
        assert("binary"@[0] != "source"@[0]);
        assert(names[1] == text);
    } else if text == "udeb"@ {
        assert(names[2] == text);
    } else {
        assert(!names.contains(text)) by {
            if names.contains(text) {
                let i = choose|i: int| 0 <= i < names.len() && names[i] == text;
                assert(i == 0 || i == 1 || i == 2);
            }
        }
    }
}

} // verus!
