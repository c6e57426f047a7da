//! Line-oriented debhelper files: `debian/install`, `debian/links`,
//! `debian/not-installed` and their `debian/<package>.<name>` variants.

pub mod detection;
pub mod diagnostics;
pub mod install;
pub mod links;
pub mod not_installed;
