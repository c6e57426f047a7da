//! Lintian override files (`debian/source/lintian-overrides`,
//! `debian/<package>.lintian-overrides`).

pub mod completion;
pub mod hover;
