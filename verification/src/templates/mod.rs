//! debconf `debian/templates` and `debian/<package>.templates` files.
//!
//! The format is deb822: one paragraph per template with a fixed set of
//! known fields, plus localized `Description-<lang>` / `Choices-<lang>`
//! variants.

pub mod completion;
pub mod detection;
pub mod fields;
pub mod semantic;
