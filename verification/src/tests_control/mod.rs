//! `debian/tests/control` files: go-to-definition on test names and on the
//! packages of relationship fields.

pub mod definition;
