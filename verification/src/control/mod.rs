//! `debian/control` files: go-to-definition on the packages named in
//! relationship fields.

pub mod definition;
