//! `debian/patches/series` files.

pub mod completion;
pub mod detection;
pub mod series;
