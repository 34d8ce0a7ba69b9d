//! Generation of a typed translation module from per-locale definition
//! trees: placeholder parsing, loading, consistency checking against a
//! default locale, deduplication of argument signatures, and emission of the
//! module with a lock-free locale switch.

pub mod template;
pub mod model;
pub mod names;
pub mod emit;
pub mod generator;
