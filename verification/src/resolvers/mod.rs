//! Where library files are looked for.

pub mod local;
pub mod http;
