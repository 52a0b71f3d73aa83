//! Installs PEM certificates into an Android system CA store over a
//! debugging-bridge connection, deriving each target filename from the
//! platform's legacy MD5-based subject hash and probing sequential
//! suffixes on filename collisions.

pub mod hash;
pub mod names;
pub mod transport;
pub mod install;
pub mod pem;
pub mod run;
