//! A development server's core: which static asset answers a request, and
//! where the server listens.
//!
//! `assets` holds the asset set and the resolver, over the paths of `path`.
//! `config` makes the server's configuration from the command line and the
//! environment, with the address grammar of `address`.

pub mod address;
pub mod assets;
pub mod config;
pub mod decimal;
pub mod hex;
pub mod path;
pub mod scan;
