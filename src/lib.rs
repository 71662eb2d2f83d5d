//! Attribution of files under a home directory to the installed package
//! that created them: path canonicalisation, ancestry resolution, package
//! manager output parsing and the attribution store.

pub mod text;
pub mod canon;
pub mod store;
pub mod resolve;
pub mod pkgmgr;
pub mod config;
pub mod event;
pub mod user;
pub mod cleanup;
pub mod size;
