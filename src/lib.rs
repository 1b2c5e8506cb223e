//! Theme package manager core: shared-asset reference counting, package
//! install/removal bookkeeping and planning of filesystem moves.
//!
//! The library never touches the filesystem itself. Each operation returns
//! the filesystem actions to carry out, and every decision about those
//! actions is verified.

pub mod add;
pub mod env;
pub mod lists;
pub mod manifest;
pub mod mover;
pub mod paths;
pub mod pkg;
pub mod registry;
pub mod tree;

pub use add::UrlType;
pub use env::init;
