//! Tracks text configuration files that belong to named versions (profiles)
//! in a sqlite store, and keeps the on-disk files and the stored copies in
//! sync in both directions.
//!
//! The store itself is reached through a small set of trusted wrappers around
//! rusqlite, one per SQL statement; everything above them — row encoding and
//! decoding, id allocation, the sync round trip, matching, and the tree
//! listing — is verified against the abstract table contents.

pub mod codec;
pub mod entities;
pub mod error;
pub mod facade;
pub mod store;
pub mod tree;
pub mod text;

pub use entities::{Config, Version};
pub use error::Error;
pub use facade::{
    add_config, add_version, apply_pull, delete_by_id, delete_by_name, delete_by_path,
    delete_version, init_db, list_configs, list_version, update_config, update_version, write_all,
};
pub use tree::{build_tree, tree_item};
