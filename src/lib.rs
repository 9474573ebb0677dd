//! Inspection of installed system generations: decoding of generation
//! descriptors, discovery of generation links in a profile directory, and
//! construction of labels from a random name, a timestamp and the state of a
//! source repository.

pub mod bootspec;
pub mod error;
pub mod json;
pub mod label;
pub mod repo;
pub mod store;

pub use bootspec::{decode, Bootspec, DecodeError, Field, Generation};
pub use error::GenError;
pub use json::{parse_json, Json, SyntaxError};
pub use label::{compose_label, label, RepoRootConfig};
pub use repo::{discover_root, git_status, is_marker_entry, render_status, CommitState};
pub use store::{
    descriptor_path, generation_from_read, generation_index, parse_descriptor, select_generations, sort_by_index,
    NixGen,
};
