//! Reading and writing the binary plugin files (master, plugin and light master
//! files) of a family of game engines: a nested stream of groups and records
//! built from fields, with verified framing, resolution and re-encoding.
pub mod le;
pub mod error;
pub mod timestamp;
pub mod signature;
pub mod form_id;
pub mod vcs_info;
pub mod field;
pub mod record;
pub mod group_label;
pub mod group;
pub mod esx;
pub mod statistics;
pub mod child_key;
pub mod fingerprinting;
