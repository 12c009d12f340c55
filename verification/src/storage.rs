//! The ordered key-value store and the height-keyed stores built on it.

pub mod db;
pub mod keys;
pub mod store;
