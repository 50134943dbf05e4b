//! An in-memory model of a small filesystem: an inode table, a block store,
//! nested directories and a journal that makes structural operations undoable.

pub mod blocks;
pub mod fs;
pub mod inode;
pub mod journal;
pub mod laws;
pub mod listing;
pub mod listing_laws;
pub mod model;
pub mod table;
