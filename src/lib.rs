//! Restores a file tree from a content-addressed backup made of dlist
//! (snapshot listing) and dblock (content block) archives.
pub mod blockid;
pub mod codec;
pub mod database;
pub mod image;
pub mod restore;
pub mod snapshot;
