//! A reactive cell: a value that tells its subscribers when it changes.
pub mod channels;
pub mod field;
pub mod laws;
pub mod proto;
pub mod room;
pub mod subscribers;
