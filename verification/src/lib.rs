//! Verified core of the feed/channel bookkeeping of an RSS reader.
//!
//! The database is reached by the application around this crate; the functions
//! here take the rows that a query returned and compute what the reader shows or
//! which statements it runs next.
pub mod records;
pub mod channels;
pub mod unread;
pub mod feeds;
pub mod removal;
pub mod subscription;
pub mod ordering;
