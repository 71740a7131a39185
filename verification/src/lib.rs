//! A verified core for a "browse and download" file server.
//!
//! The library models two storage backends behind one capability type: a
//! local filesystem provider and a remote autoindex provider that scrapes an
//! HTML directory listing. The router classifies each request as a listing or
//! a download, enforces path safety, and maps provider outcomes onto a small
//! error taxonomy. All I/O stays with the embedding application, which hands
//! the library plain values (directory scans, fetched bodies and statuses)
//! and receives plain values back.

pub mod config;
pub mod error;
pub mod local;
pub mod nginx;
pub mod render;
pub mod router;
pub mod storage;
pub mod strings;
pub mod utils;
