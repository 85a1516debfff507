//! A bridge between Chrome's DevTools pipe and clients on a local socket: the
//! daemon's routing, its pool of warm pages, the client's side of the
//! conversation, and the two byte formats they are carried in.
pub mod browser;
pub mod client;
pub mod daemon;
pub mod jobs;
pub mod json;
pub mod pages;
pub mod pool;
pub mod protocol;
pub mod requests;
pub mod routing;
pub mod sessions;
pub mod socket;
pub mod sums;
pub mod text;
