//! The decisions of the worker that serves one relay.

pub mod connect;
pub mod feed;
pub mod filter;
pub mod orders;
pub mod subscription;
pub mod worker;
