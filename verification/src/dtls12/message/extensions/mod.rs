//! Bodies of Hello extensions.

pub mod connection_id;
pub mod use_srtp;
