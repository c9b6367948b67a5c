//! The wire formats and the decisions of the connection handlers.

pub mod file_transfer;
pub mod http_requests;
pub mod tcp;
