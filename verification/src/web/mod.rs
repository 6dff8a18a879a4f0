//! The HTTP side: requests, responses, errors and routing.
pub mod error;
pub mod json;
pub mod laws;
pub mod request;
pub mod response;
pub mod router;
