//! Verified core of the claw wire protocols.

pub mod bridge;
pub mod endpoint;
pub mod fault;
pub mod frame;
pub mod input;
pub mod json;
pub mod output;
pub mod request;
pub mod response;
pub mod stream;
pub mod text;
