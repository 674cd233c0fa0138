//! Request and response utilities for a web application whose handlers
//! return domain-level results instead of raw responses.

pub mod admin;
pub mod comma_sep;
pub mod errors;
pub mod handler;
pub mod http;
pub mod json;
pub mod json_laws;
pub mod json_limits;
pub mod process;
pub mod request;
pub mod text;
pub mod text_map;
