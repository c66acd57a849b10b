//! A small message board: posts are decoded from form bodies, kept by a
//! store that stamps them, and listed back as JSON, optionally restricted
//! to a window of timestamps.

pub mod codec;
pub mod decimal;
pub mod filter;
pub mod form;
pub mod json;
pub mod laws;
pub mod models;
pub mod response;
pub mod router;
pub mod store;
