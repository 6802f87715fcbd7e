//! Payment-gateway relay core: canonical JSON signing and service authentication.
//!
//! The crate provides a deterministic JSON canonicalizer, a fixed-point
//! monetary number formatter, an RSA signing engine over canonical JSON
//! envelopes, and an inbound service-authentication filter with a
//! fixed-window rate limiter.

pub mod auth;
pub mod canon;
pub mod crypto;
pub mod json;
pub mod models;
pub mod number;
pub mod render;
pub mod text;
