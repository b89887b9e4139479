//! Strict decoding and validation of `application/x-www-form-urlencoded`
//! newsletter-subscription submissions.
//!
//! The pipeline takes an untrusted request body as raw bytes and either
//! produces a validated [`domain::Subscriber`] record or rejects the input
//! with a precise [`pipeline::StrictFormRejection`]. Validation happens in
//! independent stages: percent-decoding, structural parsing, UTF-8
//! conversion, and domain-level field validation.

pub mod domain;
pub mod form;
pub mod percent;
pub mod pipeline;
pub mod settings;
pub mod text;
