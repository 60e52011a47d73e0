//! A refresh service descriptor for verifiable credentials, and the JSON
//! object it is written as.
//!
//! A [`RefreshService`] holds an identifier, one or more type tags and a bag
//! of further properties. In JSON it is one flat object: `id`, `type` (a bare
//! string for a single tag, an array for several) and every property beside
//! them. [`RefreshService::to_json`] and [`RefreshService::from_json`] are
//! inverse to each other on every record whose properties leave the names
//! `id` and `type` alone.
//!
//! The text is read and written here, without help from elsewhere: [`json`]
//! holds JSON values, the text they are written as and the proof that
//! reading undoes writing; [`service`] holds the record and the object that
//! stands for it; [`laws`] holds what is proved of both.

pub mod error;
pub mod json;
pub mod laws;
pub mod one_or_many;
pub mod service;
pub mod text;
pub mod url;

pub use error::Error;
pub use json::number::Number;
pub use json::value::{Object, Value};
pub use one_or_many::OneOrMany;
pub use service::RefreshService;
pub use url::Url;
