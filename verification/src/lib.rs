//! A small recipe-generation library: it builds the prompt that is sent to
//! a language-model backend, parses the backend's JSON reply into a
//! structured recipe, and shapes the service's success and error responses.
//!
//! The JSON layer carries its own correctness argument: the serializer is
//! specified character for character, the parser is specified against a
//! reference parser over the same grammar, and a proved round trip says
//! that a serialized document — and in particular a serialized recipe —
//! parses back to exactly itself.

pub mod json;
pub mod recipe;
pub mod service;
