//! Decoder for an indentation-structured, line-oriented `key: value`
//! notation.  Raw text is tokenized into a stream of definitions, and a
//! schema-driven engine converts those definitions into typed values on
//! demand: the caller states the shape it expects (a scalar, a list, a
//! record of named fields, a mapping) and the engine satisfies the request
//! from the remaining definitions.

pub mod de;
pub mod error;
pub mod intparse;
pub mod lines;
