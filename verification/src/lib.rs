//! A verified validation engine for declarative configuration schemas.
//!
//! The core is a structural validator for a subset of the JSON Schema
//! Draft 2020-12 vocabulary, evaluated over a generic document tree
//! ([`value::Value`]): recursive schema composition (`allOf`, `anyOf`,
//! `oneOf`, `not`, `if`/`then`/`else`), local `$ref` resolution, and
//! per-keyword type and shape checks, with exact diagnostic-path semantics.
//! Its meaning is written once as a specification ([`semantics::eval`]) and
//! the executable evaluator ([`structural::validate_instance`]) is proved to
//! return exactly that.
//!
//! Around the core stand the typed schema form ([`types::Schema`]) with its
//! semantic cross-reference validator ([`validator::validate_schema`]), the
//! template placeholder engine ([`template`]), and the value resolvers
//! ([`resolver`]); each carries contracts proved against the same style of
//! specification. [`laws`] states the properties that hold of every schema
//! and instance.

pub mod commands;
pub mod errors;
pub mod laws;
pub mod pointer;
pub mod resolver;
pub mod semantics;
pub mod structural;
pub mod strutil;
pub mod template;
pub mod types;
pub mod validator;
pub mod value;
