//! Native JSON-like literals for Rust: a translator from an untyped,
//! JSON-shaped literal (given as a token sequence) to record declarations and
//! a typed construction expression.
//!
//! - [`token`]: the flat token model of the input.
//! - [`grammar`] and [`expr`]: the grammar as spec functions, and where a
//!   leaf ends. syn decides which candidate tokens form a leaf; its answers
//!   are an argument of the grammar, and a parsed document records them.
//!   Leaves are printed from their own tokens.
//! - [`model`] and [`json`]: the node arena, its model, and the parser that
//!   fills it, proved to build exactly what the grammar says.
//! - [`codegen`]: instance mode (generic declarations of every object and a
//!   construction expression) and declare mode (concrete declarations).
//! - [`laws`]: properties that relate parsing and generation.
//! - [`http`] and [`fs`]: the plain-value parts of the HTTP and file helpers.
//!
//! Choices where the design leaves room:
//! - nested objects keep their synthesized names `Object<N>`, numbered in the
//!   order their opening braces appear, also in declare mode;
//! - duplicate keys are kept, all of them, in the order written;
//! - in declare mode a leaf is read as a type where it forms one (so
//!   `HashMap<String, i32>` is one leaf), else as an expression, and `null`
//!   is refused; an empty array declares `Vec<()>`.
pub mod codegen;
pub mod error;
pub mod expr;
pub mod fs;
pub mod grammar;
pub mod http;
pub mod json;
pub mod laws;
pub mod model;
pub mod text;
pub mod token;

pub use codegen::{code_gen, declare_gen, translate};
pub use error::{Expected, SyntaxError};
pub use http::Data;
pub use json::{Array, Expression, Json, Object, Pair};
pub use model::{Value, ValueType};
pub use text::decimal;
pub use token::{Delim, Tok};
