//! Validation and incremental parsing of QPL, a line-numbered language of
//! query plans, against a relational schema. An input is classified as a
//! complete program, a prefix that more input may complete, or a failure.
//!
//! - `lexer`: literals, numbers, operators, and the `Incomplete` /
//!   `Mismatch` / `Cut` distinction on inputs that may go on
//! - `names`: longest-first, case-insensitive choice among names
//! - `keys`: primary- and foreign-key classification of columns
//! - `state`, `shared`, `outputs`, `ops`: the binding state, shared
//!   sub-parsers, output lists and the ten operations
//! - `program`: lines and programs; `registry`: the schemas by id
//! - `api`: the prefixed program, classification and validation, and
//!   classification of decoded model output
//! - `partiality`: how the primitives behave on prefixes and extensions

pub mod api;
pub mod domain;
pub mod keys;
pub mod lexer;
pub mod names;
pub mod ops;
pub mod outputs;
pub mod partiality;
pub mod program;
pub mod registry;
pub mod schemas;
pub mod shared;
pub mod state;
