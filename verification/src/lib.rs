//! Front end of a small schema language.
//!
//! Source text declares variables (`var name, type;` or
//! `var name, type, value;`) and groups them into records
//! (`record Name { ... }`) and tuples (`tuple { ... }`). Parsing turns the
//! text into nodes that identify names and types by a 64-bit FNV-1a hash of
//! their bytes rather than by the bytes themselves.
//!
//! - [`hash`] is the identity hash.
//! - [`lexer`] recognizes single tokens and skips blank space.
//! - [`ast`] holds the nodes and assembles them from the texts of their names.
//! - [`grammar`] holds the rules for variables, records, tuples and whole
//!   texts; [`grammar::parse`] is the way in.
//! - [`layout`] proves that the spacing of a text does not change what it
//!   parses to.
//! - [`locality`] proves that a rule reads the text from its cursor on and
//!   nothing before it.
//!
//! Every executable function is verified against a contract over the bytes
//! of the text, and none of them panics.

pub mod ast;
pub mod grammar;
pub mod hash;
pub mod layout;
pub mod lexer;
pub mod locality;
