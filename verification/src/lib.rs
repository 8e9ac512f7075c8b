//! A formatter for Python-literal-like data expressions: text is parsed into a
//! value tree, and the tree is laid out again within a given line width.
//!
//! The values are in [`value`], with [`floats`] for the floats among them.
//! [`grammar`] says, as functions on sequences of characters, what text is
//! read as which value; [`parse`] holds the parsers, which are proved to read
//! what the grammar says, with [`scan`] and [`descent`] below them. [`print`]
//! turns a value into a [`document`], and [`layout`] lays a document out with
//! the `pretty` crate; [`expand`] writes a value with every sequence over
//! several lines. [`options`] holds what the caller can choose, [`error`] what
//! a failed parse reports, and [`text`] the conversions between strings and
//! characters.
//!
//! [`trusted`] lists what is taken on trust of other crates and of the
//! standard library. [`laws`] states what holds of the grammar, of equality,
//! and of printing and parsing together; [`canon`], [`context`], [`flat`],
//! [`roundtrip`] and [`sound`] hold the definitions and the proofs behind it.

pub mod canon;
pub mod context;
pub mod descent;
pub mod document;
pub mod error;
pub mod expand;
pub mod flat;
pub mod floats;
pub mod grammar;
pub mod laws;
pub mod layout;
pub mod options;
pub mod parse;
pub mod print;
pub mod roundtrip;
pub mod scan;
pub mod sound;
pub mod text;
pub mod trusted;
pub mod value;
