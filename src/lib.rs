//! Distinct, non-interchangeable index types over primitive integers.
//!
//! A [`registry::TypeSystem`] holds the declared index, offset and sequence
//! types together with the arithmetic and indexing relations allowed between
//! them. Declarations are read from a small grammar ([`parser`], [`dsl`]).
//! Values carry the type they belong to ([`value`]); an operator is only
//! available where a relation was declared, every numeric conversion is
//! checked, subscripts are checked against the sequence's length
//! ([`index`]), and ranges of values can be stepped through ([`range`]).
//!
//! [`interval`] and [`rmq`] build on plain indices: half-open intervals and
//! range-minimum queries over power-of-two tables.
pub mod prim;
pub mod lexer;
pub mod parser;
pub mod registry;
pub mod decl;
pub mod dsl;
pub mod value;
pub mod index;
pub mod range;
pub mod interval;
pub mod rmq;
pub mod text;
