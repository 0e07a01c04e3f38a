//! The stage of a compiler that lifts pattern matches out of function bodies.
//!
//! A `match` on a variable whose patterns discriminate a tuple or an algebraic
//! type becomes a call of a new top-level definition with one rule for each
//! arm. The shape that the patterns discriminate is inferred over a small
//! lattice; patterns that do not agree are an error. Beside that stage stand
//! the imports of a program: declaring them, binding the imported names and
//! taking the definitions of the loaded packages into the program.
//!
//! Every function is verified against a contract over the views of the data:
//! `extract` states the rewrite, `laws` what follows from it.

pub mod apply;
pub mod book;
pub mod errors;
pub mod extract;
pub mod imports;
pub mod lattice;
pub mod laws;
pub mod subst;
pub mod table;
pub mod term;
pub mod text;
