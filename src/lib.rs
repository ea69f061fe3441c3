//! Compiler core for reactive UI templates: a dependency solver over
//! template expressions, a scope stack that records how to reach each
//! dynamic node, a reconciler that generates build, new-instance and render
//! code for repeated sections, a model of the rows those sections keep at
//! run time, a dispatch generator for message enums, and the error types of
//! the template lexer.

pub mod each;
pub mod error;
pub mod messages;
pub mod solver;
pub mod table;
