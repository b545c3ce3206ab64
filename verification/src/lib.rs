//! Translates a relational catalog snapshot into two on-disk schema
//! representations: a JSON description and a DSL schema file, with a parser
//! that reads the DSL text back into the same in-memory schema model.

pub mod database;
pub mod session;
pub mod sql;
pub mod structure;
pub mod text;
pub mod translators;
