//! The two schema translators and the DSL object model they share.

pub mod data_source;
pub mod error;
pub mod generator;
pub mod json_translator;
pub mod field;
pub mod model;
pub mod prisma_translator;
pub mod relation;
pub mod schema;
pub mod unique_flag;
