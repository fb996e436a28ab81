//! Parser and domain model for declarative YAML data pipelines.
pub mod error;
pub mod expr;
pub mod expr_grammar;
pub mod expr_parser;
pub mod expr_laws;
pub mod text;
pub mod types;
pub mod source;
pub mod yaml_value;
pub mod asset;
pub mod document;
pub mod quality;
pub mod quality_yaml;
pub mod rewrite;
pub mod graph;
pub mod dag;
pub mod pipeline;
pub mod sections;
pub mod suites;
pub mod validate;
pub mod variables;
pub mod secrets;
