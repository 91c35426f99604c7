//! Typed client bindings for exported entry points: the module-aware symbol
//! resolver, the transitive type-usage collector, and the naming helpers that
//! the code emitters rely on.

pub mod alias;
pub mod cli;
pub mod collection_laws;
pub mod collector;
pub mod config;
pub mod generator;
pub mod lemmas;
pub mod lookup;
pub mod models;
pub mod parser;
pub mod paths;
pub mod resolver;
pub mod scanner;
pub mod scope;
pub mod text;
pub mod utils;
