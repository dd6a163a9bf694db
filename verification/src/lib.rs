//! Core of a configuration-driven command launcher: a catalog of categories,
//! subcategories and commands with parameterized executable templates; a
//! name-keyed recursive catalog merge; a parameter resolver applying the
//! precedence override > declared default > optional-empty; and a small
//! template renderer with one dynamic-parameter operation.

pub mod arguments;
pub mod cli;
pub mod cli_utils;
pub mod context;
pub mod lookup;
pub mod menu;
pub mod merge;
pub mod models;
pub mod namespace;
pub mod render;
pub mod template;
pub mod text;
