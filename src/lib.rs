//! Compile-time expansion of HTML-like templates into virtual-DOM construction code.

pub mod text;
pub mod error;
pub mod text_part;
pub mod element;
pub mod clean;
pub mod code;
pub mod i18n;
pub mod config;
pub mod args;
pub mod codegen;
pub mod tree;
pub mod helper;
pub mod pot;
pub mod call;
pub mod laws;
