//! A Markdown-to-HTML site generator core: a Markdown document parser and a
//! template rendering engine with variable substitution, defaults, and
//! missing-variable reporting.

pub mod builder;
pub mod document;
pub mod pages;
pub mod parser;
pub mod template;
pub mod template_element;
pub mod template_errors;
pub mod template_page;
pub mod template_string;
pub mod text;
