//! Tour template: template source scanning, template statement grammar,
//! template syntax tree building and validation, size hints and HTML escaping.
pub mod delimiter;
pub mod text;
pub mod parser;
pub mod token;
pub mod tokenizer;
pub mod sizehint;
pub mod path;
pub mod lexer;
pub mod syntax;
pub mod flat;
pub mod ast;
pub mod visitor;
pub mod metadata;
pub mod template;
pub mod error;
pub mod write;
pub mod display;
pub mod render;
pub mod codegen;

pub use crate::display::TemplDisplay;
pub use crate::error::Error;
pub use crate::parser::{ParseError, Parser, StaticVisitor};
pub use crate::render::Template;
pub use crate::write::{Escape, TemplWrite};
