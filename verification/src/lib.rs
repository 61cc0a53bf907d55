pub mod text;
pub mod chars;
pub mod source;
pub mod diagnostic;
pub mod lexer;
pub mod model;
pub mod archimate;
pub mod handwritten_parser;
pub mod preprocessor;
pub mod lookup;
pub mod view_expression;
pub mod expand;
pub mod validate;
pub mod parser;
pub mod mermaid;
pub mod compiler;
pub mod laws;
pub mod inspect;
pub mod merge;
pub mod xml;
pub mod archi_native;
pub mod projection;
pub mod semantic;
pub mod exporters;
pub mod archi_export;
pub mod archi_layout;
pub mod json;
pub mod documentation;
