//! A minimal attribute-markup parser for one-line tag expressions such as
//! `<div width="40", height="100">`.

pub mod attrs;
pub mod grammar;
pub mod laws;
pub mod parser;
pub mod scan;

pub use attrs::Attributes;
pub use parser::Expected;
pub use parser::ParseError;
pub use parser::Tag;
pub use parser::parse;
pub use parser::parse_attribute;
pub use parser::parse_key;
pub use parser::parse_val;
