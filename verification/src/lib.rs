//! A small structured language compiled to bytecode for a stack machine,
//! together with the machine itself.
//!
//! `lexer` turns source text into tokens, `parser` turns tokens into code
//! as `grammar` describes it, and `machine` runs the records of an image.
//! `image` and `listing` write code as bytes and as text, and `driver` runs
//! the stages from source text to image.

pub mod driver;
pub mod error;
pub mod grammar;
pub mod image;
pub mod lexer;
pub mod listing;
pub mod machine;
pub mod opcode;
pub mod parser;
pub mod symbol;
pub mod text;
pub mod token;
pub mod tokenfile;
pub mod trace;

pub use crate::image::{init_map, read_codes, Record};
pub use crate::listing::display_codes;
pub use crate::machine::test_machine;
pub use crate::opcode::{Code, Opt};
