//! From source text to everything that is kept of a program: its tokens as
//! text, its code, the listing of the code and its binary image.

use crate::error::CompileError;
use crate::grammar;
use crate::image::{image_of, write_codes, ByteOrder};
use crate::lexer::{scan, tokenize, tokens_before, tokens_of, LexError};
use crate::listing::{format_listing, listing};
use crate::opcode::Code;
use crate::parser::Compiler;
use crate::tokenfile::{token_text, write_tokens};
use vstd::prelude::*;

verus! {

/// Why a source text yields no program.
#[derive(Debug, Clone, Copy, PartialEq, Eq, Structural)]
pub enum BuildError {
    /// The lexer rejected the text.
    Lex(LexError),
    /// The compiler rejected the tokens.
    Compile(CompileError),
}

/// What a build produces.
#[derive(Debug)]
pub struct Build {
    /// The token stream as text, one token in each line.
    pub words: Vec<u8>,
    /// The code.
    pub codes: Vec<Code>,
    /// The listing of the code.
    pub listing: String,
    /// The binary image of the code.
    pub image: Vec<u8>,
}

/// A build as a mathematical value.
pub struct BuildView {
    pub words: Seq<u8>,
    pub codes: Seq<Code>,
    pub listing: Seq<char>,
    pub image: Seq<u8>,
}

impl View for Build {
    type V = BuildView;

    open spec fn view(&self) -> BuildView {
        BuildView {
            words: self.words@,
            codes: self.codes@,
            listing: self.listing@,
            image: self.image@,
        }
    }
}

/// What the source `src` builds into: the text of its tokens, the code of
/// the program that they form, its listing and its image; or the error of
/// the first stage that fails. No later stage is tried after a failure.
pub open spec fn built(src: Seq<u8>, order: ByteOrder) -> Result<BuildView, BuildError> {
    match tokens_of(src) {
        Err(e) => Err(BuildError::Lex(e)),
        Ok(ts) => match grammar::program(ts) {
            Err(e) => Err(BuildError::Compile(e)),
            Ok(p) => Ok(
                BuildView {
                    words: token_text(ts),
                    codes: p.code,
                    listing: listing(p.code),
                    image: image_of(p.code, order),
                },
            ),
        },
    }
}

/// The token text of a source, and the error of the lexer, if there is one.
#[derive(Debug)]
pub struct Words {
    /// The lines of the tokens that stand before the first illegal
    /// character; of all tokens where there is none.
    pub text: Vec<u8>,
    pub error: Option<LexError>,
}

/// Writes the token text of a source up to its first illegal character, and
/// hands it back together with the error.
pub fn words(src: &[u8]) -> (w: Words)
    ensures
        w.text@ == token_text(tokens_before(src@, 0)),
        match tokens_of(src@) {
            Ok(ts) => w.error is None && w.text@ == token_text(ts),
            Err(e) => w.error == Some(e),
        },
{
    let scanned = scan(src);
    Words { text: write_tokens(&scanned.tokens), error: scanned.error }
}

/// Builds a source text.
pub fn build(src: &[u8], order: ByteOrder) -> (r: Result<Build, BuildError>)
    ensures
        match built(src@, order) {
            Ok(b) => r is Ok && r->Ok_0@ == b,
            Err(e) => r == Err::<Build, BuildError>(e),
        },
{
    let tokens = match tokenize(src) {
        Err(e) => {
            return Err(BuildError::Lex(e));
        },
        Ok(tokens) => tokens,
    };
    let codes = match Compiler::test_parse(&tokens) {
        Err(e) => {
            return Err(BuildError::Compile(e));
        },
        Ok(codes) => codes,
    };
    let words = write_tokens(&tokens);
    let listing = format_listing(codes.as_slice());
    let image = write_codes(codes.as_slice(), order);
    Ok(Build { words, codes, listing, image })
}

} // verus!
