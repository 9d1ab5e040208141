//! The parser adapter: wraps the opaque grammar capability behind a
//! trusted call, and decides the outcome of one source unit.

use vstd::prelude::*;

verus! {

/// Whether the grammar's parse tree for `bytes` contains a syntax error
/// node. The grammar is fixed, so the result depends on the bytes alone.
pub uninterp spec fn parse_has_error(bytes: Seq<u8>) -> bool;

/// Whether `bytes` decode as valid UTF-8 text.
pub uninterp spec fn is_utf8(bytes: Seq<u8>) -> bool;

/// Relies on tree_sitter::Parser (new, set_language, parse) with the fixed
/// Clojure grammar of tree_sitter_clojure::LANGUAGE, and on
/// Tree::root_node and Node::has_error: parsing never fails on any input
/// bytes, and the error flag is a function of the bytes alone. A fresh
/// parser instance is constructed per call, as the grammar engine is not
/// safe for concurrent reuse of one instance. `None` reports the fatal,
/// configuration-level case that the grammar cannot be loaded or run.
#[verifier::external_body]
fn parse_check(bytes: &Vec<u8>) -> (r: Option<bool>)
    ensures
        r matches Some(e) ==> e == parse_has_error(bytes@),
{
    let mut parser = tree_sitter::Parser::new();
    if parser.set_language(&tree_sitter_clojure::LANGUAGE.into()).is_err() {
        return None;
    }
    match parser.parse(bytes.as_slice(), None) {
        Some(tree) => Some(tree.root_node().has_error()),
        None => None,
    }
}

/// Relies on core::str::from_utf8: it accepts exactly the byte sequences
/// that are valid UTF-8.
#[verifier::external_body]
fn utf8_check(bytes: &Vec<u8>) -> (r: bool)
    ensures
        r == is_utf8(bytes@),
{
    core::str::from_utf8(bytes.as_slice()).is_ok()
}

/// The outcome of one source unit.
#[derive(Clone, Copy, Debug, PartialEq, Eq, Structural)]
pub enum Outcome {
    /// The unit was read and parsed without a syntax error.
    Clean,
    /// The unit was read and its parse tree contains a syntax error.
    SyntaxError,
    /// The unit's bytes are not valid text; no parse was attempted.
    Unreadable,
}

/// An error that ends the whole run.
#[derive(Clone, Debug, PartialEq, Eq)]
pub enum FatalError {
    /// The grammar collaborator itself cannot be constructed or run.
    ParserUnavailable,
    /// An archive is not a valid container of the expected format.
    InvalidArchive,
    /// An input path does not exist.
    MissingInput { path: Vec<u8> },
}

/// The outcome owed for a file read from disk as raw bytes.
pub open spec fn file_outcome(bytes: Seq<u8>) -> Outcome {
    if !is_utf8(bytes) {
        Outcome::Unreadable
    } else if parse_has_error(bytes) {
        Outcome::SyntaxError
    } else {
        Outcome::Clean
    }
}

/// The view of an optional byte vector.
pub open spec fn opt_bytes_view(o: Option<Vec<u8>>) -> Option<Seq<u8>> {
    match o {
        None => None,
        Some(v) => Some(v@),
    }
}

/// The outcome owed for an archive member whose text is `text` when it was
/// readable as valid text and absent otherwise.
pub open spec fn member_outcome(text: Option<Seq<u8>>) -> Outcome {
    match text {
        None => Outcome::Unreadable,
        Some(b) => if parse_has_error(b) {
            Outcome::SyntaxError
        } else {
            Outcome::Clean
        },
    }
}

/// Decides the outcome of a file's raw bytes: non-text bytes are
/// unreadable and never parsed; text is parsed and flagged if and only if
/// its parse tree has a syntax error.
pub fn evaluate_file(bytes: &Vec<u8>) -> (r: Result<Outcome, FatalError>)
    ensures
        r matches Ok(o) ==> o == file_outcome(bytes@),
        r matches Err(e) ==> e == FatalError::ParserUnavailable && is_utf8(bytes@),
{
    if !utf8_check(bytes) {
        Ok(Outcome::Unreadable)
    } else {
        match parse_check(bytes) {
            Some(true) => Ok(Outcome::SyntaxError),
            Some(false) => Ok(Outcome::Clean),
            None => Err(FatalError::ParserUnavailable),
        }
    }
}

/// Decides the outcome of an archive member from its extracted text.
pub fn evaluate_member(text: &Option<Vec<u8>>) -> (r: Result<Outcome, FatalError>)
    ensures
        r matches Ok(o) ==> o == member_outcome(opt_bytes_view(*text)),
        r matches Err(e) ==> e == FatalError::ParserUnavailable && text is Some,
{
    match text {
        None => Ok(Outcome::Unreadable),
        Some(b) => match parse_check(b) {
            Some(true) => Ok(Outcome::SyntaxError),
            Some(false) => Ok(Outcome::Clean),
            None => Err(FatalError::ParserUnavailable),
        },
    }
}

} // verus!
