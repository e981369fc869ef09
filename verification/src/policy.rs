//! The whole way from the text of a document to the text of the header.

use crate::decode::{decode, read_document, DecodeError, ErrorKind, Fault};
use crate::map::keys_ascending;
use crate::model::{Node, CSP};
use crate::render::{header, render};
use crate::yaml::{parse, parsed};
use vstd::prelude::*;

verus! {

/// The policy document that a document text stands for, or why it stands for none.
pub open spec fn document_of(text: Seq<char>) -> Result<Seq<(Seq<char>, Seq<Node>)>, Fault> {
    match parsed(text) {
        None => Err(Fault::at_top(ErrorKind::Syntax)),
        Some(tree) => read_document(tree),
    }
}

/// The header text that a document text stands for, or why it stands for none.
pub open spec fn header_of(text: Seq<char>) -> Result<Seq<char>, Fault> {
    match document_of(text) {
        Ok(document) => Ok(header(document)),
        Err(error) => Err(error),
    }
}

/// What [`compile`] may give for a text: the header that the text stands for, or
/// the error that says why it stands for none.
pub open spec fn compiles_to(text: Seq<char>, outcome: Result<String, DecodeError>) -> bool {
    match header_of(text) {
        Ok(line) => outcome matches Ok(out) && out@ == line,
        Err(fault) => outcome matches Err(error) && error@ == fault,
    }
}

/// Reads a document text as a policy document.
pub fn load(text: &str) -> (outcome: Result<CSP, DecodeError>)
    ensures
        match document_of(text@) {
            Ok(document) => outcome matches Ok(csp) && csp@ == document && keys_ascending(csp@),
            Err(fault) => outcome matches Err(error) && error@ == fault,
        },
{
    match parse(text) {
        Err(_) => Err(DecodeError::at_top(ErrorKind::Syntax)),
        Ok(raw) => decode(&raw),
    }
}

/// Reads a document text and gives the header text of the policy it describes.
pub fn compile(text: &str) -> (outcome: Result<String, DecodeError>)
    ensures
        compiles_to(text@, outcome),
{
    match load(text) {
        Ok(csp) => Ok(render(&csp)),
        Err(error) => Err(error),
    }
}

} // verus!
