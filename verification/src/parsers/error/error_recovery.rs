//! Which parse errors leave the rest of a file usable.

use crate::parsers::error::ParseError;
use vstd::prelude::*;
use vstd::string::*;

verus! {

/// An error that a caller may pass over: a file-format error that names the
/// context and the details.
pub fn recoverable_error(context: &str, details: &str) -> (r: ParseError)
    ensures
        r matches ParseError::FileFormat { description } && description@ == context@ + " - "@
            + details@,
{
    let mut description = context.to_owned();
    description.append(" - ");
    description.append(details);
    ParseError::FileFormat { description }
}

/// Whether the rest of the file can still be used after `error`: so it is
/// after a bad field or a bad format, and after nothing else.
pub fn is_recoverable(error: &ParseError) -> (r: bool)
    ensures
        r == (*error is FieldFormat || *error is FileFormat),
{
    match error {
        ParseError::FieldFormat { .. } => true,
        ParseError::FileFormat { .. } => true,
        _ => false,
    }
}

} // verus!
