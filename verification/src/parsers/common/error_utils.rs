//! Texts of errors, and the check of a file name's extension.

use crate::paths::path_extension;
use crate::text::{ends_with, has_suffix, lowercase, lowercase_spec, option_view};
use vstd::prelude::*;
use vstd::string::*;

verus! {

/// An error text: the context, a colon, the details.
pub fn create_parse_error(context: &str, details: &str) -> (r: String)
    ensures
        r@ == context@ + ": "@ + details@,
{
    let mut out = context.to_owned();
    out.append(": ");
    out.append(details);
    out
}

/// The file name ends with the expected extension, letter case aside.
pub open spec fn extension_ok(filename: Seq<char>, expected: Seq<char>) -> bool {
    has_suffix(lowercase_spec(filename), lowercase_spec(expected))
}

/// The text that reports a wrong extension: what was expected, and what the
/// file name has, `none` where it has no extension.
pub open spec fn extension_message(expected: Seq<char>, found: Option<Seq<char>>) -> Seq<char> {
    "Invalid file extension. Expected: "@ + expected + ", Got: "@ + match found {
        Some(e) => e,
        None => "none"@,
    }
}

/// The text that reports a wrong extension.
pub fn extension_error(expected: &str, found: Option<String>) -> (r: String)
    ensures
        r@ == extension_message(
            expected@,
            option_view(found),
        ),
{
    let mut out = "Invalid file extension. Expected: ".to_owned();
    out.append(expected);
    out.append(", Got: ");
    match found {
        Some(e) => out.append(e.as_str()),
        None => out.append("none"),
    }
    out
}

/// Compares the lower-case forms of a file name and of the expected
/// extension: fine where the first ends with the second, else the error
/// text made of the expected extension and the one found.
pub fn check_extension(
    lower_name: &str,
    lower_expected: &str,
    expected: &str,
    found: Option<String>,
) -> (r: Result<(), String>)
    ensures
        r is Ok <==> has_suffix(lower_name@, lower_expected@),
        r is Err ==> r->Err_0@ == extension_message(
            expected@,
            option_view(found),
        ),
{
    if ends_with(lower_name, lower_expected) {
        Ok(())
    } else {
        Err(extension_error(expected, found))
    }
}

/// Checks that `filename` ends with the extension `expected`, letter case
/// aside. The error names the expected extension and the one that the file
/// name has by the platform's path rules.
pub fn validate_file_extension(filename: &str, expected: &str) -> (r: Result<(), String>)
    ensures
        r is Ok <==> extension_ok(filename@, expected@),
        r is Err ==> exists|found: Option<Seq<char>>|
            r->Err_0@ == extension_message(expected@, found),
{
    let lower_name = lowercase(filename);
    let lower_expected = lowercase(expected);
    let found = path_extension(filename);
    let ghost found_view = option_view(found);
    let r = check_extension(lower_name.as_str(), lower_expected.as_str(), expected, found);
    proof {
        if r is Err {
            assert(r->Err_0@ == extension_message(expected@, found_view));
        }
    }
    r
}

} // verus!
