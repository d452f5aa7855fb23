//! Where the alignment records come from.

use vstd::prelude::*;
use vstd::string::*;

verus! {

/// The source of the records, decided once from the argument given.
#[derive(Debug, PartialEq, Eq)]
pub enum InputSource {
    /// The standard input stream.
    StandardStream,
    /// The file at this path.
    FilePath(String),
}

/// The argument that stands for the standard input: a single hyphen.
pub open spec fn names_standard_stream(path: Seq<char>) -> bool {
    path.len() == 1 && path[0] == '-'
}

/// The source that an argument names: the standard input for a single
/// hyphen, else the file at that path.
pub fn resolve_input(path: &str) -> (source: InputSource)
    ensures
        names_standard_stream(path@) <==> source is StandardStream,
        source matches InputSource::FilePath(file) ==> file@ == path@,
{
    if path.unicode_len() == 1 && path.get_char(0) == '-' {
        InputSource::StandardStream
    } else {
        InputSource::FilePath(String::from_str(path))
    }
}

} // verus!
