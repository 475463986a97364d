//! Where the file handler looks for a file.

use vstd::prelude::*;
use crate::text::append;

verus! {

/// The path of the file that `rest` names under the base directory: `rest`
/// joined onto the directory as a relative component, with one slash between
/// the two unless the directory is empty or ends in one. Nothing is
/// normalised and nothing is refused, so `..` in `rest` leads out of the
/// directory.
pub open spec fn joined(base_directory: Seq<u8>, rest: Seq<u8>) -> Seq<u8> {
    if base_directory.len() == 0 {
        rest
    } else if base_directory.last() == 0x2F {
        base_directory + rest
    } else {
        base_directory + seq![0x2Fu8] + rest
    }
}

/// The path of the file to read for the rest of a path under `/files/`.
pub fn file_path(base_directory: &[u8], rest: &[u8]) -> (path: Vec<u8>)
    ensures
        path@ == joined(base_directory@, rest@),
{
    let n: usize = base_directory.len();
    let mut path: Vec<u8> = Vec::new();
    append(&mut path, base_directory);
    if n > 0 && base_directory[n - 1] != 0x2F {
        path.push(0x2F);
    }
    append(&mut path, rest);
    path
}

} // verus!
