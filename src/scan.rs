//! The filters that pick the source images out of a directory walk.

use vstd::prelude::*;

use crate::common::{image_extension, is_image_extension};
use crate::common::paths::{extension, extension_spec, file_name, file_name_spec};

verus! {

/// Whether an entry of this name is hidden, and skipped with all beneath it.
pub fn is_hidden(name: &str) -> (r: bool)
    ensures
        r == (name@.len() > 0 && name@[0] == '.'),
{
    name.unicode_len() > 0 && name.get_char(0) == '.'
}

/// Whether the file at `p` has the extension of a tracked image format.
pub open spec fn is_image_spec(p: Seq<char>) -> bool {
    let e = extension_spec(file_name_spec(p));
    e is Some && is_image_extension(e->0)
}

/// Whether the file at `path` has the extension of a tracked image format.
pub fn is_image(path: &str) -> (r: bool)
    ensures
        r == is_image_spec(path@),
{
    let n = file_name(path);
    match extension(n.as_str()) {
        None => false,
        Some(e) => image_extension(e.as_str()),
    }
}

} // verus!
