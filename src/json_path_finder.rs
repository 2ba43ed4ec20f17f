//! Finding the path to a value inside a document.

use vstd::prelude::*;
use crate::path_finder::{self, first_occurrence};
use crate::paths::string_views;
use crate::value::JsonValue;

verus! {

/// The path of the first node of `value` equal to `target`, in document
/// order; `path` holds the segments of the path of `value` itself (usually
/// just `$`). Segments are joined with `.`, array positions written `[i]`.
pub fn find_json_path(value: &JsonValue, target: &JsonValue, path: Vec<String>) -> (r: Option<
    String,
>)
    ensures
        match r {
            Some(p) => first_occurrence(value@, target@, string_views(path@)) == Some(p@),
            None => first_occurrence(value@, target@, string_views(path@)) is None,
        },
{
    path_finder::find_json_path(value, target, path)
}

} // verus!
