//! Where a plugin's code is looked for: the marker root of built-in
//! plugins, and the file names a shared library may have.
use vstd::prelude::*;

use std::path::PathBuf;

use crate::ids::PluginId;
use crate::text::{concat2, concat3};

verus! {

/// The path `PathBuf::from` makes of a string.
pub uninterp spec fn path_named(text: Seq<char>) -> PathBuf;

/// `PathBuf::from` on a string: the path of that text.
#[verifier::external_body]
fn path_from(text: String) -> (r: PathBuf)
    ensures
        r == path_named(text@),
{
    PathBuf::from(text)
}

/// The root recorded for a built-in plugin, which lives in no directory:
/// `builtin://` followed by its id.
pub fn builtin_marker(id: &PluginId) -> (r: PathBuf)
    ensures
        r == path_named("builtin://"@ + id@),
{
    path_from(concat2("builtin://", id.as_str()))
}

/// The file names the library of plugin `id` may have, in the order they
/// are tried: `<id><suffix>`, `lib<id><suffix>`, `<id>`, `lib<id>`.
pub fn candidate_names(id: &str, suffix: &str) -> (r: Vec<String>)
    ensures
        r@.len() == 4,
        r@[0]@ == id@ + suffix@,
        r@[1]@ == "lib"@ + id@ + suffix@,
        r@[2]@ == id@,
        r@[3]@ == "lib"@ + id@,
{
    let mut names: Vec<String> = Vec::new();
    names.push(concat2(id, suffix));
    names.push(concat3("lib", id, suffix));
    names.push(String::from_str(id));
    names.push(concat2("lib", id));
    names
}

} // verus!
