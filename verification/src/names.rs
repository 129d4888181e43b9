//! The names of mesh files: which extension marks one, and what the file is
//! called that holds its translation.

use vstd::prelude::*;
use vstd::string::StringExecFns;

verus! {

/// The extension of a mesh file, without the dot.
pub open spec fn mesh_extension() -> Seq<char> {
    "obj"@
}

/// What is put behind the stem of a source file's name to name its
/// translation.
pub open spec fn output_suffix() -> Seq<char> {
    "_tr.obj"@
}

/// Tells whether `extension`, the part of a file name behind its last dot,
/// marks a mesh file. Letter case counts.
pub fn is_mesh_extension(extension: &str) -> (r: bool)
    ensures
        r == (extension@ == mesh_extension()),
{
    let given: String = extension.to_owned();
    let wanted: String = "obj".to_owned();
    given == wanted
}

/// The name of the file that holds the translation of the source file whose
/// name, without its extension, is `stem`: the stem with the suffix behind
/// it. The file belongs in the directory of the source.
pub fn output_file_name(stem: &str) -> (name: String)
    ensures
        name@ == stem@ + output_suffix(),
{
    let mut name: String = stem.to_owned();
    name.append("_tr.obj");
    name
}

} // verus!
