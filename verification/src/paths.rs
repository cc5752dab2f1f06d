//! File names in the directories of the program.
use std::path::PathBuf;
use vstd::prelude::*;

verus! {

/// `std::path::PathBuf`, a path in the form of the operating system.
#[verifier::external_type_specification]
#[verifier::external_body]
pub struct ExPathBuf(std::path::PathBuf);

/// The components of a path, from the outermost directory to the last name: its text,
/// cut at the separators of the operating system and behind a drive prefix, without
/// empty parts. This is plainer than how the standard library takes a path apart.
pub uninterp spec fn components(path: PathBuf) -> Seq<Seq<char>>;

/// Whether a character may stand in a plain name on every operating system.
pub open spec fn is_name_char(c: char) -> bool {
    ('a' <= c && c <= 'z') || ('0' <= c && c <= '9') || c == '_' || c == '-' || c == '.'
}

/// Whether `name` is one plain component: some letters, digits, underscores,
/// hyphens and dots, and not just dots.
pub open spec fn is_plain_name(name: Seq<char>) -> bool {
    &&& forall|i: int| 0 <= i < name.len() ==> is_name_char(#[trigger] name[i])
    &&& exists|i: int| 0 <= i < name.len() && #[trigger] name[i] != '.'
}

/// Calls `Path::join`. A plain name that is joined to a path becomes one more
/// component behind those of the path.
#[verifier::external_body]
pub(crate) fn join(path: &PathBuf, name: &str) -> (r: PathBuf)
    requires
        is_plain_name(name@),
    ensures
        components(r) == components(*path).push(name@),
{
    path.join(name)
}

} // verus!
