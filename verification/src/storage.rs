//! Places below the caller's home directory.

use vstd::prelude::*;

verus! {

/// A directory: the segments of its path below a home directory. `H` is how
/// the caller names its home directory.
#[derive(Clone, Debug, PartialEq, Eq)]
pub struct StorageDir<H> {
    pub home: H,
    pub segments: Vec<String>,
}

/// A name that stays in the directory it is used in: it is not empty, does not
/// begin with a dot and holds no path separator.
pub open spec fn is_plain_name(name: Seq<char>) -> bool {
    &&& name.len() > 0
    &&& name[0] != '.'
    &&& forall|i: int| 0 <= i < name.len() ==> #[trigger] name[i] != '/' && name[i] != '\\'
}

/// Hexadecimal digits and hyphens followed by ".json" make a plain name.
pub proof fn lemma_json_file_name_is_plain(stem: Seq<char>)
    requires
        stem.len() > 0,
        forall|i: int|
            0 <= i < stem.len() ==> crate::digest::is_hex_digit(#[trigger] stem[i]) || stem[i]
                == '-',
    ensures
        is_plain_name(stem + ".json"@),
{
    reveal_strlit(".json");
    let name = stem + ".json"@;
    assert forall|i: int| 0 <= i < name.len() implies #[trigger] name[i] != '/' && name[i]
        != '\\' by {
        if i < stem.len() {
            assert(name[i] == stem[i]);
        } else {
            assert(name[i] == ".json"@[i - stem.len()]);
        }
    }
    assert(name[0] == stem[0]);
}

/// A plain name is never one of the two that stand for the directory itself and
/// for the one above it, and joining it to a path adds just one segment.
pub proof fn law_plain_name_stays(name: Seq<char>)
    requires
        is_plain_name(name),
    ensures
        name != ""@,
        name != "."@,
        name != ".."@,
        !name.contains('/'),
        !name.contains('\\'),
{
    reveal_strlit("");
    reveal_strlit(".");
    reveal_strlit("..");
    if name.contains('/') {
        let i = choose|i: int| 0 <= i < name.len() && name[i] == '/';
        assert(name[i] != '/');
    }
    if name.contains('\\') {
        let i = choose|i: int| 0 <= i < name.len() && name[i] == '\\';
        assert(name[i] != '/' && name[i] != '\\');
    }
}

} // verus!
