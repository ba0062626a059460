//! From a directory entry to the key of its category.

use crate::text::{extension_of, find_last_dot, lemma_last_dot, lowercase, to_lowercase};
use vstd::prelude::*;

verus! {

/// What kind of object a directory entry is.
#[derive(Clone, Copy, Debug, PartialEq, Eq, Structural)]
pub enum EntryKind {
    File,
    Directory,
}

/// One object found in the scanned directory.
#[derive(Debug, PartialEq, Eq)]
pub struct Entry {
    /// Where the object is.
    pub path: String,
    /// Its file name, the last component of `path`.
    pub name: String,
    /// Its kind as the listing reports it. Whether a link counts as what it
    /// points to is for the one who lists to decide.
    pub kind: EntryKind,
}

/// An `Entry` with its texts as character sequences.
pub struct EntryView {
    pub path: Seq<char>,
    pub name: Seq<char>,
    pub kind: EntryKind,
}

impl View for Entry {
    type V = EntryView;

    open spec fn view(&self) -> EntryView {
        EntryView { path: self.path@, name: self.name@, kind: self.kind }
    }
}

/// The key under which every directory is sorted.
pub open spec fn folder_key() -> Seq<char> {
    "folder"@
}

/// The key of a file extension that is already in lower case: the extension
/// behind a dot.
pub open spec fn extension_key(lowered: Seq<char>) -> Seq<char> {
    seq!['.'] + lowered
}

/// The key of the category of an entry. A directory has the folder key
/// whatever its name. A file has the key of what follows the last dot of
/// its name, in lower case, and none where its name has no dot.
pub open spec fn category_key(name: Seq<char>, kind: EntryKind) -> Option<Seq<char>> {
    match kind {
        EntryKind::Directory => Some(folder_key()),
        EntryKind::File => match extension_of(name) {
            Some(extension) => Some(extension_key(lowercase(extension))),
            None => None,
        },
    }
}

/// Builds the key of an extension from its lower-case form.
pub fn key_of_extension(lowered: &str) -> (key: String)
    ensures
        key@ == extension_key(lowered@),
{
    proof {
        reveal_strlit(".");
        assert("."@ =~= seq!['.']);
    }
    ".".to_owned().concat(lowered)
}

/// Classifies an entry by its kind and name.
pub fn classify(name: &str, kind: EntryKind) -> (key: Option<String>)
    ensures
        match key {
            Some(k) => category_key(name@, kind) == Some(k@),
            None => category_key(name@, kind) is None,
        },
{
    match kind {
        EntryKind::Directory => Some("folder".to_owned()),
        EntryKind::File => match find_last_dot(name) {
            Some(i) => {
                proof {
                    lemma_last_dot(name@);
                }
                let length: usize = name.unicode_len();
                let extension = name.substring_char(i + 1, length);
                proof {
                    assert(name@.subrange(i + 1, length as int) == name@.skip(i + 1));
                }
                let lowered = to_lowercase(extension);
                Some(key_of_extension(lowered.as_str()))
            },
            None => None,
        },
    }
}

/// Classification is blind to the case of letters: files whose extensions
/// have the same lower-case form have the same key.
pub proof fn lemma_classify_ignores_case(a: Seq<char>, b: Seq<char>)
    requires
        extension_of(a) is Some,
        extension_of(b) is Some,
        lowercase(extension_of(a)->0) == lowercase(extension_of(b)->0),
    ensures
        category_key(a, EntryKind::File) == category_key(b, EntryKind::File),
{
}

} // verus!
