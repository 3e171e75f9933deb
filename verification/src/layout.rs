//! Where note files lie: two partitions, and one file per note, named by
//! the note's id.

use vstd::prelude::*;
use crate::text::{chars_of, ends_with, is_suffix, string_of};

verus! {

/// One of the two disjoint storage areas.
#[derive(Clone, Copy, Debug, PartialEq, Eq, Structural)]
pub enum Partition {
    /// The notes in use: the files directly under the storage root.
    Active,
    /// The notes put away: the files in the archive directory under the root.
    Archived,
}

impl Partition {
    /// The partition that this one is not.
    pub open spec fn other(self) -> Partition {
        match self {
            Partition::Active => Partition::Archived,
            Partition::Archived => Partition::Active,
        }
    }

    /// The partition that this one is not.
    pub fn opposite(self) -> (out: Partition)
        ensures
            out == self.other(),
    {
        match self {
            Partition::Active => Partition::Archived,
            Partition::Archived => Partition::Active,
        }
    }

    /// The partition that a directory name stands for: `archive` for the
    /// archive, anything else, or no name, for the active notes.
    pub fn from_subdir(subdir: Option<&str>) -> (out: Partition)
        ensures
            out == match subdir {
                Some(name) => if name@ == "archive"@ {
                    Partition::Archived
                } else {
                    Partition::Active
                },
                None => Partition::Active,
            },
    {
        match subdir {
            Some(name) => {
                if name.to_owned() == "archive".to_owned() {
                    Partition::Archived
                } else {
                    Partition::Active
                }
            },
            None => Partition::Active,
        }
    }

    /// The directory under the storage root that holds the partition's
    /// files; `None` for the root itself.
    pub fn subdir(self) -> (out: Option<String>)
        ensures
            match self {
                Partition::Active => out.is_none(),
                Partition::Archived => out.is_some() && out.unwrap()@ == "archive"@,
            },
    {
        match self {
            Partition::Active => None,
            Partition::Archived => Some("archive".to_owned()),
        }
    }
}

/// The ending of a note file's name.
pub open spec fn extension() -> Seq<char> {
    ".md"@
}

/// The name of the file that holds the note `id`.
pub open spec fn file_name_spec(id: Seq<char>) -> Seq<char> {
    id + extension()
}

/// The id of the note that a file of this name holds: the name without its
/// ending. A name without the ending, or with nothing before it, is no note
/// file.
pub open spec fn note_id_spec(name: Seq<char>) -> Option<Seq<char>> {
    if name.len() > extension().len() && is_suffix(extension(), name) {
        Some(name.subrange(0, name.len() - extension().len()))
    } else {
        None
    }
}

/// The name of the file that holds the note `id`.
pub fn note_file_name(id: &str) -> (out: String)
    ensures
        out@ == file_name_spec(id@),
{
    let mut out = id.to_owned();
    out.append(".md");
    out
}

/// The id of the note that a file of this name holds, if it is a note file.
pub fn note_id_of(name: &str) -> (out: Option<String>)
    ensures
        text_of(out) == note_id_spec(name@),
{
    let chars = chars_of(name);
    let ending = chars_of(".md");
    let n = chars.len();
    assert(chars@.subrange(0, n as int) =~= name@);
    if n > ending.len() && ends_with(&chars, 0, n, &ending) {
        Some(string_of(&chars, 0, n - ending.len()))
    } else {
        None
    }
}

/// The characters of a string that may be missing.
pub open spec fn text_of(value: Option<String>) -> Option<Seq<char>> {
    match value {
        Some(text) => Some(text@),
        None => None,
    }
}

/// A note with an id that is not empty is found again under the name of its
/// file.
pub proof fn lemma_file_name_gives_id(id: Seq<char>)
    requires
        id.len() > 0,
    ensures
        note_id_spec(file_name_spec(id)) == Some(id),
{
    let name = file_name_spec(id);
    assert(name.subrange(name.len() - extension().len(), name.len() as int) =~= extension());
    assert(name.subrange(0, name.len() - extension().len()) =~= id);
}

} // verus!
