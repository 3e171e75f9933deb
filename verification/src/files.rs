//! The files of one partition: each note's text under the note's id.
//!
//! A partition holds at most one file for an id, as a directory holds one
//! file of a name.

use vstd::prelude::*;
use vstd::seq_lib::*;
use crate::codec::{decode, decode_spec};
use crate::note::{is_listing, sort_notes, NoteBlock};

verus! {

/// The text of one note file, with the id that its name gives.
pub struct NoteFile {
    pub id: String,
    pub text: String,
}

/// No two files have the same id.
pub open spec fn distinct_ids(files: Seq<NoteFile>) -> bool {
    forall|i: int, j: int| 0 <= i < j < files.len() ==> files[i].id@ != files[j].id@
}

/// One of the files has this id.
pub open spec fn holds(files: Seq<NoteFile>, id: Seq<char>) -> bool {
    exists|i: int| 0 <= i < files.len() && (#[trigger] files[i]).id@ == id
}

/// The index of a file with this id.
pub open spec fn index_of(files: Seq<NoteFile>, id: Seq<char>) -> int {
    choose|i: int| 0 <= i < files.len() && (#[trigger] files[i]).id@ == id
}

/// The texts of the files, by id.
pub open spec fn files_map(files: Seq<NoteFile>) -> Map<Seq<char>, Seq<char>> {
    Map::new(|id: Seq<char>| holds(files, id), |id: Seq<char>| files[index_of(files, id)].text@)
}

/// `notes` lists the files of a partition: each note is what the file of its
/// id decodes to, every file has its note, and no id comes twice.
pub open spec fn lists(notes: Seq<NoteBlock>, files: Map<Seq<char>, Seq<char>>) -> bool {
    &&& forall|i: int|
        0 <= i < notes.len() ==> files.contains_key((#[trigger] notes[i]).id@) && notes[i]@
            == decode_spec(files[notes[i].id@], notes[i].id@)
    &&& forall|id: Seq<char>| #[trigger]
        files.contains_key(id) ==> exists|i: int|
            0 <= i < notes.len() && (#[trigger] notes[i]).id@ == id
    &&& forall|i: int, j: int|
        0 <= i < j < notes.len() ==> (#[trigger] notes[i]).id@ != (#[trigger] notes[j]).id@
}

/// Where ids are distinct, each file's text is what the map holds for its id.
pub proof fn lemma_files_map(files: Seq<NoteFile>)
    requires
        distinct_ids(files),
    ensures
        forall|i: int|
            0 <= i < files.len() ==> files_map(files).contains_key((#[trigger] files[i]).id@)
                && files_map(files)[files[i].id@] == files[i].text@,
        forall|id: Seq<char>| #[trigger]
            files_map(files).contains_key(id) ==> 0 <= index_of(files, id) < files.len()
                && files[index_of(files, id)].id@ == id,
{
    assert forall|i: int| 0 <= i < files.len() implies files_map(files).contains_key(
        (#[trigger] files[i]).id@,
    ) && files_map(files)[files[i].id@] == files[i].text@ by {
        let id = files[i].id@;
        assert(holds(files, id));
        let k = index_of(files, id);
        assert(k == i);
    }
}

/// The files of one partition.
pub struct NoteFiles {
    files: Vec<NoteFile>,
}

impl View for NoteFiles {
    type V = Map<Seq<char>, Seq<char>>;

    closed spec fn view(&self) -> Map<Seq<char>, Seq<char>> {
        files_map(self.files@)
    }
}

impl NoteFiles {
    /// No id has two files.
    pub closed spec fn wf(&self) -> bool {
        distinct_ids(self.files@)
    }

    /// A partition without files.
    pub fn new() -> (out: NoteFiles)
        ensures
            out.wf(),
            out@ == Map::<Seq<char>, Seq<char>>::empty(),
    {
        let out = NoteFiles { files: Vec::new() };
        assert(out@ =~= Map::<Seq<char>, Seq<char>>::empty());
        out
    }

    fn position(&self, id: &String) -> (out: Option<usize>)
        requires
            self.wf(),
        ensures
            match out {
                Some(i) => i < self.files@.len() && self.files@[i as int].id@ == id@,
                None => !holds(self.files@, id@),
            },
    {
        let mut i: usize = 0;
        while i < self.files.len()
            invariant
                i <= self.files@.len(),
                forall|k: int| 0 <= k < i ==> (#[trigger] self.files@[k]).id@ != id@,
            decreases self.files@.len() - i,
        {
            if self.files[i].id == *id {
                return Some(i);
            }
            i += 1;
        }
        None
    }

    /// Whether the partition has a file for `id`.
    pub fn contains(&self, id: &str) -> (out: bool)
        requires
            self.wf(),
        ensures
            out == self@.contains_key(id@),
    {
        let key = id.to_owned();
        self.position(&key).is_some()
    }

    /// The text of the file for `id`, if there is one.
    pub fn text_of(&self, id: &str) -> (out: Option<String>)
        requires
            self.wf(),
        ensures
            match out {
                Some(text) => self@.contains_key(id@) && text@ == self@[id@],
                None => !self@.contains_key(id@),
            },
    {
        let key = id.to_owned();
        proof {
            lemma_files_map(self.files@);
        }
        match self.position(&key) {
            Some(i) => Some(self.files[i].text.clone()),
            None => None,
        }
    }

    /// Writes the file for `id`, in place of the one that was there.
    pub fn put(&mut self, id: &str, text: String)
        requires
            old(self).wf(),
        ensures
            final(self).wf(),
            final(self)@ == old(self)@.insert(id@, text@),
    {
        let key = id.to_owned();
        let ghost before = self.files@;
        proof {
            lemma_files_map(before);
        }
        match self.position(&key) {
            Some(i) => {
                let file = NoteFile { id: key, text };
                self.files.set(i, file);
                proof {
                    let after = self.files@;
                    assert(distinct_ids(after));
                    lemma_files_map(after);
                    assert forall|other: Seq<char>| files_map(after).contains_key(other)
                        == files_map(before).insert(id@, text@).contains_key(other) by {
                        if holds(after, other) {
                            let k = index_of(after, other);
                            assert(before[k].id@ == other);
                        }
                        if holds(before, other) {
                            let k = index_of(before, other);
                            assert(after[k].id@ == other);
                        }
                        if other == id@ {
                            assert(after[i as int].id@ == other);
                        }
                    }
                    assert forall|other: Seq<char>| files_map(after).contains_key(
                        other,
                    ) implies files_map(after)[other] == files_map(before).insert(
                        id@,
                        text@,
                    )[other] by {
                        let k = index_of(after, other);
                        assert(after[k].id@ == other);
                        if k != i {
                            assert(before[k] == after[k]);
                        }
                    }
                    assert(files_map(after) =~= files_map(before).insert(id@, text@));
                }
            },
            None => {
                let file = NoteFile { id: key, text };
                self.files.push(file);
                proof {
                    let after = self.files@;
                    assert forall|i: int, j: int| 0 <= i < j < after.len() implies after[i].id@
                        != after[j].id@ by {
                        if j == before.len() {
                            assert(before[i].id@ != id@);
                        }
                    }
                    lemma_files_map(after);
                    assert forall|other: Seq<char>| files_map(after).contains_key(other)
                        == files_map(before).insert(id@, text@).contains_key(other) by {
                        if holds(after, other) {
                            let k = index_of(after, other);
                            if k < before.len() {
                                assert(before[k].id@ == other);
                            }
                        }
                        if holds(before, other) {
                            let k = index_of(before, other);
                            assert(after[k].id@ == other);
                        }
                        if other == id@ {
                            assert(after[before.len() as int].id@ == other);
                        }
                    }
                    assert forall|other: Seq<char>| files_map(after).contains_key(
                        other,
                    ) implies files_map(after)[other] == files_map(before).insert(
                        id@,
                        text@,
                    )[other] by {
                        let k = index_of(after, other);
                        assert(after[k].id@ == other);
                        if k < before.len() {
                            assert(before[k] == after[k]);
                        }
                    }
                    assert(files_map(after) =~= files_map(before).insert(id@, text@));
                }
            },
        }
    }

    /// Removes the file for `id` and hands its text out, if there is one.
    pub fn remove(&mut self, id: &str) -> (out: Option<String>)
        requires
            old(self).wf(),
        ensures
            final(self).wf(),
            final(self)@ == old(self)@.remove(id@),
            match out {
                Some(text) => old(self)@.contains_key(id@) && text@ == old(self)@[id@],
                None => !old(self)@.contains_key(id@),
            },
    {
        let key = id.to_owned();
        let ghost before = self.files@;
        proof {
            lemma_files_map(before);
        }
        match self.position(&key) {
            Some(i) => {
                let file = self.files.remove(i);
                proof {
                    let after = self.files@;
                    assert forall|a: int, b: int| 0 <= a < b < after.len() implies after[a].id@
                        != after[b].id@ by {
                        let x = if a < i { a } else { a + 1 };
                        let y = if b < i { b } else { b + 1 };
                        assert(after[a] == before[x] && after[b] == before[y]);
                    }
                    lemma_files_map(after);
                    assert forall|other: Seq<char>| files_map(after).contains_key(other)
                        == files_map(before).remove(id@).contains_key(other) by {
                        if holds(after, other) {
                            let k = index_of(after, other);
                            let x = if k < i { k } else { k + 1 };
                            assert(before[x].id@ == other);
                        }
                        if holds(before, other) && other != id@ {
                            let k = index_of(before, other);
                            let x = if k < i { k } else { k - 1 };
                            assert(after[x].id@ == other);
                        }
                    }
                    assert forall|other: Seq<char>| files_map(after).contains_key(
                        other,
                    ) implies files_map(after)[other] == files_map(before).remove(id@)[other] by {
                        let k = index_of(after, other);
                        let x = if k < i { k } else { k + 1 };
                        assert(after[k] == before[x]);
                    }
                    assert(files_map(after) =~= files_map(before).remove(id@));
                }
                Some(file.text)
            },
            None => {
                assert(files_map(before) =~= files_map(before).remove(id@));
                None
            },
        }
    }

    /// The notes of the partition, sorted by `order`, then by `id`.
    pub fn listing(&self) -> (out: Vec<NoteBlock>)
        requires
            self.wf(),
        ensures
            is_listing(out@),
            lists(out@, self@),
    {
        let mut notes: Vec<NoteBlock> = Vec::new();
        let mut i: usize = 0;
        while i < self.files.len()
            invariant
                i <= self.files@.len(),
                notes@.len() == i,
                forall|k: int|
                    0 <= k < i ==> (#[trigger] notes@[k])@ == decode_spec(
                        self.files@[k].text@,
                        self.files@[k].id@,
                    ),
            decreases self.files@.len() - i,
        {
            let file = &self.files[i];
            notes.push(decode(file.text.as_str(), file.id.as_str()));
            i += 1;
        }
        let out = sort_notes(notes);
        proof {
            let files = self.files@;
            lemma_files_map(files);
            broadcast use group_to_multiset_ensures;
            assert forall|k: int| 0 <= k < out@.len() implies exists|j: int|
                0 <= j < notes@.len() && notes@[j] == #[trigger] out@[k] by {
                assert(out@.to_multiset().count(out@[k]) > 0);
                assert(notes@.to_multiset().count(out@[k]) > 0);
                assert(notes@.contains(out@[k]));
            }
            assert forall|j: int| 0 <= j < notes@.len() implies exists|k: int|
                0 <= k < out@.len() && out@[k] == #[trigger] notes@[j] by {
                assert(notes@.to_multiset().count(notes@[j]) > 0);
                assert(out@.to_multiset().count(notes@[j]) > 0);
                assert(out@.contains(notes@[j]));
            }
            assert forall|a: int, b: int| 0 <= a < b < notes@.len() implies notes@[a]
                != notes@[b] by {
                assert(notes@[a]@.id == files[a].id@);
                assert(notes@[b]@.id == files[b].id@);
            }
            assert(notes@.no_duplicates());
            notes@.lemma_multiset_has_no_duplicates();
            out@.lemma_multiset_has_no_duplicates_conv();
            assert forall|k: int| 0 <= k < out@.len() implies self@.contains_key(
                (#[trigger] out@[k]).id@,
            ) && out@[k]@ == decode_spec(self@[out@[k].id@], out@[k].id@) by {
                let j = choose|j: int| 0 <= j < notes@.len() && notes@[j] == out@[k];
                assert(notes@[j]@.id == files[j].id@);
                assert(files_map(files).contains_key(files[j].id@));
            }
            assert forall|id: Seq<char>| #[trigger] self@.contains_key(id) implies exists|k: int|
                0 <= k < out@.len() && (#[trigger] out@[k]).id@ == id by {
                let j = index_of(files, id);
                assert(notes@[j]@.id == id);
                let k = choose|k: int| 0 <= k < out@.len() && out@[k] == notes@[j];
                assert(out@[k].id@ == id);
            }
            assert forall|a: int, b: int| 0 <= a < b < out@.len() implies (#[trigger] out@[a]).id@
                != (#[trigger] out@[b]).id@ by {
                let x = choose|j: int| 0 <= j < notes@.len() && notes@[j] == out@[a];
                let y = choose|j: int| 0 <= j < notes@.len() && notes@[j] == out@[b];
                assert(out@[a] != out@[b]);
                assert(x != y);
                assert(notes@[x]@.id == files[x].id@);
                assert(notes@[y]@.id == files[y].id@);
                if x < y {
                    assert(files[x].id@ != files[y].id@);
                } else {
                    assert(files[y].id@ != files[x].id@);
                }
            }
        }
        out
    }
}

} // verus!
