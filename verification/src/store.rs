//! The partitioned store: the active notes and the archive, and the
//! operations that list, write, delete, move and reorder notes.
//!
//! The store holds the text of every note file. Each operation that changes
//! it also says what it changed, so that the same change can be made to the
//! files on disk.

use vstd::prelude::*;
use crate::clock::{current_timestamp, is_utc_stamp};
use crate::codec::{
    decode, decode_spec, encode, encoded, encodes, has_object_header, header_of, metadata_of,
    read_header_of, reorder_text, reorders,
};
use crate::json::json_text;
use crate::error::NoteError;
use crate::files::{lists, NoteFiles};
use crate::layout::Partition;
use crate::note::{is_listing, NoteBlock, NoteView};

verus! {

/// One change to the files of a store.
#[derive(Clone, Debug, PartialEq, Eq)]
pub enum Change {
    /// The file of the note `id` in `partition` now holds `text`.
    Write { partition: Partition, id: String, text: String },
    /// The file of the note `id` in `partition` is gone.
    Remove { partition: Partition, id: String },
    /// The file of the note `id` has left `from` for the other partition,
    /// in place of any file that the note had there.
    Move { id: String, from: Partition },
}

/// A change as a mathematical value.
pub enum ChangeView {
    Write { partition: Partition, id: Seq<char>, text: Seq<char> },
    Remove { partition: Partition, id: Seq<char> },
    Move { id: Seq<char>, from: Partition },
}

impl View for Change {
    type V = ChangeView;

    open spec fn view(&self) -> ChangeView {
        match *self {
            Change::Write { partition, id, text } => ChangeView::Write {
                partition,
                id: id@,
                text: text@,
            },
            Change::Remove { partition, id } => ChangeView::Remove { partition, id: id@ },
            Change::Move { id, from } => ChangeView::Move { id: id@, from },
        }
    }
}

/// The files of a store: in each partition, the text of each note by id.
pub struct StoreView {
    pub active: Map<Seq<char>, Seq<char>>,
    pub archived: Map<Seq<char>, Seq<char>>,
}

impl StoreView {
    /// The files of one partition.
    pub open spec fn partition(self, partition: Partition) -> Map<Seq<char>, Seq<char>> {
        match partition {
            Partition::Active => self.active,
            Partition::Archived => self.archived,
        }
    }

    /// The store with other files in one partition.
    pub open spec fn with_partition(
        self,
        partition: Partition,
        files: Map<Seq<char>, Seq<char>>,
    ) -> StoreView {
        match partition {
            Partition::Active => StoreView { active: files, ..self },
            Partition::Archived => StoreView { archived: files, ..self },
        }
    }

    /// The store after `text` was written as the file of `id` in `partition`.
    pub open spec fn with_file(
        self,
        partition: Partition,
        id: Seq<char>,
        text: Seq<char>,
    ) -> StoreView {
        self.with_partition(partition, self.partition(partition).insert(id, text))
    }

    /// The store without the file of `id` in `partition`.
    pub open spec fn without_file(self, partition: Partition, id: Seq<char>) -> StoreView {
        self.with_partition(partition, self.partition(partition).remove(id))
    }

    /// The partition in which a note with this id is written and reordered:
    /// the archive where it holds the note, the active partition otherwise.
    pub open spec fn home_of(self, id: Seq<char>) -> Partition {
        if self.archived.contains_key(id) {
            Partition::Archived
        } else {
            Partition::Active
        }
    }

    /// The store after a change. Moving a file that is not there changes
    /// nothing.
    pub open spec fn apply(self, change: ChangeView) -> StoreView {
        match change {
            ChangeView::Write { partition, id, text } => self.with_file(partition, id, text),
            ChangeView::Remove { partition, id } => self.without_file(partition, id),
            ChangeView::Move { id, from } => if self.partition(from).contains_key(id) {
                self.without_file(from, id).with_file(from.other(), id, self.partition(from)[id])
            } else {
                self
            },
        }
    }

    /// The store after a row of changes, made in their order.
    pub open spec fn apply_all(self, changes: Seq<ChangeView>) -> StoreView
        decreases changes.len(),
    {
        if changes.len() == 0 {
            self
        } else {
            self.apply_all(changes.drop_last()).apply(changes.last())
        }
    }
}

/// A store without files.
pub open spec fn empty_store() -> StoreView {
    StoreView { active: Map::empty(), archived: Map::empty() }
}

/// No note has a file in both partitions.
pub open spec fn is_exclusive(store: StoreView) -> bool {
    forall|id: Seq<char>| #[trigger]
        store.active.contains_key(id) ==> !store.archived.contains_key(id)
}

/// The time of creation that is written when the note `id` is saved at the
/// time `now`: the one that the header of its file names, or `now` where
/// there is no such file or its header names none.
pub open spec fn created_for(before: StoreView, id: Seq<char>, now: Seq<char>) -> Seq<char> {
    let files = before.partition(before.home_of(id));
    if files.contains_key(id) {
        match header_of(files[id]).created_at {
            Some(created_at) => created_at,
            None => now,
        }
    } else {
        now
    }
}

/// The change that saves `note` at the time `now`: the file of the note is
/// written, in the archive where the note is archived and in the active
/// partition otherwise, with the time of creation that `created_for` gives.
pub open spec fn saved_change(before: StoreView, note: NoteView, now: Seq<char>) -> ChangeView {
    ChangeView::Write {
        partition: before.home_of(note.id),
        id: note.id,
        text: encoded(note, created_for(before, note.id, now), now),
    }
}

/// `change` saves `note` at the time `now`: it writes a file that encodes
/// the note, in the archive where the note is archived and in the active
/// partition otherwise.
pub open spec fn saves(
    before: StoreView,
    note: NoteView,
    now: Seq<char>,
    change: ChangeView,
) -> bool {
    match change {
        ChangeView::Write { partition, id, text } => {
            &&& partition == before.home_of(note.id)
            &&& id == note.id
            &&& encodes(text, note, created_for(before, note.id, now), now)
        },
        _ => false,
    }
}

/// The file that a reordering of the note `id` rewrites has a header that
/// spells a JSON object.
pub open spec fn can_reorder(before: StoreView, id: Seq<char>) -> bool {
    let files = before.partition(before.home_of(id));
    files.contains_key(id) && has_object_header(files[id])
}

/// `after` is `before` with the order of the note `id` set to `order` at
/// the time `now`. A note that has no file, or whose file has no header that
/// spells a JSON object, is passed over.
pub open spec fn reordered(
    before: StoreView,
    id: Seq<char>,
    order: int,
    now: Seq<char>,
    after: StoreView,
) -> bool {
    let home = before.home_of(id);
    if can_reorder(before, id) {
        exists|text: Seq<char>|
            reorders(before.partition(home)[id], order, now, text) && after
                == #[trigger] before.with_file(home, id, text)
    } else {
        after == before
    }
}

/// `reported` is what the reordering of the note `id` reports, and `after`
/// the store it leaves: where the note can be reordered, one change, the
/// writing of its file in the partition where it lies; otherwise none, and
/// the store is as before.
pub open spec fn reorder_reports(
    before: StoreView,
    id: Seq<char>,
    order: int,
    now: Seq<char>,
    reported: Seq<ChangeView>,
    after: StoreView,
) -> bool {
    let home = before.home_of(id);
    if can_reorder(before, id) {
        exists|text: Seq<char>|
            reorders(before.partition(home)[id], order, now, text) && after
                == #[trigger] before.with_file(home, id, text) && reported == seq![
                ChangeView::Write { partition: home, id, text },
            ]
    } else {
        after == before && reported == Seq::<ChangeView>::empty()
    }
}

/// The ids and orders of a batch, as mathematical values.
pub open spec fn orders_view(orders: Seq<(String, i32)>) -> Seq<(Seq<char>, int)> {
    Seq::new(orders.len(), |i: int| (orders[i].0@, orders[i].1 as int))
}

/// `after` is `before` with each note of the batch reordered, one after
/// the other.
pub open spec fn batch_reordered(
    before: StoreView,
    orders: Seq<(Seq<char>, int)>,
    now: Seq<char>,
    after: StoreView,
) -> bool
    decreases orders.len(),
{
    if orders.len() == 0 {
        after == before
    } else {
        exists|mid: StoreView|
            batch_reordered(before, orders.drop_last(), now, mid) && #[trigger] reordered(
                mid,
                orders.last().0,
                orders.last().1,
                now,
                after,
            )
    }
}

/// `changes` is what the reordering of a batch reports, and `after` the
/// store it leaves: the reports of its notes, one after the other, in the
/// order of the batch. The changes are those of the batch without its last
/// note, followed by what the reordering of the last note reports.
pub open spec fn batch_reports(
    before: StoreView,
    orders: Seq<(Seq<char>, int)>,
    now: Seq<char>,
    changes: Seq<ChangeView>,
    after: StoreView,
) -> bool
    decreases orders.len(),
{
    if orders.len() == 0 {
        after == before && changes == Seq::<ChangeView>::empty()
    } else {
        exists|mid: StoreView, earlier: Seq<ChangeView>|
            batch_reports(before, orders.drop_last(), now, earlier, mid) && earlier.len()
                <= changes.len() && changes.subrange(0, earlier.len() as int) == earlier
                && #[trigger] reorder_reports(
                mid,
                orders.last().0,
                orders.last().1,
                now,
                changes.subrange(earlier.len() as int, changes.len() as int),
                after,
            )
    }
}

/// The views of a row of changes.
pub open spec fn changes_view(changes: Seq<Change>) -> Seq<ChangeView> {
    Seq::new(changes.len(), |i: int| changes[i]@)
}

/// The notes of the active partition and of the archive.
pub struct NoteStore {
    active: NoteFiles,
    archived: NoteFiles,
}

impl View for NoteStore {
    type V = StoreView;

    closed spec fn view(&self) -> StoreView {
        StoreView { active: self.active@, archived: self.archived@ }
    }
}

impl NoteStore {
    /// In neither partition has an id two files.
    pub closed spec fn wf(&self) -> bool {
        self.active.wf() && self.archived.wf()
    }

    /// A store without files.
    pub fn new() -> (out: NoteStore)
        ensures
            out.wf(),
            out@ == empty_store(),
    {
        NoteStore { active: NoteFiles::new(), archived: NoteFiles::new() }
    }

    /// Whether `partition` holds a file for `id`.
    pub fn contains(&self, partition: Partition, id: &str) -> (out: bool)
        requires
            self.wf(),
        ensures
            out == self@.partition(partition).contains_key(id@),
    {
        match partition {
            Partition::Active => self.active.contains(id),
            Partition::Archived => self.archived.contains(id),
        }
    }

    /// The text of the file for `id` in `partition`, if there is one.
    pub fn text_of(&self, partition: Partition, id: &str) -> (out: Option<String>)
        requires
            self.wf(),
        ensures
            match out {
                Some(text) => self@.partition(partition).contains_key(id@) && text@
                    == self@.partition(partition)[id@],
                None => !self@.partition(partition).contains_key(id@),
            },
    {
        match partition {
            Partition::Active => self.active.text_of(id),
            Partition::Archived => self.archived.text_of(id),
        }
    }

    /// Puts a file into the store as it was found on disk.
    pub fn place(&mut self, partition: Partition, id: &str, text: String)
        requires
            old(self).wf(),
        ensures
            final(self).wf(),
            final(self)@ == old(self)@.with_file(partition, id@, text@),
    {
        match partition {
            Partition::Active => self.active.put(id, text),
            Partition::Archived => self.archived.put(id, text),
        }
    }

    /// The partition in which a note with this id is written and reordered.
    pub fn home(&self, id: &str) -> (out: Partition)
        requires
            self.wf(),
        ensures
            out == self@.home_of(id@),
    {
        if self.archived.contains(id) {
            Partition::Archived
        } else {
            Partition::Active
        }
    }

    fn take(&mut self, partition: Partition, id: &str) -> (out: Option<String>)
        requires
            old(self).wf(),
        ensures
            final(self).wf(),
            final(self)@ == old(self)@.without_file(partition, id@),
            match out {
                Some(text) => old(self)@.partition(partition).contains_key(id@) && text@ == old(
                    self,
                )@.partition(partition)[id@],
                None => !old(self)@.partition(partition).contains_key(id@),
            },
    {
        match partition {
            Partition::Active => self.active.remove(id),
            Partition::Archived => self.archived.remove(id),
        }
    }

    fn shift(&mut self, id: String, from: Partition) -> (out: Option<Change>)
        requires
            old(self).wf(),
        ensures
            final(self).wf(),
            match out {
                Some(change) => old(self)@.partition(from).contains_key(id@) && change@ == (
                ChangeView::Move { id: id@, from }) && final(self)@ == old(self)@.apply(change@),
                None => !old(self)@.partition(from).contains_key(id@) && final(self)@ == old(
                    self,
                )@,
            },
    {
        let ghost before = self@;
        match self.take(from, id.as_str()) {
            Some(text) => {
                self.place(from.opposite(), id.as_str(), text);
                Some(Change::Move { id, from })
            },
            None => {
                assert(before.partition(from).remove(id@) =~= before.partition(from));
                assert(self@ == before);
                None
            },
        }
    }
}

/// Lists the notes of a partition, sorted by `order`, then by `id`.
pub fn load_notes_local(store: &NoteStore, partition: Partition) -> (out: Vec<NoteBlock>)
    requires
        store.wf(),
    ensures
        is_listing(out@),
        lists(out@, store@.partition(partition)),
{
    match partition {
        Partition::Active => store.active.listing(),
        Partition::Archived => store.archived.listing(),
    }
}

/// Reads one note of a partition. Fails where the partition has no file
/// for the id.
pub fn load_note_local(store: &NoteStore, partition: Partition, id: &str) -> (out: Result<
    NoteBlock,
    NoteError,
>)
    requires
        store.wf(),
    ensures
        match out {
            Ok(note) => store@.partition(partition).contains_key(id@) && note@ == decode_spec(
                store@.partition(partition)[id@],
                id@,
            ),
            Err(error) => !store@.partition(partition).contains_key(id@) && error == match
            partition {
                Partition::Active => NoteError::NotFound,
                Partition::Archived => NoteError::ArchivedNotFound,
            },
        },
{
    match store.text_of(partition, id) {
        Some(text) => Ok(decode(text.as_str(), id)),
        None => match partition {
            Partition::Active => Err(NoteError::NotFound),
            Partition::Archived => Err(NoteError::ArchivedNotFound),
        },
    }
}

/// Saves a note at the time `now`. A note that is archived stays there;
/// any other note is written to the active partition. The file of an
/// earlier save is written over. Every note can be saved: the result is
/// never an error.
pub fn save_block_at(store: &mut NoteStore, block: NoteBlock, now: &str) -> (out: Result<
    Change,
    NoteError,
>)
    requires
        old(store).wf(),
    ensures
        final(store).wf(),
        out is Ok,
        (out is Err) <==> json_text(
            metadata_of(block@, created_for(old(store)@, block@.id, now@), now@),
        ) is None,
        out matches Ok(change) ==> change@ == saved_change(old(store)@, block@, now@) && saves(
            old(store)@,
            block@,
            now@,
            change@,
        ) && final(store)@ == old(store)@.apply(change@),
{
    let home = store.home(block.id.as_str());
    let created_at = match store.text_of(home, block.id.as_str()) {
        Some(text) => match read_header_of(text.as_str()).created_at {
            Some(created_at) => created_at,
            None => now.to_owned(),
        },
        None => now.to_owned(),
    };
    match encode(&block, created_at.as_str(), now) {
        Ok(text) => {
            store.place(home, block.id.as_str(), text.clone());
            Ok(Change::Write { partition: home, id: block.id, text })
        },
        Err(error) => Err(error),
    }
}

/// `out` is the outcome of saving `note` at the time `now`, and `after` the
/// store that the save leaves: the save succeeds, and it makes the change
/// that it reports, which is the change that saves the note at that time.
pub open spec fn saved_at(
    before: StoreView,
    note: NoteView,
    now: Seq<char>,
    out: Result<Change, NoteError>,
    after: StoreView,
) -> bool {
    &&& out is Ok
    &&& json_text(metadata_of(note, created_for(before, note.id, now), now)) is Some
    &&& out->Ok_0@ == saved_change(before, note, now)
    &&& saves(before, note, now, out->Ok_0@)
    &&& after == before.apply(out->Ok_0@)
}

/// Saves a note at the present moment, which is written as a time stamp in
/// UTC: see `save_block_at`. Every note can be saved: the result is never
/// an error.
pub fn save_block_local(store: &mut NoteStore, block: NoteBlock) -> (out: Result<Change, NoteError>)
    requires
        old(store).wf(),
    ensures
        final(store).wf(),
        out is Ok,
        exists|now: Seq<char>|
            is_utc_stamp(now) && #[trigger] saved_at(old(store)@, block@, now, out, final(store)@),
{
    let now = current_timestamp();
    let out = save_block_at(store, block, now.as_str());
    assert(saved_at(old(store)@, block@, now@, out, store@));
    out
}

/// Deletes the file of a note from a partition. Where the partition has no
/// such file, nothing changes and no change is reported.
pub fn delete_block_local(store: &mut NoteStore, block_id: String, partition: Partition) -> (out:
    Option<Change>)
    requires
        old(store).wf(),
    ensures
        final(store).wf(),
        final(store)@ == old(store)@.without_file(partition, block_id@),
        match out {
            Some(change) => old(store)@.partition(partition).contains_key(block_id@) && change@ == (
            ChangeView::Remove { partition, id: block_id@ }),
            None => !old(store)@.partition(partition).contains_key(block_id@) && final(store)@
                == old(store)@,
        },
{
    let ghost before = store@;
    match store.take(partition, block_id.as_str()) {
        Some(_) => Some(Change::Remove { partition, id: block_id }),
        None => {
            assert(before.partition(partition).remove(block_id@) =~= before.partition(partition));
            assert(store@ == before);
            None
        },
    }
}

/// Moves the file of a note from the active partition to the archive, in
/// place of any file that the note has there. Fails where the active
/// partition has no such file.
pub fn archive_block_local(store: &mut NoteStore, block_id: String) -> (out: Result<
    Change,
    NoteError,
>)
    requires
        old(store).wf(),
    ensures
        final(store).wf(),
        match out {
            Ok(change) => old(store)@.active.contains_key(block_id@) && change@ == (
            ChangeView::Move { id: block_id@, from: Partition::Active }) && final(store)@ == old(
                store,
            )@.apply(change@),
            Err(error) => !old(store)@.active.contains_key(block_id@) && error
                == NoteError::NotFound && final(store)@ == old(store)@,
        },
{
    match store.shift(block_id, Partition::Active) {
        Some(change) => Ok(change),
        None => Err(NoteError::NotFound),
    }
}

/// Moves the file of a note from the archive back to the active partition,
/// in place of any file that the note has there. Fails where the archive
/// has no such file.
pub fn unarchive_block_local(store: &mut NoteStore, block_id: String) -> (out: Result<
    Change,
    NoteError,
>)
    requires
        old(store).wf(),
    ensures
        final(store).wf(),
        match out {
            Ok(change) => old(store)@.archived.contains_key(block_id@) && change@ == (
            ChangeView::Move { id: block_id@, from: Partition::Archived }) && final(store)@ == old(
                store,
            )@.apply(change@),
            Err(error) => !old(store)@.archived.contains_key(block_id@) && error
                == NoteError::ArchivedNotFound && final(store)@ == old(store)@,
        },
{
    match store.shift(block_id, Partition::Archived) {
        Some(change) => Ok(change),
        None => Err(NoteError::ArchivedNotFound),
    }
}

/// Sets the order of each note of the batch at the time `now`, one after
/// the other. The file of a note is looked for in the archive first. A note
/// without a file is passed over, and so is a file without a header that
/// spells a JSON object. Every batch goes through to its end: the result is
/// never an error.
pub fn update_orders_at(store: &mut NoteStore, orders: Vec<(String, i32)>, now: &str) -> (out:
    Result<Vec<Change>, NoteError>)
    requires
        old(store).wf(),
    ensures
        final(store).wf(),
        out is Ok,
        out matches Ok(changes) ==> batch_reordered(
            old(store)@,
            orders_view(orders@),
            now@,
            final(store)@,
        ) && final(store)@ == old(store)@.apply_all(changes_view(changes@)) && batch_reports(
            old(store)@,
            orders_view(orders@),
            now@,
            changes_view(changes@),
            final(store)@,
        ),
{
    let ghost before = store@;
    let ghost batch = orders_view(orders@);
    let mut changes: Vec<Change> = Vec::new();
    let mut i: usize = 0;
    proof {
        assert(batch.take(0) =~= Seq::<(Seq<char>, int)>::empty());
        assert(changes_view(changes@) =~= Seq::<ChangeView>::empty());
    }
    while i < orders.len()
        invariant
            i <= orders@.len(),
            store.wf(),
            before == old(store)@,
            batch == orders_view(orders@),
            batch_reordered(before, batch.take(i as int), now@, store@),
            batch_reports(before, batch.take(i as int), now@, changes_view(changes@), store@),
            store@ == before.apply_all(changes_view(changes@)),
        decreases orders@.len() - i,
    {
        let ghost mid = store@;
        let ghost seen = changes_view(changes@);
        let ghost mut reported: Seq<ChangeView> = Seq::empty();
        let id = orders[i].0.as_str();
        let order = orders[i].1;
        let home = store.home(id);
        proof {
            assert(batch.take(i + 1).drop_last() =~= batch.take(i as int));
            assert(batch.take(i + 1).last() == (id@, order as int));
        }
        match store.text_of(home, id) {
            Some(text) => match reorder_text(text.as_str(), order, now) {
                Ok(Some(changed)) => {
                    store.place(home, id, changed.clone());
                    let written = Change::Write { partition: home, id: id.to_owned(), text: changed };
                    let ghost shown = written@;
                    changes.push(written);
                    proof {
                        reported = seq![shown];
                        assert(store@ == mid.with_file(home, id@, changed@));
                        assert(reordered(mid, id@, order as int, now@, store@));
                        assert(reorder_reports(mid, id@, order as int, now@, reported, store@));
                        assert(changes_view(changes@).drop_last() =~= seen);
                        assert(changes_view(changes@) =~= seen + reported);
                    }
                },
                Ok(None) => {
                    assert(reordered(mid, id@, order as int, now@, store@));
                    assert(reorder_reports(mid, id@, order as int, now@, reported, store@));
                    assert(changes_view(changes@) =~= seen + reported);
                },
                Err(error) => {
                    return Err(error);
                },
            },
            None => {
                assert(reordered(mid, id@, order as int, now@, store@));
                assert(reorder_reports(mid, id@, order as int, now@, reported, store@));
                assert(changes_view(changes@) =~= seen + reported);
            },
        }
        proof {
            let step = batch.take(i + 1);
            assert(step.len() > 0);
            assert(batch_reordered(before, step.drop_last(), now@, mid));
            assert(reordered(mid, step.last().0, step.last().1, now@, store@));
            assert(batch_reordered(before, step, now@, store@));
            assert(batch_reports(before, step.drop_last(), now@, seen, mid));
            assert(reorder_reports(mid, step.last().0, step.last().1, now@, reported, store@));
            let all = changes_view(changes@);
            assert(all == seen + reported);
            assert(all.subrange(0, seen.len() as int) =~= seen);
            assert(all.subrange(seen.len() as int, all.len() as int) =~= reported);
            assert(batch_reports(before, step, now@, all, store@));
        }
        i += 1;
    }
    proof {
        assert(batch.take(i as int) =~= batch);
    }
    Ok(changes)
}

/// Sets the order of each note of the batch at the present moment, which is
/// written as a time stamp in UTC: see `update_orders_at`. Every batch goes
/// through to its end: the result is never an error.
pub fn update_orders_local(store: &mut NoteStore, orders: Vec<(String, i32)>) -> (out: Result<
    Vec<Change>,
    NoteError,
>)
    requires
        old(store).wf(),
    ensures
        final(store).wf(),
        out is Ok,
        out matches Ok(changes) ==> final(store)@ == old(store)@.apply_all(changes_view(changes@))
            && exists|now: Seq<char>|
                is_utc_stamp(now) && batch_reordered(
                    old(store)@,
                    orders_view(orders@),
                    now,
                    final(store)@,
                ) && #[trigger] batch_reports(
                    old(store)@,
                    orders_view(orders@),
                    now,
                    changes_view(changes@),
                    final(store)@,
                ),
{
    let now = current_timestamp();
    update_orders_at(store, orders, now.as_str())
}

} // verus!
