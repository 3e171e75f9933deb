//! What the operations of the store guarantee over more than one call:
//! how a listing reflects an earlier save, move, deletion or reordering.

use vstd::prelude::*;
use crate::codec::{
    decode_spec, encodes, lemma_decode_encoded, lemma_encoded_header, lemma_reorder_keeps_note,
    reorders,
};
use crate::files::lists;
use crate::layout::Partition;
use crate::note::{is_listing, lemma_text_le_antisymmetric, listed_before, NoteBlock, NoteView};
use crate::store::{
    batch_reordered, batch_reports, can_reorder, created_for, empty_store, is_exclusive,
    reorder_reports, reordered, saves, ChangeView, StoreView,
};

verus! {

/// Deleting a note that the partition does not hold leaves the store as it
/// is, and deleting a note twice is the same as deleting it once.
pub proof fn lemma_delete_idempotent(before: StoreView, partition: Partition, id: Seq<char>)
    ensures
        !before.partition(partition).contains_key(id) ==> before.without_file(partition, id)
            == before,
        before.without_file(partition, id).without_file(partition, id) == before.without_file(
            partition,
            id,
        ),
{
    let once = before.without_file(partition, id);
    if !before.partition(partition).contains_key(id) {
        assert(before.partition(partition).remove(id) =~= before.partition(partition));
    }
    assert(once.partition(partition).remove(id) =~= once.partition(partition));
}

/// A listing of a partition names exactly the notes that the partition has
/// files for.
pub proof fn lemma_listing_names(
    notes: Seq<NoteBlock>,
    files: Map<Seq<char>, Seq<char>>,
    id: Seq<char>,
)
    requires
        lists(notes, files),
    ensures
        files.contains_key(id) <==> exists|i: int|
            0 <= i < notes.len() && (#[trigger] notes[i]).id@ == id,
{
}

/// Two listings of the same files name the same notes at the same places,
/// as far as both reach.
proof fn lemma_listings_agree(
    a: Seq<NoteBlock>,
    b: Seq<NoteBlock>,
    files: Map<Seq<char>, Seq<char>>,
    upto: int,
)
    requires
        is_listing(a),
        lists(a, files),
        is_listing(b),
        lists(b, files),
        0 <= upto <= a.len(),
        upto <= b.len(),
    ensures
        forall|k: int| 0 <= k < upto ==> (#[trigger] a[k]).id@ == b[k].id@,
    decreases upto,
{
    if upto > 0 {
        let n = upto - 1;
        lemma_listings_agree(a, b, files, n);
        let x = a[n].id@;
        let y = b[n].id@;
        assert(files.contains_key(x));
        assert(files.contains_key(y));
        if x != y {
            let j = choose|j: int| 0 <= j < b.len() && (#[trigger] b[j]).id@ == x;
            let i = choose|i: int| 0 <= i < a.len() && (#[trigger] a[i]).id@ == y;
            if j < n {
                assert(a[j].id@ == b[j].id@);
            }
            if i < n {
                assert(a[i].id@ == b[i].id@);
            }
            assert(j > n && i > n);
            assert(b[j]@ == a[n]@);
            assert(a[i]@ == b[n]@);
            assert(listed_before(b[n]@, b[j]@));
            assert(listed_before(a[n]@, a[i]@));
            lemma_text_le_antisymmetric(x, y);
        }
    }
}

/// A listing is determined by the files it lists: two listings of the same
/// files are equal, note for note.
pub proof fn lemma_listing_unique(
    a: Seq<NoteBlock>,
    b: Seq<NoteBlock>,
    files: Map<Seq<char>, Seq<char>>,
)
    requires
        is_listing(a),
        lists(a, files),
        is_listing(b),
        lists(b, files),
    ensures
        a.len() == b.len(),
        forall|i: int| 0 <= i < a.len() ==> (#[trigger] a[i])@ == b[i]@,
{
    let shared = if a.len() <= b.len() {
        a.len() as int
    } else {
        b.len() as int
    };
    lemma_listings_agree(a, b, files, shared);
    if a.len() > shared {
        assert(files.contains_key(a[shared].id@));
        let j = choose|j: int| 0 <= j < b.len() && (#[trigger] b[j]).id@ == a[shared].id@;
        assert(a[j].id@ == b[j].id@);
    }
    if b.len() > shared {
        assert(files.contains_key(b[shared].id@));
        let i = choose|i: int| 0 <= i < a.len() && (#[trigger] a[i]).id@ == b[shared].id@;
        assert(a[i].id@ == b[i].id@);
    }
    assert forall|i: int| 0 <= i < a.len() implies (#[trigger] a[i])@ == b[i]@ by {
        assert(a[i].id@ == b[i].id@);
        assert(files.contains_key(b[i].id@));
    }
}

/// A listing of a partition without files is empty.
pub proof fn lemma_listing_of_nothing(notes: Seq<NoteBlock>)
    requires
        lists(notes, Map::<Seq<char>, Seq<char>>::empty()),
    ensures
        notes.len() == 0,
{
    if notes.len() > 0 {
        assert(Map::<Seq<char>, Seq<char>>::empty().contains_key(notes[0].id@));
    }
}

/// A listing of a partition with one file is the note of that file.
pub proof fn lemma_listing_of_one(notes: Seq<NoteBlock>, id: Seq<char>, text: Seq<char>)
    requires
        lists(notes, Map::<Seq<char>, Seq<char>>::empty().insert(id, text)),
    ensures
        notes.len() == 1,
        notes[0]@ == decode_spec(text, id),
{
    let files = Map::<Seq<char>, Seq<char>>::empty().insert(id, text);
    assert(files.contains_key(id));
    let i = choose|i: int| 0 <= i < notes.len() && (#[trigger] notes[i]).id@ == id;
    if notes.len() > 1 {
        assert(files.contains_key(notes[0].id@));
        assert(files.contains_key(notes[1].id@));
        assert(notes[0].id@ != notes[1].id@);
    }
}

/// After a note was moved out of a partition, a listing of that partition
/// does not name it, and a listing of the other partition holds it as the
/// same file decodes: with the title, content, collapsed flag and order that
/// it had. This holds of archiving and of bringing a note back alike.
pub proof fn lemma_move_is_exclusive(
    before: StoreView,
    id: Seq<char>,
    from: Partition,
    left: Seq<NoteBlock>,
    arrived: Seq<NoteBlock>,
)
    requires
        before.partition(from).contains_key(id),
        lists(left, before.apply(ChangeView::Move { id, from }).partition(from)),
        lists(arrived, before.apply(ChangeView::Move { id, from }).partition(from.other())),
    ensures
        forall|i: int| 0 <= i < left.len() ==> (#[trigger] left[i]).id@ != id,
        exists|j: int|
            0 <= j < arrived.len() && (#[trigger] arrived[j])@ == decode_spec(
                before.partition(from)[id],
                id,
            ),
{
    let after = before.apply(ChangeView::Move { id, from });
    assert(!after.partition(from).contains_key(id));
    assert(after.partition(from.other()).contains_key(id));
    assert(after.partition(from.other())[id] == before.partition(from)[id]);
    let j = choose|j: int| 0 <= j < arrived.len() && (#[trigger] arrived[j]).id@ == id;
    assert(arrived[j]@ == decode_spec(before.partition(from)[id], id));
}

/// A note that was saved is listed as it was saved: a listing of the
/// partition it was written to holds the note itself, whatever its title
/// and content hold, and the other partition is as before.
pub proof fn lemma_saved_is_listed(
    before: StoreView,
    note: NoteView,
    now: Seq<char>,
    change: ChangeView,
    listed: Seq<NoteBlock>,
)
    requires
        i32::MIN <= note.order <= i32::MAX,
        saves(before, note, now, change),
        lists(listed, before.apply(change).partition(before.home_of(note.id))),
    ensures
        decode_spec(before.apply(change).partition(before.home_of(note.id))[note.id], note.id)
            == note,
        before.apply(change).partition(before.home_of(note.id).other()) == before.partition(
            before.home_of(note.id).other(),
        ),
        exists|j: int| 0 <= j < listed.len() && (#[trigger] listed[j])@ == note,
{
    let after = before.apply(change);
    let home = before.home_of(note.id);
    match change {
        ChangeView::Write { partition, id, text } => {
            assert(after.partition(home).contains_key(note.id));
            let j = choose|j: int| 0 <= j < listed.len() && (#[trigger] listed[j]).id@ == id;
            lemma_decode_encoded(text, id, note, created_for(before, note.id, now), now);
            assert(listed[j]@ == note);
        },
        _ => {},
    }
}

/// Saving a note that is archived writes to the archive: the active
/// partition is as before, and a listing of the archive holds the note as
/// it was saved.
pub proof fn lemma_save_stays_archived(
    before: StoreView,
    note: NoteView,
    now: Seq<char>,
    change: ChangeView,
    archived: Seq<NoteBlock>,
)
    requires
        before.archived.contains_key(note.id),
        i32::MIN <= note.order <= i32::MAX,
        saves(before, note, now, change),
        lists(archived, before.apply(change).archived),
    ensures
        before.apply(change).active == before.active,
        exists|j: int| 0 <= j < archived.len() && (#[trigger] archived[j])@ == note,
{
    lemma_saved_is_listed(before, note, now, change, archived);
}

/// The first note that is saved to a store without files is, alone, the
/// listing of the active partition.
pub proof fn lemma_first_save(
    note: NoteView,
    now: Seq<char>,
    change: ChangeView,
    active: Seq<NoteBlock>,
)
    requires
        i32::MIN <= note.order <= i32::MAX,
        saves(empty_store(), note, now, change),
        lists(active, empty_store().apply(change).active),
    ensures
        active.len() == 1,
        active[0]@ == note,
{
    match change {
        ChangeView::Write { partition, id, text } => {
            lemma_decode_encoded(
                text,
                id,
                note,
                created_for(empty_store(), note.id, now),
                now,
            );
            lemma_listing_of_one(active, id, text);
        },
        _ => {},
    }
}

/// Saving a note again keeps the time of its creation: where the file of
/// the note encodes an earlier save, the new file is written with the time
/// of creation of that save, whatever the time of the new save is.
pub proof fn lemma_save_keeps_creation(
    before: StoreView,
    earlier: NoteView,
    created_at: Seq<char>,
    updated_at: Seq<char>,
    id: Seq<char>,
    now: Seq<char>,
)
    requires
        before.partition(before.home_of(id)).contains_key(id),
        encodes(before.partition(before.home_of(id))[id], earlier, created_at, updated_at),
    ensures
        created_for(before, id, now) == created_at,
{
    lemma_encoded_header(before.partition(before.home_of(id))[id], earlier, created_at, updated_at);
}

/// A note that was saved can be reordered: the file that a save writes has
/// a header that spells a JSON object.
pub proof fn lemma_saved_can_be_reordered(
    before: StoreView,
    note: NoteView,
    now: Seq<char>,
    change: ChangeView,
)
    requires
        saves(before, note, now, change),
    ensures
        can_reorder(before.apply(change), note.id),
        before.apply(change).home_of(note.id) == before.home_of(note.id),
{
    match change {
        ChangeView::Write { partition, id, text } => {
            lemma_encoded_header(text, note, created_for(before, note.id, now), now);
        },
        _ => {},
    }
}

/// Reordering a note that has no file changes nothing.
pub proof fn lemma_reorder_skips_missing(
    before: StoreView,
    id: Seq<char>,
    order: int,
    now: Seq<char>,
    after: StoreView,
)
    requires
        !before.active.contains_key(id),
        !before.archived.contains_key(id),
        reordered(before, id, order, now, after),
    ensures
        after == before,
{
}

/// Reordering a note creates no file and removes none, and leaves the file
/// of every other note as it is.
pub proof fn lemma_reorder_keeps_files(
    before: StoreView,
    id: Seq<char>,
    order: int,
    now: Seq<char>,
    after: StoreView,
)
    requires
        reordered(before, id, order, now, after),
    ensures
        after.active.dom() == before.active.dom(),
        after.archived.dom() == before.archived.dom(),
        forall|other: Seq<char>, partition: Partition|
            other != id && before.partition(partition).contains_key(other) ==> #[trigger]
                after.partition(partition)[other] == before.partition(partition)[other],
{
    assert(after.active.dom() =~= before.active.dom());
    assert(after.archived.dom() =~= before.archived.dom());
}

/// Reordering a batch of notes creates no file and removes none, and leaves
/// the file of every note that the batch does not name as it is.
pub proof fn lemma_batch_keeps_files(
    before: StoreView,
    orders: Seq<(Seq<char>, int)>,
    now: Seq<char>,
    after: StoreView,
    other: Seq<char>,
    partition: Partition,
)
    requires
        batch_reordered(before, orders, now, after),
    ensures
        after.active.dom() == before.active.dom(),
        after.archived.dom() == before.archived.dom(),
        (forall|k: int| 0 <= k < orders.len() ==> (#[trigger] orders[k]).0 != other)
            && before.partition(partition).contains_key(other) ==> after.partition(
            partition,
        )[other] == before.partition(partition)[other],
    decreases orders.len(),
{
    if orders.len() > 0 {
        let mid = choose|mid: StoreView|
            batch_reordered(before, orders.drop_last(), now, mid) && #[trigger] reordered(
                mid,
                orders.last().0,
                orders.last().1,
                now,
                after,
            );
        lemma_batch_keeps_files(before, orders.drop_last(), now, mid, other, partition);
        lemma_reorder_keeps_files(mid, orders.last().0, orders.last().1, now, after);
        if (forall|k: int| 0 <= k < orders.len() ==> (#[trigger] orders[k]).0 != other)
            && before.partition(partition).contains_key(other) {
            assert forall|k: int| 0 <= k < orders.drop_last().len() implies (
            #[trigger] orders.drop_last()[k]).0 != other by {
                assert(orders.drop_last()[k] == orders[k]);
            }
            assert(orders[orders.len() - 1].0 != other);
            assert(mid.partition(partition).contains_key(other));
        }
    }
}

/// A note stays in one partition: where no note has a file in both
/// partitions, none has after a save.
pub proof fn lemma_save_keeps_exclusive(
    before: StoreView,
    note: NoteView,
    now: Seq<char>,
    change: ChangeView,
)
    requires
        is_exclusive(before),
        saves(before, note, now, change),
    ensures
        is_exclusive(before.apply(change)),
{
    let after = before.apply(change);
    assert forall|id: Seq<char>| #[trigger]
        after.active.contains_key(id) implies !after.archived.contains_key(id) by {
        if id != note.id {
            assert(before.active.contains_key(id));
        }
    }
}

/// A note stays in one partition: where no note has a file in both
/// partitions, none has after a note was archived or brought back, and none
/// has after a note was deleted.
pub proof fn lemma_move_keeps_exclusive(before: StoreView, id: Seq<char>, from: Partition)
    requires
        is_exclusive(before),
    ensures
        is_exclusive(before.apply(ChangeView::Move { id, from })),
        is_exclusive(before.apply(ChangeView::Remove { partition: from, id })),
{
    let moved = before.apply(ChangeView::Move { id, from });
    assert forall|other: Seq<char>| #[trigger]
        moved.active.contains_key(other) implies !moved.archived.contains_key(other) by {
        if other != id {
            assert(before.active.contains_key(other));
        }
    }
    let removed = before.apply(ChangeView::Remove { partition: from, id });
    assert forall|other: Seq<char>| #[trigger]
        removed.active.contains_key(other) implies !removed.archived.contains_key(other) by {
        assert(before.active.contains_key(other));
    }
}

/// A note stays in one partition: where no note has a file in both
/// partitions, none has after a batch of notes was reordered.
pub proof fn lemma_batch_keeps_exclusive(
    before: StoreView,
    orders: Seq<(Seq<char>, int)>,
    now: Seq<char>,
    after: StoreView,
)
    requires
        is_exclusive(before),
        batch_reordered(before, orders, now, after),
    ensures
        is_exclusive(after),
{
    lemma_batch_keeps_files(before, orders, now, after, Seq::empty(), Partition::Active);
    assert forall|id: Seq<char>| #[trigger]
        after.active.contains_key(id) implies !after.archived.contains_key(id) by {
        assert(after.active.dom().contains(id));
        assert(before.active.contains_key(id));
        assert(!before.archived.dom().contains(id));
    }
}

/// What a reordering of a batch reports is what it did: making the reported
/// changes, in their order, gives the store that the reordering leaves, and
/// that store is the one in which each note of the batch was reordered.
pub proof fn lemma_reports_are_what_was_done(
    before: StoreView,
    orders: Seq<(Seq<char>, int)>,
    now: Seq<char>,
    changes: Seq<ChangeView>,
    after: StoreView,
)
    requires
        batch_reports(before, orders, now, changes, after),
    ensures
        batch_reordered(before, orders, now, after),
        after == before.apply_all(changes),
        changes.len() <= orders.len(),
    decreases orders.len(),
{
    if orders.len() > 0 {
        let (mid, earlier) = choose|mid: StoreView, earlier: Seq<ChangeView>|
            batch_reports(before, orders.drop_last(), now, earlier, mid) && earlier.len()
                <= changes.len() && changes.subrange(0, earlier.len() as int) == earlier
                && #[trigger] reorder_reports(
                mid,
                orders.last().0,
                orders.last().1,
                now,
                changes.subrange(earlier.len() as int, changes.len() as int),
                after,
            );
        lemma_reports_are_what_was_done(before, orders.drop_last(), now, earlier, mid);
        let reported = changes.subrange(earlier.len() as int, changes.len() as int);
        assert(reordered(mid, orders.last().0, orders.last().1, now, after));
        if can_reorder(mid, orders.last().0) {
            assert(reported.len() == 1);
            assert(changes.drop_last() =~= earlier);
            assert(changes.last() == reported[0]);
        } else {
            assert(changes =~= earlier);
        }
    }
}

/// Every change that a reordering of a batch reports is the writing of a
/// file, and the note whose file it is is named in the batch.
pub proof fn lemma_reports_are_writes(
    before: StoreView,
    orders: Seq<(Seq<char>, int)>,
    now: Seq<char>,
    changes: Seq<ChangeView>,
    after: StoreView,
    at: int,
)
    requires
        batch_reports(before, orders, now, changes, after),
        0 <= at < changes.len(),
    ensures
        changes[at] is Write,
        exists|k: int| 0 <= k < orders.len() && (#[trigger] orders[k]).0 == changes[at]->Write_id,
    decreases orders.len(),
{
    if orders.len() > 0 {
        let (mid, earlier) = choose|mid: StoreView, earlier: Seq<ChangeView>|
            batch_reports(before, orders.drop_last(), now, earlier, mid) && earlier.len()
                <= changes.len() && changes.subrange(0, earlier.len() as int) == earlier
                && #[trigger] reorder_reports(
                mid,
                orders.last().0,
                orders.last().1,
                now,
                changes.subrange(earlier.len() as int, changes.len() as int),
                after,
            );
        let reported = changes.subrange(earlier.len() as int, changes.len() as int);
        if at < earlier.len() {
            assert(changes[at] == earlier[at]);
            lemma_reports_are_writes(before, orders.drop_last(), now, earlier, mid, at);
            let k = choose|k: int|
                0 <= k < orders.drop_last().len() && (#[trigger] orders.drop_last()[k]).0
                    == earlier[at]->Write_id;
            assert(orders[k] == orders.drop_last()[k]);
        } else {
            assert(reported.len() == changes.len() - earlier.len());
            assert(changes[at] == reported[at - earlier.len()]);
            assert(can_reorder(mid, orders.last().0));
            let id = orders.last().0;
            let home = mid.home_of(id);
            let text = choose|text: Seq<char>|
                reorders(mid.partition(home)[id], orders.last().1, now, text) && after
                    == #[trigger] mid.with_file(home, id, text) && reported == seq![
                    ChangeView::Write { partition: home, id, text },
                ];
            assert(reported[0] == (ChangeView::Write { partition: home, id, text }));
            assert(orders[orders.len() - 1].0 == changes[at]->Write_id);
        }
    }
}

/// Reordering a note whose file has a header that spells a JSON object gives
/// the note the new order and leaves its title, content and collapsed flag
/// as they are. The file is rewritten in the partition where it lies.
pub proof fn lemma_reorder_sets_order(
    before: StoreView,
    id: Seq<char>,
    order: int,
    now: Seq<char>,
    after: StoreView,
)
    requires
        can_reorder(before, id),
        i32::MIN <= order <= i32::MAX,
        reordered(before, id, order, now, after),
    ensures
        after.home_of(id) == before.home_of(id),
        can_reorder(after, id),
        decode_spec(after.partition(after.home_of(id))[id], id) == (NoteView {
            order,
            ..decode_spec(before.partition(before.home_of(id))[id], id)
        }),
{
    let home = before.home_of(id);
    let text = choose|text: Seq<char>|
        reorders(before.partition(home)[id], order, now, text) && after
            == #[trigger] before.with_file(home, id, text);
    lemma_reorder_keeps_note(before.partition(home)[id], id, order, now, text);
    assert(after.partition(home)[id] == text);
}

/// A batch that names a note with a file and a note without one reorders
/// the first and is not disturbed by the second: the first note has the new
/// order and is otherwise as before, and the file of every other note is as
/// it was.
pub proof fn lemma_reorder_partial(
    before: StoreView,
    id: Seq<char>,
    order: int,
    missing: Seq<char>,
    other_order: int,
    now: Seq<char>,
    after: StoreView,
)
    requires
        can_reorder(before, id),
        i32::MIN <= order <= i32::MAX,
        !before.active.contains_key(missing),
        !before.archived.contains_key(missing),
        batch_reordered(before, seq![(id, order), (missing, other_order)], now, after),
    ensures
        decode_spec(after.partition(after.home_of(id))[id], id) == (NoteView {
            order,
            ..decode_spec(before.partition(before.home_of(id))[id], id)
        }),
        forall|other: Seq<char>, partition: Partition|
            other != id && before.partition(partition).contains_key(other) ==> #[trigger]
                after.partition(partition)[other] == before.partition(partition)[other],
        after.active.dom() == before.active.dom(),
        after.archived.dom() == before.archived.dom(),
{
    let orders = seq![(id, order), (missing, other_order)];
    let mid = choose|mid: StoreView|
        batch_reordered(before, orders.drop_last(), now, mid) && #[trigger] reordered(
            mid,
            orders.last().0,
            orders.last().1,
            now,
            after,
        );
    let first = orders.drop_last();
    assert(first =~= seq![(id, order)]);
    let start = choose|start: StoreView|
        batch_reordered(before, first.drop_last(), now, start) && #[trigger] reordered(
            start,
            first.last().0,
            first.last().1,
            now,
            mid,
        );
    assert(first.drop_last() =~= Seq::<(Seq<char>, int)>::empty());
    assert(start == before);
    lemma_reorder_keeps_files(before, id, order, now, mid);
    lemma_reorder_sets_order(before, id, order, now, mid);
    assert(mid.active.dom().contains(missing) == before.active.dom().contains(missing));
    assert(mid.archived.dom().contains(missing) == before.archived.dom().contains(missing));
    lemma_reorder_skips_missing(mid, missing, other_order, now, after);
}

} // verus!
