//! The note block and the order in which notes are listed.

use vstd::prelude::*;
use vstd::seq_lib::*;
use crate::text::chars_of;

verus! {

/// One note: the unit that is stored, listed and moved.
#[derive(Clone, Debug, PartialEq, Eq)]
pub struct NoteBlock {
    /// Assigned by the caller, never stored inside the file: it names the file.
    pub id: String,
    /// The title that is shown for the note.
    pub title: String,
    /// The body text.
    pub content: String,
    /// Whether the note is shown collapsed.
    pub is_collapsed: bool,
    /// The sort key within a partition; ties are broken by `id`.
    pub order: i32,
}

/// A note as a mathematical value.
pub struct NoteView {
    pub id: Seq<char>,
    pub title: Seq<char>,
    pub content: Seq<char>,
    pub is_collapsed: bool,
    pub order: int,
}

impl View for NoteBlock {
    type V = NoteView;

    open spec fn view(&self) -> NoteView {
        NoteView {
            id: self.id@,
            title: self.title@,
            content: self.content@,
            is_collapsed: self.is_collapsed,
            order: self.order as int,
        }
    }
}

/// `a` comes before `b` in the order of a dictionary, or equals it, where
/// characters are ordered by their code points.
pub open spec fn text_le(a: Seq<char>, b: Seq<char>) -> bool
    decreases a.len(),
{
    if a.len() == 0 {
        true
    } else if b.len() == 0 {
        false
    } else if a[0] != b[0] {
        (a[0] as int) < (b[0] as int)
    } else {
        text_le(a.drop_first(), b.drop_first())
    }
}

/// `a` is listed at or before `b`: by `order`, then by `id`.
pub open spec fn listed_before(a: NoteView, b: NoteView) -> bool {
    a.order < b.order || (a.order == b.order && text_le(a.id, b.id))
}

/// Every note is listed at or before each note that follows it.
pub open spec fn is_listing(notes: Seq<NoteBlock>) -> bool {
    forall|i: int, j: int| 0 <= i < j < notes.len() ==> listed_before(notes[i]@, notes[j]@)
}

/// Of two texts, one is at or before the other.
pub proof fn lemma_text_le_total(a: Seq<char>, b: Seq<char>)
    ensures
        text_le(a, b) || text_le(b, a),
    decreases a.len(),
{
    if a.len() > 0 && b.len() > 0 && a[0] == b[0] {
        lemma_text_le_total(a.drop_first(), b.drop_first());
    }
}

/// Two texts that are each at or before the other are the same text.
pub proof fn lemma_text_le_antisymmetric(a: Seq<char>, b: Seq<char>)
    requires
        text_le(a, b),
        text_le(b, a),
    ensures
        a == b,
    decreases a.len(),
{
    if a.len() == 0 || b.len() == 0 {
        assert(a =~= b);
    } else {
        lemma_text_le_antisymmetric(a.drop_first(), b.drop_first());
        assert(a =~= seq![a[0]] + a.drop_first());
        assert(b =~= seq![b[0]] + b.drop_first());
    }
}

/// The order of texts is transitive.
pub proof fn lemma_text_le_transitive(a: Seq<char>, b: Seq<char>, c: Seq<char>)
    requires
        text_le(a, b),
        text_le(b, c),
    ensures
        text_le(a, c),
    decreases a.len(),
{
    if a.len() > 0 && a[0] == b[0] && b[0] == c[0] {
        lemma_text_le_transitive(a.drop_first(), b.drop_first(), c.drop_first());
    }
}

/// The order of listing is transitive.
pub proof fn lemma_listed_before_transitive(a: NoteView, b: NoteView, c: NoteView)
    requires
        listed_before(a, b),
        listed_before(b, c),
    ensures
        listed_before(a, c),
{
    if a.order == b.order && b.order == c.order {
        lemma_text_le_transitive(a.id, b.id, c.id);
    }
}

/// Of two notes, one is listed at or before the other.
pub proof fn lemma_listed_before_total(a: NoteView, b: NoteView)
    ensures
        listed_before(a, b) || listed_before(b, a),
{
    lemma_text_le_total(a.id, b.id);
}

/// Whether `a` is at or before `b` in the order of a dictionary.
pub fn text_at_or_before(a: &Vec<char>, b: &Vec<char>) -> (out: bool)
    ensures
        out == text_le(a@, b@),
{
    let mut i: usize = 0;
    assert(a@.skip(0) =~= a@ && b@.skip(0) =~= b@);
    while i < a.len() && i < b.len()
        invariant
            i <= a.len(),
            i <= b.len(),
            text_le(a@, b@) == text_le(a@.skip(i as int), b@.skip(i as int)),
        decreases a.len() - i,
    {
        let x = a[i];
        let y = b[i];
        proof {
            assert(a@.skip(i as int).drop_first() =~= a@.skip(i + 1));
            assert(b@.skip(i as int).drop_first() =~= b@.skip(i + 1));
        }
        if x != y {
            return x < y;
        }
        i += 1;
    }
    i == a.len()
}

/// Whether `a` is listed at or before `b`.
pub fn note_at_or_before(a: &NoteBlock, b: &NoteBlock) -> (out: bool)
    ensures
        out == listed_before(a@, b@),
{
    if a.order != b.order {
        a.order < b.order
    } else {
        let left = chars_of(a.id.as_str());
        let right = chars_of(b.id.as_str());
        text_at_or_before(&left, &right)
    }
}

/// `out` is `notes` sorted by `order`, then by `id`, with notes of the same
/// order and id left in the order they had: `places[k]` is the place in
/// `notes` of the note that stands at place `k` of `out`.
pub open spec fn is_stable_sorting(
    notes: Seq<NoteBlock>,
    out: Seq<NoteBlock>,
    places: Seq<int>,
) -> bool {
    &&& places.len() == out.len()
    &&& out.len() == notes.len()
    &&& forall|k: int|
        0 <= k < out.len() ==> 0 <= #[trigger] places[k] < notes.len() && out[k]
            == notes[places[k]]
    &&& forall|k: int, l: int|
        0 <= k < l < out.len() ==> #[trigger] places[k] != #[trigger] places[l]
    &&& forall|k: int, l: int|
        0 <= k < l < out.len() && listed_before(out[l]@, out[k]@) ==> (#[trigger] places[k])
            < (#[trigger] places[l])
}

/// Sorts notes by `order`, then by `id`: the result holds the same notes,
/// each as often as before, and is a listing. Notes of the same order and id
/// stay in the order they came in.
pub fn sort_notes(notes: Vec<NoteBlock>) -> (out: Vec<NoteBlock>)
    ensures
        is_listing(out@),
        out@.to_multiset() == notes@.to_multiset(),
        exists|places: Seq<int>| is_stable_sorting(notes@, out@, places),
{
    let ghost all = notes@;
    let mut rest = notes;
    let mut out: Vec<NoteBlock> = Vec::new();
    let ghost mut places: Seq<int> = Seq::empty();
    proof {
        broadcast use group_to_multiset_ensures;
        assert(out@.to_multiset().add(rest@.to_multiset()) =~= all.to_multiset());
        assert(rest@ =~= all.take(rest@.len() as int));
    }
    while rest.len() > 0
        invariant
            is_listing(out@),
            out@.to_multiset().add(rest@.to_multiset()) == all.to_multiset(),
            rest@.len() <= all.len(),
            rest@ == all.take(rest@.len() as int),
            places.len() == out@.len(),
            out@.len() + rest@.len() == all.len(),
            forall|k: int|
                0 <= k < out@.len() ==> rest@.len() <= #[trigger] places[k] < all.len() && out@[k]
                    == all[places[k]],
            forall|k: int, l: int|
                0 <= k < l < out@.len() ==> #[trigger] places[k] != #[trigger] places[l],
            forall|k: int, l: int|
                0 <= k < l < out@.len() && listed_before(out@[l]@, out@[k]@) ==> (
                #[trigger] places[k]) < (#[trigger] places[l]),
        decreases rest.len(),
    {
        let ghost before_rest = rest@;
        let ghost before_out = out@;
        let ghost before_places = places;
        let note = rest.pop().unwrap();
        let ghost place = rest@.len() as int;
        let mut at: usize = 0;
        while at < out.len() && !note_at_or_before(&note, &out[at])
            invariant
                at <= out.len(),
                forall|k: int| 0 <= k < at ==> !listed_before(note@, out@[k]@),
            decreases out.len() - at,
        {
            at += 1;
        }
        out.insert(at, note);
        proof {
            broadcast use group_to_multiset_ensures;
            places = before_places.insert(at as int, place);
            assert(before_rest =~= rest@.push(note));
            assert(note == all[place]);
            assert(rest@ =~= all.take(rest@.len() as int));
            assert forall|i: int, j: int| 0 <= i < j < out@.len() implies listed_before(
                out@[i]@,
                out@[j]@,
            ) by {
                if j == at {
                    lemma_listed_before_total(out@[i]@, note@);
                } else if i == at {
                    if j > at + 1 {
                        lemma_listed_before_transitive(note@, before_out[at as int]@, out@[j]@);
                    }
                } else {
                }
            }
            assert forall|k: int| 0 <= k < out@.len() implies rest@.len() <= #[trigger] places[k]
                < all.len() && out@[k] == all[places[k]] by {
                if k < at {
                    assert(places[k] == before_places[k]);
                } else if k > at {
                    assert(places[k] == before_places[k - 1]);
                }
            }
            assert forall|k: int, l: int| 0 <= k < l < out@.len() implies #[trigger] places[k]
                != #[trigger] places[l] by {
                let x = if k < at { k } else { k - 1 };
                let y = if l < at { l } else { l - 1 };
                if k != at {
                    assert(places[k] == before_places[x]);
                }
                if l != at {
                    assert(places[l] == before_places[y]);
                }
            }
            assert forall|k: int, l: int|
                0 <= k < l < out@.len() && listed_before(out@[l]@, out@[k]@) implies (
            #[trigger] places[k]) < (#[trigger] places[l]) by {
                let x = if k < at { k } else { k - 1 };
                let y = if l < at { l } else { l - 1 };
                if k != at {
                    assert(places[k] == before_places[x]);
                }
                if l != at {
                    assert(places[l] == before_places[y]);
                }
            }
            assert(out@.to_multiset().add(rest@.to_multiset()) =~= before_out.to_multiset().add(
                before_rest.to_multiset(),
            ));
        }
    }
    proof {
        broadcast use group_to_multiset_ensures;
        assert(rest@ =~= Seq::<NoteBlock>::empty());
        assert(out@.to_multiset().add(rest@.to_multiset()) =~= out@.to_multiset());
        assert(is_stable_sorting(all, out@, places));
    }
    out
}

} // verus!
