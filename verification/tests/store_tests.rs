use zenus::codec::{decode, encode, read_header_of};
use zenus::error::NoteError;
use zenus::layout::Partition;
use zenus::note::NoteBlock;
use zenus::store::{
    archive_block_local, delete_block_local, load_note_local, load_notes_local, save_block_at,
    save_block_local,
    unarchive_block_local, update_orders_at, update_orders_local, Change, NoteStore,
};

fn note(id: &str, title: &str, content: &str, is_collapsed: bool, order: i32) -> NoteBlock {
    NoteBlock {
        id: id.to_string(),
        title: title.to_string(),
        content: content.to_string(),
        is_collapsed,
        order,
    }
}

fn ids(notes: &[NoteBlock]) -> Vec<String> {
    notes.iter().map(|n| n.id.clone()).collect()
}

fn store_with(notes: &[NoteBlock]) -> NoteStore {
    let mut store = NoteStore::new();
    for n in notes {
        save_block_at(&mut store, n.clone(), "t0").unwrap();
    }
    store
}

#[test]
fn an_empty_store_lists_nothing() {
    let store = NoteStore::new();
    assert!(load_notes_local(&store, Partition::Active).is_empty());
    assert!(load_notes_local(&store, Partition::Archived).is_empty());
}

#[test]
fn the_first_save_is_the_whole_listing() {
    let mut store = NoteStore::new();
    let input = note("n1", "T", "C", false, 0);
    save_block_local(&mut store, input.clone()).unwrap();
    assert_eq!(load_notes_local(&store, Partition::Active), vec![input]);
    assert!(load_notes_local(&store, Partition::Archived).is_empty());
}

#[test]
fn save_reports_the_file_it_wrote() {
    let mut store = NoteStore::new();
    let input = note("n1", "T", "C", false, 0);
    let change = save_block_at(&mut store, input.clone(), "2024-01-01T00:00:00+00:00").unwrap();
    match change {
        Change::Write { partition, id, text } => {
            assert_eq!(partition, Partition::Active);
            assert_eq!(id, "n1");
            assert_eq!(store.text_of(Partition::Active, "n1"), Some(text.clone()));
            assert_eq!(decode(&text, "n1"), input);
            assert_eq!(text, encode(&input, "2024-01-01T00:00:00+00:00", "2024-01-01T00:00:00+00:00").unwrap());
        }
        other => panic!("not a write: {:?}", other),
    }
}

#[test]
fn save_with_the_clock_writes_a_time_stamp() {
    let mut store = NoteStore::new();
    save_block_local(&mut store, note("n1", "T", "C", false, 0)).unwrap();
    let text = store.text_of(Partition::Active, "n1").unwrap();
    let created = read_header_of(&text).created_at.unwrap();
    assert!(chrono::DateTime::parse_from_rfc3339(&created).is_ok());
    assert!(created.len() >= 25);
    assert!(created.ends_with("+00:00"));
    assert!(created.chars().all(|c| c.is_ascii_digit() || "+-:.T".contains(c)));
}

#[test]
fn listing_is_sorted_by_order_then_id() {
    let store = store_with(&[note("a", "A", "", false, 2), note("b", "B", "", false, 0), note("c", "C", "", false, 1)]);
    assert_eq!(ids(&load_notes_local(&store, Partition::Active)), vec!["b", "c", "a"]);
}

#[test]
fn listing_breaks_ties_by_id() {
    let store = store_with(&[note("20240103", "", "", false, 0), note("20240101", "", "", false, 0), note("20240102", "", "", false, 0), note("0", "", "", false, 1)]);
    assert_eq!(ids(&load_notes_local(&store, Partition::Active)), vec!["20240101", "20240102", "20240103", "0"]);
}

#[test]
fn saving_again_writes_over_the_note() {
    let mut store = store_with(&[note("n1", "T", "C", false, 0)]);
    let second = note("n1", "T2", "C2", true, 4);
    save_block_at(&mut store, second.clone(), "t1").unwrap();
    assert_eq!(load_notes_local(&store, Partition::Active), vec![second]);
}

#[test]
fn saving_again_keeps_the_time_of_creation() {
    let mut store = NoteStore::new();
    save_block_at(&mut store, note("n1", "T", "C", false, 0), "first").unwrap();
    save_block_at(&mut store, note("n1", "T", "C2", false, 0), "second").unwrap();
    let text = store.text_of(Partition::Active, "n1").unwrap();
    assert_eq!(read_header_of(&text).created_at, Some("first".to_string()));
    let value: serde_json::Value =
        serde_json::from_str(&zenus::codec::header_payload(&text).unwrap()).unwrap();
    assert_eq!(value["updatedAt"], serde_json::Value::from("second"));
}

#[test]
fn saving_over_a_file_without_header_sets_the_time_of_creation() {
    let mut store = NoteStore::new();
    store.place(Partition::Active, "old", "# Old\n\nbody".to_string());
    save_block_at(&mut store, note("old", "New", "body", false, 0), "now").unwrap();
    let text = store.text_of(Partition::Active, "old").unwrap();
    assert_eq!(read_header_of(&text).created_at, Some("now".to_string()));
}

#[test]
fn deleting_a_note_removes_it() {
    let mut store = store_with(&[note("a", "", "", false, 0), note("b", "", "", false, 1)]);
    let change = delete_block_local(&mut store, "a".to_string(), Partition::Active);
    assert_eq!(change, Some(Change::Remove { partition: Partition::Active, id: "a".to_string() }));
    assert_eq!(ids(&load_notes_local(&store, Partition::Active)), vec!["b"]);
}

#[test]
fn deleting_a_missing_note_changes_nothing() {
    let mut store = store_with(&[note("a", "", "", false, 0)]);
    let before = load_notes_local(&store, Partition::Active);
    assert_eq!(delete_block_local(&mut store, "nope".to_string(), Partition::Active), None);
    assert_eq!(delete_block_local(&mut store, "a".to_string(), Partition::Archived), None);
    assert_eq!(load_notes_local(&store, Partition::Active), before);
    assert!(load_notes_local(&store, Partition::Archived).is_empty());
}

#[test]
fn deleting_twice_is_deleting_once() {
    let mut store = store_with(&[note("a", "", "", false, 0), note("b", "", "", false, 1)]);
    assert!(delete_block_local(&mut store, "a".to_string(), Partition::Active).is_some());
    assert!(delete_block_local(&mut store, "a".to_string(), Partition::Active).is_none());
    assert_eq!(ids(&load_notes_local(&store, Partition::Active)), vec!["b"]);
}

#[test]
fn archiving_moves_the_note() {
    let kept = note("k", "Keep", "stay", false, 0);
    let moved = note("m", "Move", "go\nthere", true, 3);
    let mut store = store_with(&[kept.clone(), moved.clone()]);
    let change = archive_block_local(&mut store, "m".to_string());
    assert_eq!(change, Ok(Change::Move { id: "m".to_string(), from: Partition::Active }));
    assert_eq!(load_notes_local(&store, Partition::Active), vec![kept]);
    assert_eq!(load_notes_local(&store, Partition::Archived), vec![moved]);
}

#[test]
fn unarchiving_moves_the_note_back() {
    let moved = note("m", "Move", "go\nthere", true, 3);
    let mut store = store_with(&[moved.clone()]);
    archive_block_local(&mut store, "m".to_string()).unwrap();
    let change = unarchive_block_local(&mut store, "m".to_string());
    assert_eq!(change, Ok(Change::Move { id: "m".to_string(), from: Partition::Archived }));
    assert_eq!(load_notes_local(&store, Partition::Active), vec![moved]);
    assert!(load_notes_local(&store, Partition::Archived).is_empty());
}

#[test]
fn archiving_a_missing_note_fails() {
    let mut store = store_with(&[note("a", "", "", false, 0)]);
    assert_eq!(archive_block_local(&mut store, "nope".to_string()), Err(NoteError::NotFound));
    archive_block_local(&mut store, "a".to_string()).unwrap();
    assert_eq!(archive_block_local(&mut store, "a".to_string()), Err(NoteError::NotFound));
    assert_eq!(ids(&load_notes_local(&store, Partition::Archived)), vec!["a"]);
}

#[test]
fn unarchiving_a_missing_note_fails() {
    let mut store = store_with(&[note("a", "", "", false, 0)]);
    assert_eq!(unarchive_block_local(&mut store, "a".to_string()), Err(NoteError::ArchivedNotFound));
    assert_eq!(ids(&load_notes_local(&store, Partition::Active)), vec!["a"]);
}

#[test]
fn archiving_replaces_a_file_in_the_archive() {
    let mut store = NoteStore::new();
    store.place(Partition::Archived, "x", encode(&note("x", "old", "", false, 0), "a", "a").unwrap());
    store.place(Partition::Active, "x", encode(&note("x", "new", "", false, 0), "b", "b").unwrap());
    archive_block_local(&mut store, "x".to_string()).unwrap();
    assert!(!store.contains(Partition::Active, "x"));
    assert_eq!(load_notes_local(&store, Partition::Archived), vec![note("x", "new", "", false, 0)]);
}

#[test]
fn saving_an_archived_note_writes_to_the_archive() {
    let mut store = store_with(&[note("x", "T", "C", false, 0), note("y", "Y", "", false, 1)]);
    archive_block_local(&mut store, "x".to_string()).unwrap();
    let updated = note("x", "T", "updated content", false, 0);
    let change = save_block_at(&mut store, updated.clone(), "t1").unwrap();
    match change {
        Change::Write { partition, .. } => assert_eq!(partition, Partition::Archived),
        other => panic!("not a write: {:?}", other),
    }
    assert_eq!(ids(&load_notes_local(&store, Partition::Active)), vec!["y"]);
    assert_eq!(load_notes_local(&store, Partition::Archived), vec![updated]);
}

#[test]
fn reordering_sets_the_order_of_a_note() {
    let a = note("a", "A", "body a", true, 0);
    let b = note("b", "B", "body b", false, 1);
    let mut store = store_with(&[a.clone(), b.clone()]);
    let changes = update_orders_at(&mut store, vec![("a".to_string(), 5)], "t1").unwrap();
    assert_eq!(changes.len(), 1);
    let listed = load_notes_local(&store, Partition::Active);
    assert_eq!(listed, vec![b, NoteBlock { order: 5, ..a }]);
}

#[test]
fn reordering_passes_over_a_missing_note() {
    let x = note("X", "T", "C", false, 0);
    let other = note("other", "O", "", false, 7);
    let mut store = store_with(&[x.clone(), other.clone()]);
    let changes = update_orders_at(
        &mut store,
        vec![("X".to_string(), 5), ("nonexistent".to_string(), 9)],
        "t1",
    )
    .unwrap();
    assert_eq!(changes.len(), 1);
    assert_eq!(load_notes_local(&store, Partition::Active), vec![NoteBlock { order: 5, ..x }, other]);
    assert!(!store.contains(Partition::Active, "nonexistent"));
    assert!(!store.contains(Partition::Archived, "nonexistent"));
}

#[test]
fn reordering_reports_the_files_it_wrote() {
    let mut store = store_with(&[note("a", "A", "", false, 0), note("b", "B", "", false, 1)]);
    let changes = update_orders_at(
        &mut store,
        vec![("b".to_string(), -1), ("zz".to_string(), 3), ("a".to_string(), 8)],
        "t1",
    )
    .unwrap();
    assert_eq!(changes.len(), 2);
    match &changes[0] {
        Change::Write { partition, id, text } => {
            assert_eq!(*partition, Partition::Active);
            assert_eq!(id, "b");
            assert_eq!(store.text_of(Partition::Active, "b").as_ref(), Some(text));
        }
        other => panic!("not a write: {:?}", other),
    }
    match &changes[1] {
        Change::Write { id, .. } => assert_eq!(id, "a"),
        other => panic!("not a write: {:?}", other),
    }
    assert_eq!(ids(&load_notes_local(&store, Partition::Active)), vec!["b", "a"]);
}

#[test]
fn reordering_looks_in_the_archive_first() {
    let mut store = store_with(&[note("x", "T", "C", false, 0)]);
    archive_block_local(&mut store, "x".to_string()).unwrap();
    store.place(Partition::Active, "x", encode(&note("x", "stray", "", false, 1), "a", "a").unwrap());
    update_orders_at(&mut store, vec![("x".to_string(), 9)], "t1").unwrap();
    assert_eq!(load_notes_local(&store, Partition::Archived)[0].order, 9);
    assert_eq!(load_notes_local(&store, Partition::Active)[0].order, 1);
}

#[test]
fn reordering_keeps_the_time_of_creation() {
    let mut store = NoteStore::new();
    save_block_at(&mut store, note("a", "A", "", false, 0), "first").unwrap();
    update_orders_at(&mut store, vec![("a".to_string(), 2)], "later").unwrap();
    let text = store.text_of(Partition::Active, "a").unwrap();
    assert_eq!(read_header_of(&text).created_at, Some("first".to_string()));
}

#[test]
fn reordering_passes_over_a_file_without_header() {
    let mut store = NoteStore::new();
    store.place(Partition::Active, "old", "# Old\n\nbody".to_string());
    let changes = update_orders_at(&mut store, vec![("old".to_string(), 4)], "t1").unwrap();
    assert!(changes.is_empty());
    assert_eq!(store.text_of(Partition::Active, "old"), Some("# Old\n\nbody".to_string()));
}

#[test]
fn reordering_the_same_note_twice_keeps_the_last_order() {
    let mut store = store_with(&[note("a", "A", "", false, 0)]);
    update_orders_at(&mut store, vec![("a".to_string(), 1), ("a".to_string(), 2)], "t1").unwrap();
    assert_eq!(load_notes_local(&store, Partition::Active)[0].order, 2);
}

#[test]
fn reordering_with_the_clock() {
    let mut store = store_with(&[note("a", "A", "", false, 0), note("b", "B", "", false, 1)]);
    update_orders_local(&mut store, vec![("a".to_string(), 1), ("b".to_string(), 0)]).unwrap();
    assert_eq!(ids(&load_notes_local(&store, Partition::Active)), vec!["b", "a"]);
}

#[test]
fn an_empty_batch_changes_nothing() {
    let mut store = store_with(&[note("a", "A", "", false, 0)]);
    let before = store.text_of(Partition::Active, "a");
    assert!(update_orders_at(&mut store, Vec::new(), "t1").unwrap().is_empty());
    assert_eq!(store.text_of(Partition::Active, "a"), before);
}

#[test]
fn placed_files_are_listed_as_they_decode() {
    let mut store = NoteStore::new();
    store.place(Partition::Active, "plain", "just text".to_string());
    store.place(Partition::Active, "head", "# Heading\n\nbody".to_string());
    store.place(Partition::Active, "meta", "<!-- {\"title\":\"M\",\"order\":-1} -->\n\nm".to_string());
    let listed = load_notes_local(&store, Partition::Active);
    assert_eq!(
        listed,
        vec![
            note("meta", "M", "m", false, -1),
            note("head", "Heading", "body", false, 0),
            note("plain", "Untitled", "just text", false, 0),
        ]
    );
}

#[test]
fn home_is_the_archive_for_an_archived_note() {
    let mut store = store_with(&[note("a", "", "", false, 0), note("b", "", "", false, 0)]);
    archive_block_local(&mut store, "a".to_string()).unwrap();
    assert_eq!(store.home("a"), Partition::Archived);
    assert_eq!(store.home("b"), Partition::Active);
    assert_eq!(store.home("c"), Partition::Active);
}

#[test]
fn a_listing_does_not_depend_on_the_order_of_the_files() {
    let notes = [note("a", "A", "x", false, 2), note("b", "B", "y", true, 0), note("c", "C", "z", false, 2)];
    let forward = store_with(&notes);
    let mut reversed = notes.to_vec();
    reversed.reverse();
    let backward = store_with(&reversed);
    assert_eq!(
        load_notes_local(&forward, Partition::Active),
        load_notes_local(&backward, Partition::Active)
    );
    assert_eq!(ids(&load_notes_local(&forward, Partition::Active)), vec!["b", "a", "c"]);
}

#[test]
fn a_note_of_each_partition_is_listed_in_its_own() {
    let mut store = NoteStore::new();
    store.place(Partition::Active, "x", encode(&note("x", "active", "", false, 0), "a", "a").unwrap());
    store.place(Partition::Archived, "x", encode(&note("x", "archived", "", false, 0), "a", "a").unwrap());
    assert_eq!(load_notes_local(&store, Partition::Active)[0].title, "active");
    assert_eq!(load_notes_local(&store, Partition::Archived)[0].title, "archived");
    assert!(store.contains(Partition::Active, "x"));
    assert_eq!(store.text_of(Partition::Active, "y"), None);
}

#[test]
fn one_note_is_read_by_its_id() {
    let kept = note("k", "Keep", "stay", false, 0);
    let mut store = store_with(&[kept.clone(), note("m", "Move", "", false, 1)]);
    archive_block_local(&mut store, "m".to_string()).unwrap();
    assert_eq!(load_note_local(&store, Partition::Active, "k"), Ok(kept));
    assert_eq!(load_note_local(&store, Partition::Archived, "m").unwrap().title, "Move");
}

#[test]
fn reading_a_missing_note_fails() {
    let store = store_with(&[note("k", "Keep", "stay", false, 0)]);
    assert_eq!(load_note_local(&store, Partition::Active, "nope"), Err(NoteError::NotFound));
    assert_eq!(load_note_local(&store, Partition::Archived, "k"), Err(NoteError::ArchivedNotFound));
}

#[test]
fn a_note_is_never_in_both_partitions() {
    let mut store = store_with(&[note("a", "A", "", false, 0), note("b", "B", "", false, 1)]);
    let both = |s: &NoteStore| {
        ["a", "b", "c"]
            .iter()
            .any(|id| s.contains(Partition::Active, id) && s.contains(Partition::Archived, id))
    };
    assert!(!both(&store));
    archive_block_local(&mut store, "a".to_string()).unwrap();
    assert!(!both(&store));
    save_block_at(&mut store, note("a", "A2", "", false, 0), "t1").unwrap();
    assert!(!both(&store));
    update_orders_at(&mut store, vec![("a".to_string(), 3), ("b".to_string(), 2)], "t2").unwrap();
    assert!(!both(&store));
    unarchive_block_local(&mut store, "a".to_string()).unwrap();
    assert!(!both(&store));
    delete_block_local(&mut store, "b".to_string(), Partition::Active);
    assert!(!both(&store));
    save_block_at(&mut store, note("c", "C", "", false, 0), "t3").unwrap();
    assert!(!both(&store));
    assert_eq!(ids(&load_notes_local(&store, Partition::Active)), vec!["c", "a"]);
}

#[test]
fn a_saved_note_comes_back_field_for_field() {
    let mut store = NoteStore::new();
    let saved = note("r1", "T -->", "l1\n\nl3", true, -7);
    assert!(save_block_local(&mut store, saved.clone()).is_ok());
    assert_eq!(load_notes_local(&store, Partition::Active), vec![saved]);
}

#[test]
fn save_archive_and_save_again() {
    let mut store = NoteStore::new();
    assert!(save_block_local(&mut store, note("n1", "T", "old", false, 0)).is_ok());
    assert!(archive_block_local(&mut store, "n1".to_string()).is_ok());
    let again = note("n1", "T2", "new", true, 4);
    assert!(save_block_local(&mut store, again.clone()).is_ok());
    assert!(load_notes_local(&store, Partition::Active).is_empty());
    assert_eq!(load_notes_local(&store, Partition::Archived), vec![again]);
}

#[test]
fn a_second_save_of_the_same_note_changes_no_listing() {
    let mut store = store_with(&[note("other", "O", "", false, 1)]);
    let saved = note("b", "B", "body", false, 0);
    assert!(save_block_local(&mut store, saved.clone()).is_ok());
    let active = load_notes_local(&store, Partition::Active);
    let archived = load_notes_local(&store, Partition::Archived);
    assert!(save_block_local(&mut store, saved).is_ok());
    assert_eq!(load_notes_local(&store, Partition::Active), active);
    assert_eq!(load_notes_local(&store, Partition::Archived), archived);
    assert_eq!(active.iter().filter(|n| n.id == "b").count(), 1);
}

#[test]
fn a_batch_with_an_unknown_id_succeeds() {
    let x = note("X", "TX", "CX", true, 0);
    let y = note("Y", "TY", "CY", false, 1);
    let mut store = NoteStore::new();
    save_block_local(&mut store, x.clone()).unwrap();
    save_block_local(&mut store, y.clone()).unwrap();
    let out = update_orders_local(
        &mut store,
        vec![("ghost".to_string(), 1), ("X".to_string(), 5), ("ghost".to_string(), 9)],
    );
    assert!(out.is_ok());
    assert_eq!(load_notes_local(&store, Partition::Active), vec![y, NoteBlock { order: 5, ..x }]);
    assert!(load_notes_local(&store, Partition::Archived).is_empty());
}

#[test]
fn saving_and_reordering_never_fail() {
    let mut store = NoteStore::new();
    let odd = note("odd", "\u{0}\u{1f}\"\\\u{7f}\u{2028}", "\u{0}\r\n", true, i32::MIN);
    assert!(save_block_at(&mut store, odd, "\n").is_ok());
    store.place(Partition::Active, "deep", "<!-- {\"a\":[[[{\"b\":1.5e300}]]],\"order\":null} -->\n".to_string());
    let out = update_orders_at(
        &mut store,
        vec![("odd".to_string(), 1), ("deep".to_string(), 2), ("none".to_string(), 3)],
        "\u{0}",
    );
    assert_eq!(out.map(|changes| changes.len()), Ok(2));
    assert_eq!(ids(&load_notes_local(&store, Partition::Active)), vec!["odd", "deep"]);
}

#[test]
fn a_saved_note_comes_back_with_any_content() {
    for content in ["trailing\n", "win\r\ndows\r\n", "\n\n", "quotes \" --> <!-- # \n"] {
        let mut store = NoteStore::new();
        let saved = note("any", "T \"q\" -->", content, false, 1);
        save_block_local(&mut store, saved.clone()).unwrap();
        assert_eq!(load_notes_local(&store, Partition::Active), vec![saved.clone()]);
        archive_block_local(&mut store, "any".to_string()).unwrap();
        save_block_local(&mut store, saved.clone()).unwrap();
        assert_eq!(load_notes_local(&store, Partition::Archived), vec![saved]);
    }
}

#[test]
fn reordering_reports_one_write_for_each_note_it_rewrote() {
    let mut store = store_with(&[note("a", "A", "x\n", false, 0), note("b", "B", "", false, 1)]);
    archive_block_local(&mut store, "b".to_string()).unwrap();
    store.place(Partition::Active, "plain", "no header".to_string());
    let changes = update_orders_at(
        &mut store,
        vec![
            ("b".to_string(), 4),
            ("plain".to_string(), 5),
            ("a".to_string(), 6),
            ("gone".to_string(), 7),
            ("b".to_string(), 8),
        ],
        "t1",
    )
    .unwrap();
    let shown: Vec<(Partition, String)> = changes
        .iter()
        .map(|change| match change {
            Change::Write { partition, id, .. } => (*partition, id.clone()),
            other => panic!("not a write: {:?}", other),
        })
        .collect();
    assert_eq!(
        shown,
        vec![
            (Partition::Archived, "b".to_string()),
            (Partition::Active, "a".to_string()),
            (Partition::Archived, "b".to_string()),
        ]
    );
    match &changes[2] {
        Change::Write { text, .. } => {
            assert_eq!(store.text_of(Partition::Archived, "b").as_ref(), Some(text))
        }
        other => panic!("not a write: {:?}", other),
    }
    assert_eq!(load_notes_local(&store, Partition::Active)[1].content, "x\n");
}
