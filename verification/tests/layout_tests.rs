use zenus::layout::{note_file_name, note_id_of, Partition};

#[test]
fn file_name_is_id_and_ending() {
    assert_eq!(note_file_name("20240101"), "20240101.md");
    assert_eq!(note_file_name(""), ".md");
}

#[test]
fn id_is_the_name_without_its_ending() {
    assert_eq!(note_id_of("20240101.md"), Some("20240101".to_string()));
    assert_eq!(note_id_of("a.b.md"), Some("a.b".to_string()));
    assert_eq!(note_id_of("tr\u{e8}s.md"), Some("tr\u{e8}s".to_string()));
}

#[test]
fn other_files_are_no_note_files() {
    assert_eq!(note_id_of("notes.txt"), None);
    assert_eq!(note_id_of("note.md.bak"), None);
    assert_eq!(note_id_of("md"), None);
    assert_eq!(note_id_of(".md"), None);
    assert_eq!(note_id_of(""), None);
    assert_eq!(note_id_of("note.MD"), None);
    assert_eq!(note_id_of("archive"), None);
}

#[test]
fn id_agrees_with_the_path_rules_of_the_standard_library() {
    for name in ["a.md", ".md", "a.b.md", "a", "a.txt", "x.mdx", "..md"] {
        let path = std::path::Path::new(name);
        let expected = if path.extension().and_then(|e| e.to_str()) == Some("md") {
            path.file_stem().and_then(|s| s.to_str()).map(|s| s.to_string())
        } else {
            None
        };
        assert_eq!(note_id_of(name), expected, "{:?}", name);
    }
}

#[test]
fn a_file_name_gives_its_id_back() {
    for id in ["n1", "a.b", "x y", "20240101T101010"] {
        assert_eq!(note_id_of(&note_file_name(id)), Some(id.to_string()));
    }
}

#[test]
fn partitions_are_each_other_s_opposite() {
    assert_eq!(Partition::Active.opposite(), Partition::Archived);
    assert_eq!(Partition::Archived.opposite(), Partition::Active);
}

#[test]
fn partition_from_the_name_of_a_directory() {
    assert_eq!(Partition::from_subdir(None), Partition::Active);
    assert_eq!(Partition::from_subdir(Some("archive")), Partition::Archived);
    assert_eq!(Partition::from_subdir(Some("other")), Partition::Active);
    assert_eq!(Partition::from_subdir(Some("")), Partition::Active);
}

#[test]
fn partition_names_its_directory() {
    assert_eq!(Partition::Active.subdir(), None);
    assert_eq!(Partition::Archived.subdir(), Some("archive".to_string()));
}
