use zenus::text::{
    chars_of, ends_with, first_line_end, next_line, push_chars, starts_with, string_of,
};

#[test]
fn chars_of_keeps_every_character() {
    assert_eq!(chars_of("a\u{e9}b"), vec!['a', '\u{e9}', 'b']);
    assert_eq!(chars_of(""), Vec::<char>::new());
}

#[test]
fn string_of_takes_the_range() {
    let chars = chars_of("hello world");
    assert_eq!(string_of(&chars, 6, 11), "world");
    assert_eq!(string_of(&chars, 3, 3), "");
}

#[test]
fn push_chars_appends() {
    let chars = chars_of("abcdef");
    let mut out = String::from("x");
    push_chars(&mut out, &chars, 1, 4);
    assert_eq!(out, "xbcd");
}

#[test]
fn starts_with_looks_at_the_start_of_the_range() {
    let chars = chars_of("ab# title");
    assert!(starts_with(&chars, 2, 9, &chars_of("# ")));
    assert!(!starts_with(&chars, 0, 9, &chars_of("# ")));
    assert!(!starts_with(&chars, 2, 3, &chars_of("# ")));
    assert!(starts_with(&chars, 2, 9, &chars_of("")));
}

#[test]
fn ends_with_looks_at_the_end_of_the_range() {
    let chars = chars_of("note.md.bak");
    assert!(ends_with(&chars, 0, 7, &chars_of(".md")));
    assert!(!ends_with(&chars, 0, 11, &chars_of(".md")));
    assert!(!ends_with(&chars, 5, 7, &chars_of(".md")));
}

#[test]
fn first_line_end_finds_the_first_line_feed() {
    assert_eq!(first_line_end(&chars_of("ab\ncd\n")), 2);
    assert_eq!(first_line_end(&chars_of("abcd")), 4);
    assert_eq!(first_line_end(&chars_of("")), 0);
    assert_eq!(first_line_end(&chars_of("\nx")), 0);
}

#[test]
fn next_line_stops_before_the_line_ending() {
    let chars = chars_of("ab\r\ncd\nef");
    assert_eq!(next_line(&chars, 0), (2, 4));
    assert_eq!(next_line(&chars, 4), (6, 7));
    assert_eq!(next_line(&chars, 7), (9, 9));
}

#[test]
fn next_line_keeps_a_carriage_return_without_line_feed() {
    let chars = chars_of("ab\r");
    assert_eq!(next_line(&chars, 0), (3, 3));
    let lone = chars_of("\r\nx");
    assert_eq!(next_line(&lone, 0), (0, 2));
}

#[test]
fn next_line_reads_lines_as_the_standard_library_does() {
    let samples = ["a", "a\n", "a\nb", "a\r\nb\r\n", "a\n\nb\n\n", "\n", "a\r", "a\r\r\nb", "x\ry\nz"];
    for sample in samples {
        let chars = chars_of(sample);
        let mut lines: Vec<String> = Vec::new();
        let mut from = 0;
        while from < chars.len() {
            let (stop, next) = next_line(&chars, from);
            lines.push(string_of(&chars, from, stop));
            from = next;
        }
        let expected: Vec<String> = sample.lines().map(|l| l.to_string()).collect();
        assert_eq!(lines, expected, "{:?}", sample);
    }
}
