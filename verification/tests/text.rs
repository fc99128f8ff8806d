use ron_lsp::text::{
    join, last_path_segment, line_at, list_contains, number_text, remove_spaces, split, trim,
    trim_end, trim_start,
};

#[test]
fn white_space_is_trimmed_as_unicode_has_it() {
    assert_eq!(trim(" \t\u{a0}x y\u{2003}\n"), "x y");
    assert_eq!(trim_start("\u{3000}x "), "x ");
    assert_eq!(trim_end(" x\u{200b}"), " x\u{200b}");
    for c in (0..=0x10ffffu32).filter_map(char::from_u32) {
        let s = c.to_string();
        assert_eq!(trim(&s), s.trim());
    }
}

#[test]
fn texts_are_split_and_joined() {
    assert_eq!(split("a,b,,c", ','), vec!["a", "b", "", "c"]);
    assert_eq!(split("", ','), vec![""]);
    assert_eq!(join(&split("a,b,,c", ','), "::"), "a::b::::c");
    assert_eq!(join(&Vec::new(), ","), "");
}

#[test]
fn the_last_segment_of_a_path_follows_on_the_last_separator() {
    assert_eq!(last_path_segment("a::b::C"), "C");
    assert_eq!(last_path_segment("C"), "C");
    assert_eq!(last_path_segment("a::"), "");
    assert_eq!(last_path_segment("a:::b"), ":b");
    for path in ["a::b::C", "C", "a::", "a:::b", "::::", ":::"] {
        assert_eq!(last_path_segment(path), path.split("::").last().unwrap());
    }
}

#[test]
fn lines_are_counted_as_the_standard_library_counts_them() {
    for content in ["", "a", "a\n", "a\n\nb", "a\r\nb\r", "\n", "\r\n\r\n", "é\n\rü"] {
        for n in 0..5 {
            assert_eq!(line_at(content, n), content.lines().nth(n), "{:?} {}", content, n);
        }
    }
}

#[test]
fn numbers_are_written_in_decimal() {
    for n in [0, 7, 10, 305, usize::MAX] {
        assert_eq!(number_text(n), n.to_string());
    }
}

#[test]
fn spaces_are_removed_and_nothing_else() {
    assert_eq!(remove_spaces(" a\tb  c "), "a\tbc");
    assert!(list_contains(&vec!["a".to_string(), "b".to_string()], "b"));
    assert!(!list_contains(&vec!["a".to_string()], "ab"));
}
