use tailwind_merge::text::{chars_of, is_space_char, join_spaced, matches_at};

#[test]
fn white_space_separates() {
    let spaces = [
        '\t', '\n', '\x0B', '\x0C', '\r', ' ', '\u{85}', '\u{A0}', '\u{1680}', '\u{2000}',
        '\u{2001}', '\u{2002}', '\u{2003}', '\u{2004}', '\u{2005}', '\u{2006}', '\u{2007}',
        '\u{2008}', '\u{2009}', '\u{200A}', '\u{2028}', '\u{2029}', '\u{202F}', '\u{205F}',
        '\u{3000}',
    ];
    assert_eq!(spaces.len(), 25);
    for c in spaces {
        assert!(is_space_char(c));
    }
}

#[test]
fn nothing_else_separates() {
    for c in ['a', '-', ':', '\0', '\x08', '\x0E', '\x1F', '\u{84}', '\u{86}', '\u{9F}', '\u{A1}'] {
        assert!(!is_space_char(c));
    }
    for c in ['\u{180E}', '\u{1FFF}', '\u{200B}', '\u{200C}', '\u{2027}', '\u{202A}', '\u{2060}'] {
        assert!(!is_space_char(c));
    }
    for c in ['\u{2FFF}', '\u{3001}', '\u{FEFF}', '_'] {
        assert!(!is_space_char(c));
    }
}

#[test]
fn separators_are_those_of_the_standard_library() {
    for code in 0u32..0x11_0000 {
        if let Some(c) = char::from_u32(code) {
            assert_eq!(is_space_char(c), c.is_whitespace());
        }
    }
}

#[test]
fn parts_are_joined_by_single_spaces() {
    assert_eq!(join_spaced(&["a", "b", "c"]), "a b c");
    assert_eq!(join_spaced(&["a b", " c "]), "a b  c ");
    assert_eq!(join_spaced(&["", ""]), " ");
    assert_eq!(join_spaced(&["only"]), "only");
    assert_eq!(join_spaced(&[]), "");
}

#[test]
fn characters_come_in_order() {
    assert_eq!(chars_of("p-4"), vec!['p', '-', '4']);
    assert_eq!(chars_of(""), Vec::<char>::new());
    assert_eq!(chars_of("é→x"), vec!['é', '→', 'x']);
}

#[test]
fn pattern_is_found_only_where_it_stands() {
    let text = chars_of("hover:p-4");
    assert!(matches_at(&text, 0, &chars_of("hover")));
    assert!(matches_at(&text, 5, &chars_of(":")));
    assert!(matches_at(&text, 6, &chars_of("p-4")));
    assert!(!matches_at(&text, 6, &chars_of("p-44")));
    assert!(!matches_at(&text, 1, &chars_of("hover")));
    assert!(!matches_at(&text, 10, &chars_of("x")));
    assert!(!matches_at(&text, usize::MAX, &chars_of("x")));
}

#[test]
fn empty_pattern_stands_everywhere_within_the_text() {
    let text = chars_of("ab");
    assert!(matches_at(&text, 0, &Vec::new()));
    assert!(matches_at(&text, 2, &Vec::new()));
    assert!(!matches_at(&text, 3, &Vec::new()));
}
