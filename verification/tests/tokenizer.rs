use tailwind_merge::tokenizer::{split_words, tokenize};

#[test]
fn lists_are_read_as_one_list() {
    assert_eq!(tokenize(&["a b", "c"]), vec!["a", "b", "c"]);
    assert_eq!(tokenize(&["p-4", "hover:p-2", "flex"]), vec!["p-4", "hover:p-2", "flex"]);
}

#[test]
fn neighbouring_lists_do_not_run_together() {
    assert_eq!(tokenize(&["a", "b"]), vec!["a", "b"]);
    assert_eq!(tokenize(&["ab", "", "cd"]), vec!["ab", "cd"]);
}

#[test]
fn runs_of_spaces_separate_once() {
    assert_eq!(split_words("a   b\t\tc\n\nd\r\ne\x0Cf"), vec!["a", "b", "c", "d", "e", "f"]);
    assert_eq!(split_words("a\x0Bb\u{85}c\u{2028}\u{2029}d"), vec!["a", "b", "c", "d"]);
    assert_eq!(split_words("  lead and trail  "), vec!["lead", "and", "trail"]);
}

#[test]
fn nothing_but_spaces_holds_no_class_name() {
    assert_eq!(split_words(""), Vec::<String>::new());
    assert_eq!(split_words(" \t\n"), Vec::<String>::new());
    assert_eq!(tokenize(&[]), Vec::<String>::new());
    assert_eq!(tokenize(&["", " ", ""]), Vec::<String>::new());
}

#[test]
fn characters_beyond_ascii_stay_whole() {
    assert_eq!(split_words("größe-4 名前"), vec!["größe-4", "名前"]);
    assert_eq!(split_words("a\u{200B}b"), vec!["a\u{200B}b"]);
}

#[test]
fn spaces_beyond_ascii_separate() {
    assert_eq!(split_words("a\u{00A0}b"), vec!["a", "b"]);
    assert_eq!(split_words("\u{3000}p-4\u{2003}m-2\u{1680}"), vec!["p-4", "m-2"]);
    assert_eq!(split_words("\u{0B}"), Vec::<String>::new());
    assert_eq!(tokenize(&["a\u{202F}b", "\u{205F}c"]), vec!["a", "b", "c"]);
}

#[test]
fn class_names_are_split_as_the_standard_library_splits() {
    for list in ["a b", " a\u{A0}b\u{2009}c ", "\x0B", "x\u{200B}y z", "\u{85}\u{3000}q"] {
        let expected: Vec<String> = list.split_whitespace().map(|w| w.to_string()).collect();
        assert_eq!(split_words(list), expected);
    }
}

#[test]
fn class_names_keep_their_punctuation() {
    assert_eq!(split_words("w-[calc(100%-1rem)] !p-4 -m-2"), vec![
        "w-[calc(100%-1rem)]",
        "!p-4",
        "-m-2"
    ]);
}
