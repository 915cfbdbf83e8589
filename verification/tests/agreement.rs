use tailwind_fuse::merge::{tw_merge_options, MergeOptions as FuseOptions};
use tailwind_merge::tokenizer::split_words;
use tailwind_merge::{configure, merge, MergeOptions};

const PLAIN: FuseOptions = FuseOptions { prefix: "", separator: ":" };

fn fused(a: &str, b: &str) -> String {
    tw_merge_options(format!("{} {}", a, b), PLAIN)
}

fn ours(a: &str, b: &str) -> String {
    merge(&MergeOptions::default(), a, b)
}

fn sorted_names(list: &str) -> Vec<String> {
    let mut names = split_words(list);
    names.sort();
    names
}

#[test]
fn same_list_where_the_winner_is_written_last_anyway() {
    for (a, b) in [
        ("p-2", "p-4"),
        ("p-2", "hover:p-4"),
        ("pl-2 pr-2", "px-4"),
        ("px-4", "pl-8"),
        ("flex p-2", "p-4"),
        ("p-4 flex", "m-2 text-red-500"),
        ("text-lg text-red-500", "text-center"),
        ("hover:bg-red-500", "hover:bg-blue-500"),
        ("w-4 h-4", "size-8"),
        ("top-0 inset-x-1 bottom-2", "inset-4"),
        ("top-0 left-0 right-0", "inset-x-1"),
        ("", ""),
        ("  p-4  ", ""),
    ] {
        assert_eq!(ours(a, b), fused(a, b));
    }
}

#[test]
fn same_names_in_another_order_where_the_winner_moves_forward() {
    for (a, b) in [
        ("p-2 m-1", "p-4"),
        ("flex p-2 m-1", "hidden p-4"),
        ("hover:p-2 md:p-1 w-1", "hover:p-4"),
        ("text-sm font-bold bg-white", "text-lg bg-black"),
    ] {
        assert_ne!(ours(a, b), fused(a, b));
        assert_eq!(sorted_names(&ours(a, b)), sorted_names(&fused(a, b)));
    }
}

#[test]
fn first_place_here_last_place_there() {
    assert_eq!(ours("p-2 m-1", "p-4"), "p-4 m-1");
    assert_eq!(fused("p-2 m-1", "p-4"), "m-1 p-4");
}

#[test]
fn repeated_unknown_class_is_written_once_only_here() {
    assert_eq!(ours("foo-bar", "foo-bar"), "foo-bar");
    assert_eq!(fused("foo-bar", "foo-bar"), "foo-bar foo-bar");
}

#[test]
fn same_list_under_a_configured_separator() {
    let options = configure("", "__").unwrap();
    let there = FuseOptions { prefix: "", separator: "__" };
    for (a, b) in [("hover__p-2", "hover__p-4"), ("hover__p-2", "p-4"), ("p-2", "focus__p-4")] {
        assert_eq!(merge(&options, a, b), tw_merge_options(format!("{} {}", a, b), there));
    }
}

#[test]
fn same_list_where_spaces_beyond_ascii_separate() {
    for (a, b) in [
        ("flex\u{A0}p-2", "\x0Bp-4\u{3000}"),
        ("\x0B", ""),
        ("pl-2\u{2003}pr-2", "\u{85}px-4"),
        ("a\u{A0}b", "\u{2028}c\u{2029}"),
    ] {
        assert_eq!(ours(a, b), fused(a, b));
    }
    assert_eq!(ours("\x0B", ""), "");
    assert_eq!(ours("a\u{A0}b", ""), "a b");
}
