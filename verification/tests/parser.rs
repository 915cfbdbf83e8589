use tailwind_merge::classifier::{Category, StemTable};
use tailwind_merge::parser::parse_token;
use tailwind_merge::{configure, MergeOptions};

fn parts(options: &MergeOptions, token: &str) -> (String, String) {
    let parsed = parse_token(&StemTable::standard(), options, token);
    (parsed.modifier, parsed.base)
}

fn pair(modifier: &str, base: &str) -> (String, String) {
    (modifier.to_string(), base.to_string())
}

#[test]
fn class_name_without_separator_is_its_base_utility() {
    let options = MergeOptions::default();
    assert_eq!(parts(&options, "p-4"), pair("", "p-4"));
    assert_eq!(parts(&options, "foo"), pair("", "foo"));
    assert_eq!(parts(&options, ""), pair("", ""));
}

#[test]
fn modifier_ends_at_the_separator() {
    let options = MergeOptions::default();
    assert_eq!(parts(&options, "hover:p-4"), pair("hover", "p-4"));
    assert_eq!(parts(&options, "md:flex"), pair("md", "flex"));
}

#[test]
fn stacked_modifiers_form_one_context() {
    let options = MergeOptions::default();
    assert_eq!(parts(&options, "md:hover:p-4"), pair("md:hover", "p-4"));
    assert_eq!(parts(&options, ":p-4"), pair("", "p-4"));
    assert_eq!(parts(&options, "::p-4"), pair(":", "p-4"));
}

#[test]
fn separator_before_an_unknown_utility_does_not_split() {
    let options = MergeOptions::default();
    assert_eq!(parts(&options, "hover:foo"), pair("", "hover:foo"));
    assert_eq!(parts(&options, "hover:"), pair("", "hover:"));
    assert_eq!(parts(&options, "hover:p-"), pair("", "hover:p-"));
}

#[test]
fn last_separator_before_a_known_utility_splits() {
    let options = MergeOptions::default();
    assert_eq!(parts(&options, "hover:bg-[url(a:b)]"), pair("hover", "bg-[url(a:b)]"));
    assert_eq!(parts(&options, "a:p-4:m-2"), pair("a:p-4", "m-2"));
    assert_eq!(parts(&options, "a:p-4:zzz"), pair("a", "p-4:zzz"));
}

#[test]
fn prefix_is_taken_off_the_start() {
    let options = configure("tw-", ":").unwrap();
    assert_eq!(parts(&options, "tw-p-4"), pair("", "p-4"));
    assert_eq!(parts(&options, "tw-hover:p-4"), pair("hover", "p-4"));
    assert_eq!(parts(&options, "tw-"), pair("", ""));
}

#[test]
fn class_name_without_the_prefix_is_read_as_it_stands() {
    let options = configure("tw-", ":").unwrap();
    assert_eq!(parts(&options, "p-4"), pair("", "p-4"));
    assert_eq!(parts(&options, "TW-p-4"), pair("", "TW-p-4"));
    assert_eq!(parts(&options, "tw"), pair("", "tw"));
    assert_eq!(parts(&options, "hover:tw-p-4"), pair("", "hover:tw-p-4"));
}

#[test]
fn prefix_is_taken_off_once() {
    let options = configure("tw-", ":").unwrap();
    assert_eq!(parts(&options, "tw-tw-p-4"), pair("", "tw-p-4"));
}

#[test]
fn configured_separator_splits() {
    let options = configure("tw-", "__").unwrap();
    assert_eq!(parts(&options, "tw-hover__p-4"), pair("hover", "p-4"));
    assert_eq!(parts(&options, "tw-md__hover__p-4"), pair("md__hover", "p-4"));
    assert_eq!(parts(&options, "tw-hover:p-4"), pair("", "hover:p-4"));
    assert_eq!(parts(&options, "tw-hover___p-4"), pair("hover_", "p-4"));
}

#[test]
fn separator_may_occur_inside_a_stem() {
    let options = configure("", "-").unwrap();
    assert_eq!(parts(&options, "hover-p-4"), pair("hover", "p-4"));
    assert_eq!(parts(&options, "p-4"), pair("", "p-4"));
    assert_eq!(parts(&options, "p-p-4"), pair("p", "p-4"));
}

#[test]
fn table_decides_where_a_class_name_splits() {
    let mut table = StemTable::new();
    table.add_prefix("shade-", &[Category::BackgroundColor]);
    let options = MergeOptions::default();
    let parsed = parse_token(&table, &options, "hover:shade-1");
    assert_eq!((parsed.modifier.as_str(), parsed.base.as_str()), ("hover", "shade-1"));
    let parsed = parse_token(&table, &options, "hover:p-4");
    assert_eq!((parsed.modifier.as_str(), parsed.base.as_str()), ("", "hover:p-4"));
}

#[test]
fn characters_beyond_ascii_are_counted_as_characters() {
    let options = configure("é-", "→").unwrap();
    assert_eq!(parts(&options, "é-höver→p-4"), pair("höver", "p-4"));
}
