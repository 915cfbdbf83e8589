use tailwind_merge::classifier::Category;
use tailwind_merge::conflict::{ConflictKey, Entry};
use tailwind_merge::resolver::resolve_entries;

fn entry(text: &str, categories: &[Category]) -> Entry {
    Entry {
        text: text.to_string(),
        keys: categories
            .iter()
            .map(|c| ConflictKey::Utility { modifier: String::new(), category: *c })
            .collect(),
    }
}

fn copy(e: &Entry) -> Entry {
    Entry {
        text: e.text.clone(),
        keys: e
            .keys
            .iter()
            .map(|k| match k {
                ConflictKey::Utility { modifier, category } => {
                    ConflictKey::Utility { modifier: modifier.clone(), category: *category }
                }
                ConflictKey::Literal { text } => ConflictKey::Literal { text: text.clone() },
            })
            .collect(),
    }
}

fn resolved(entries: &[Entry]) -> Vec<String> {
    let owned: Vec<Entry> = entries.iter().map(copy).collect();
    resolve_entries(&owned)
}

const TL: Category = Category::Top;
const TR: Category = Category::Right;
const BL: Category = Category::Bottom;
const BR: Category = Category::Left;

#[test]
fn nothing_resolves_to_nothing() {
    assert_eq!(resolved(&[]), Vec::<String>::new());
}

#[test]
fn entries_without_common_keys_all_stay() {
    assert_eq!(resolved(&[entry("a", &[TL]), entry("b", &[TR]), entry("c", &[BL])]), vec![
        "a", "b", "c"
    ]);
}

#[test]
fn later_entry_takes_the_place_of_the_earlier() {
    assert_eq!(resolved(&[entry("a", &[TL]), entry("b", &[TR]), entry("c", &[TL])]), vec![
        "c", "b"
    ]);
}

#[test]
fn entry_that_supersedes_several_is_written_once_at_the_first_place() {
    assert_eq!(
        resolved(&[entry("x", &[BL]), entry("a", &[TL]), entry("b", &[TR]), entry("c", &[TR, TL])]),
        vec!["x", "c"]
    );
}

#[test]
fn entry_stays_while_it_has_the_last_word_on_one_key() {
    assert_eq!(resolved(&[entry("ab", &[TL, TR]), entry("a", &[TL])]), vec!["ab", "a"]);
    assert_eq!(resolved(&[entry("ab", &[TL, TR]), entry("a", &[TL]), entry("b", &[TR])]), vec![
        "a", "b"
    ]);
}

#[test]
fn entries_of_one_place_stay_in_the_order_of_writing() {
    assert_eq!(
        resolved(&[entry("all", &[TL, TR, BL, BR]), entry("d", &[BR]), entry("a", &[TL])]),
        vec!["all", "d", "a"]
    );
}

#[test]
fn place_is_that_of_the_first_key_still_owned() {
    assert_eq!(
        resolved(&[entry("a", &[TL]), entry("b", &[TR]), entry("ab", &[TL, TR]), entry("a2", &[TL])]),
        vec!["a2", "ab"]
    );
    assert_eq!(
        resolved(&[entry("a", &[TL]), entry("b", &[TR]), entry("ab", &[TL, TR]), entry("b2", &[TR])]),
        vec!["ab", "b2"]
    );
}

#[test]
fn entry_without_keys_never_stays() {
    assert_eq!(resolved(&[entry("a", &[]), entry("b", &[TL])]), vec!["b"]);
}

#[test]
fn same_entry_written_twice_stays_once_at_the_first_place() {
    let lit = |t: &str| Entry {
        text: t.to_string(),
        keys: vec![ConflictKey::Literal { text: t.to_string() }],
    };
    assert_eq!(resolved(&[lit("x"), lit("y"), lit("x")]), vec!["x", "y"]);
    assert_eq!(resolved(&[lit("x"), lit("x"), lit("x")]), vec!["x"]);
}

#[test]
fn keys_under_different_modifiers_are_different_keys() {
    let under = |m: &str, t: &str| Entry {
        text: t.to_string(),
        keys: vec![ConflictKey::Utility { modifier: m.to_string(), category: TL }],
    };
    assert_eq!(resolved(&[under("", "a"), under("hover", "b"), under("", "c")]), vec!["c", "b"]);
}

#[test]
fn resolving_a_list_written_twice_is_resolving_it_once() {
    let list = [entry("a", &[TL]), entry("ab", &[TL, TR]), entry("a2", &[TL]), entry("c", &[BL])];
    let twice: Vec<Entry> = list.iter().chain(list.iter()).map(copy).collect();
    assert_eq!(resolve_entries(&twice), resolved(&list));
    assert_eq!(resolved(&list), vec!["a2", "ab", "c"]);
}
