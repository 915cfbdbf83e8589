use tailwind_merge::classifier::{Category, StemTable};
use tailwind_merge::conflict::{key_token, key_tokens, same_key, ConflictKey};
use tailwind_merge::{configure, MergeOptions};

fn utility(modifier: &str, category: Category) -> ConflictKey {
    ConflictKey::Utility { modifier: modifier.to_string(), category }
}

fn literal(text: &str) -> ConflictKey {
    ConflictKey::Literal { text: text.to_string() }
}

#[test]
fn known_utility_has_a_key_for_each_property() {
    let entry = key_token(&StemTable::standard(), &MergeOptions::default(), "px-4");
    assert_eq!(entry.text, "px-4");
    assert_eq!(entry.keys, vec![
        utility("", Category::PaddingLeft),
        utility("", Category::PaddingRight)
    ]);
}

#[test]
fn key_carries_the_modifier_context() {
    let entry = key_token(&StemTable::standard(), &MergeOptions::default(), "md:hover:pl-4");
    assert_eq!(entry.text, "md:hover:pl-4");
    assert_eq!(entry.keys, vec![utility("md:hover", Category::PaddingLeft)]);
}

#[test]
fn unknown_class_name_is_its_own_key() {
    let entry = key_token(&StemTable::standard(), &MergeOptions::default(), "hover:foo");
    assert_eq!(entry.text, "hover:foo");
    assert_eq!(entry.keys, vec![literal("hover:foo")]);
}

#[test]
fn key_does_not_hold_the_prefix() {
    let options = configure("tw-", "__").unwrap();
    let entry = key_token(&StemTable::standard(), &options, "tw-hover__flex");
    assert_eq!(entry.text, "tw-hover__flex");
    assert_eq!(entry.keys, vec![utility("hover", Category::Display)]);
}

#[test]
fn each_class_name_gets_its_entry() {
    let names = vec!["p-4".to_string(), "foo".to_string()];
    let entries = key_tokens(&StemTable::standard(), &MergeOptions::default(), &names);
    assert_eq!(entries.len(), 2);
    assert_eq!(entries[0].text, "p-4");
    assert_eq!(entries[0].keys.len(), 4);
    assert_eq!(entries[1].text, "foo");
    assert_eq!(entries[1].keys, vec![literal("foo")]);
    assert!(key_tokens(&StemTable::standard(), &MergeOptions::default(), &Vec::new()).is_empty());
}

#[test]
fn keys_are_the_same_when_all_parts_are() {
    assert!(same_key(&utility("hover", Category::Width), &utility("hover", Category::Width)));
    assert!(!same_key(&utility("hover", Category::Width), &utility("focus", Category::Width)));
    assert!(!same_key(&utility("hover", Category::Width), &utility("hover", Category::Height)));
    assert!(same_key(&literal("foo"), &literal("foo")));
    assert!(!same_key(&literal("foo"), &literal("bar")));
    assert!(!same_key(&literal(""), &utility("", Category::Width)));
    assert!(!same_key(&utility("", Category::Width), &literal("")));
}
