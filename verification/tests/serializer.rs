use tailwind_merge::serializer::serialize;
use tailwind_merge::tokenizer::split_words;

fn owned(names: &[&str]) -> Vec<String> {
    names.iter().map(|n| n.to_string()).collect()
}

#[test]
fn names_are_written_with_single_spaces() {
    assert_eq!(serialize(&owned(&["a", "b", "c"])), "a b c");
}

#[test]
fn one_name_is_written_alone() {
    assert_eq!(serialize(&owned(&["p-4"])), "p-4");
}

#[test]
fn no_name_is_written_as_nothing() {
    assert_eq!(serialize(&owned(&[])), "");
}

#[test]
fn written_names_are_read_back() {
    let names = owned(&["hover:p-4", "flex", "größe"]);
    assert_eq!(split_words(&serialize(&names)), names);
}
