use tailwind_merge::{configure, ConfigurationError, MergeOptions};

#[test]
fn empty_separator_is_refused() {
    assert_eq!(configure("", "").err(), Some(ConfigurationError::EmptySeparator));
    assert_eq!(configure("tw-", "").err(), Some(ConfigurationError::EmptySeparator));
}

#[test]
fn refusal_says_why() {
    assert_eq!(ConfigurationError::EmptySeparator.message(), "the separator must not be empty");
}

#[test]
fn configuration_is_kept_as_given() {
    let options = configure("tw-", "__").unwrap();
    assert_eq!(options.prefix(), "tw-");
    assert_eq!(options.separator(), "__");
}

#[test]
fn empty_prefix_is_accepted() {
    let options = configure("", ":").unwrap();
    assert_eq!(options.prefix(), "");
    assert_eq!(options.separator(), ":");
}

#[test]
fn separator_of_spaces_is_accepted() {
    let options = configure(" ", " ").unwrap();
    assert_eq!(options.prefix(), " ");
    assert_eq!(options.separator(), " ");
}

#[test]
fn default_is_no_prefix_and_a_colon() {
    let options = MergeOptions::default();
    assert_eq!(options.prefix(), "");
    assert_eq!(options.separator(), ":");
}

#[test]
fn clone_holds_the_same_configuration() {
    let options = configure("x", "y").unwrap();
    let copy = options.clone();
    assert_eq!(copy.prefix(), "x");
    assert_eq!(copy.separator(), "y");
}
