use tailwind_merge::classifier::{Category, StemTable};

#[test]
fn shorthand_sets_each_of_its_sides() {
    let table = StemTable::standard();
    assert_eq!(table.classify("px-4"), vec![Category::PaddingLeft, Category::PaddingRight]);
    assert_eq!(table.classify("py-4"), vec![Category::PaddingTop, Category::PaddingBottom]);
    assert_eq!(table.classify("p-4"), vec![
        Category::PaddingTop,
        Category::PaddingRight,
        Category::PaddingBottom,
        Category::PaddingLeft
    ]);
    assert_eq!(table.classify("mx-auto"), vec![Category::MarginLeft, Category::MarginRight]);
    assert_eq!(table.classify("size-8"), vec![Category::Width, Category::Height]);
}

#[test]
fn longhand_sets_one_property() {
    let table = StemTable::standard();
    assert_eq!(table.classify("pl-2"), vec![Category::PaddingLeft]);
    assert_eq!(table.classify("mt-0.5"), vec![Category::MarginTop]);
    assert_eq!(table.classify("w-full"), vec![Category::Width]);
    assert_eq!(table.classify("bg-red-500"), vec![Category::BackgroundColor]);
    assert_eq!(table.classify("z-10"), vec![Category::ZIndex]);
    assert_eq!(table.classify("opacity-50"), vec![Category::Opacity]);
}

#[test]
fn whole_words_are_known_only_as_written() {
    let table = StemTable::standard();
    assert_eq!(table.classify("flex"), vec![Category::Display]);
    assert_eq!(table.classify("hidden"), vec![Category::Display]);
    assert_eq!(table.classify("inline-block"), vec![Category::Display]);
    assert_eq!(table.classify("absolute"), vec![Category::Position]);
    assert_eq!(table.classify("flex-1"), Vec::<Category>::new());
    assert_eq!(table.classify("flexible"), Vec::<Category>::new());
    assert_eq!(table.classify("fle"), Vec::<Category>::new());
}

#[test]
fn stem_without_a_value_is_unknown() {
    let table = StemTable::standard();
    assert_eq!(table.classify("p-"), Vec::<Category>::new());
    assert_eq!(table.classify("p"), Vec::<Category>::new());
    assert_eq!(table.classify(""), Vec::<Category>::new());
}

#[test]
fn unknown_utilities_set_nothing() {
    let table = StemTable::standard();
    assert_eq!(table.classify("foo-bar"), Vec::<Category>::new());
    assert_eq!(table.classify("P-4"), Vec::<Category>::new());
    assert_eq!(table.classify("xp-4"), Vec::<Category>::new());
    assert_eq!(table.classify("hover:p-4"), Vec::<Category>::new());
}

#[test]
fn first_row_that_applies_classifies() {
    let table = StemTable::standard();
    assert_eq!(table.classify("text-lg"), vec![Category::FontSize]);
    assert_eq!(table.classify("text-center"), vec![Category::TextAlign]);
    assert_eq!(table.classify("text-red-500"), vec![Category::TextColor]);
    assert_eq!(table.classify("text-large"), vec![Category::TextColor]);
    assert_eq!(table.classify("inset-x-0"), vec![Category::Left, Category::Right]);
    assert_eq!(table.classify("inset-0"), vec![
        Category::Top,
        Category::Right,
        Category::Bottom,
        Category::Left
    ]);
    assert_eq!(table.classify("gap-x-2"), vec![Category::ColumnGap]);
    assert_eq!(table.classify("gap-2"), vec![Category::RowGap, Category::ColumnGap]);
}

#[test]
fn rows_are_tried_in_the_order_in_which_they_were_added() {
    let mut table = StemTable::new();
    table.add_prefix("a-", &[Category::Width]);
    table.add_prefix("a-b-", &[Category::Height]);
    table.add_whole("a-b-c", &[Category::Display]);
    assert_eq!(table.classify("a-b-c"), vec![Category::Width]);

    let mut table = StemTable::new();
    table.add_whole("a-b-c", &[Category::Display]);
    table.add_prefix("a-b-", &[Category::Height]);
    table.add_prefix("a-", &[Category::Width]);
    assert_eq!(table.classify("a-b-c"), vec![Category::Display]);
    assert_eq!(table.classify("a-b-d"), vec![Category::Height]);
    assert_eq!(table.classify("a-x"), vec![Category::Width]);
}

#[test]
fn empty_table_knows_nothing() {
    let table = StemTable::new();
    assert_eq!(table.classify("p-4"), Vec::<Category>::new());
}

#[test]
fn row_without_properties_makes_a_utility_unknown() {
    let mut table = StemTable::new();
    table.add_prefix("p-", &[]);
    table.add_prefix("p-", &[Category::PaddingLeft]);
    assert_eq!(table.classify("p-4"), Vec::<Category>::new());
}

#[test]
fn utility_is_found_inside_a_longer_text() {
    let table = StemTable::standard();
    let text: Vec<char> = "hover:px-4".chars().collect();
    assert_eq!(table.find_from(&text, 6), Some(1));
    assert_eq!(table.find_from(&text, 0), None);
    assert_eq!(table.find_from(&text, 10), None);
    assert!(table.recognizes_from(&text, 6));
    assert!(!table.recognizes_from(&text, 7));
}
