//! The standard stem table.

use vstd::prelude::*;
use crate::classifier::{prefix_stem, whole_stem, Category, StemSpec, StemTable};

verus! {

/// `table` followed by the rows for padding and margin. A shorthand for
/// several sides sets the property of each of them.
pub open spec fn with_spacing(table: Seq<StemSpec>) -> Seq<StemSpec> {
    table
        .push(prefix_stem("p-"@, seq![Category::PaddingTop, Category::PaddingRight, Category::PaddingBottom, Category::PaddingLeft]))
        .push(prefix_stem("px-"@, seq![Category::PaddingLeft, Category::PaddingRight]))
        .push(prefix_stem("py-"@, seq![Category::PaddingTop, Category::PaddingBottom]))
        .push(prefix_stem("pt-"@, seq![Category::PaddingTop]))
        .push(prefix_stem("pr-"@, seq![Category::PaddingRight]))
        .push(prefix_stem("pb-"@, seq![Category::PaddingBottom]))
        .push(prefix_stem("pl-"@, seq![Category::PaddingLeft]))
        .push(prefix_stem("m-"@, seq![Category::MarginTop, Category::MarginRight, Category::MarginBottom, Category::MarginLeft]))
        .push(prefix_stem("mx-"@, seq![Category::MarginLeft, Category::MarginRight]))
        .push(prefix_stem("my-"@, seq![Category::MarginTop, Category::MarginBottom]))
        .push(prefix_stem("mt-"@, seq![Category::MarginTop]))
        .push(prefix_stem("mr-"@, seq![Category::MarginRight]))
        .push(prefix_stem("mb-"@, seq![Category::MarginBottom]))
        .push(prefix_stem("ml-"@, seq![Category::MarginLeft]))
}

/// `table` followed by the rows for size, offsets, gaps, stacking and opacity.
/// A longer stem stands before a shorter one that begins it.
pub open spec fn with_boxes(table: Seq<StemSpec>) -> Seq<StemSpec> {
    table
        .push(prefix_stem("size-"@, seq![Category::Width, Category::Height]))
        .push(prefix_stem("w-"@, seq![Category::Width]))
        .push(prefix_stem("h-"@, seq![Category::Height]))
        .push(prefix_stem("inset-x-"@, seq![Category::Left, Category::Right]))
        .push(prefix_stem("inset-y-"@, seq![Category::Top, Category::Bottom]))
        .push(prefix_stem("inset-"@, seq![Category::Top, Category::Right, Category::Bottom, Category::Left]))
        .push(prefix_stem("top-"@, seq![Category::Top]))
        .push(prefix_stem("right-"@, seq![Category::Right]))
        .push(prefix_stem("bottom-"@, seq![Category::Bottom]))
        .push(prefix_stem("left-"@, seq![Category::Left]))
        .push(prefix_stem("gap-x-"@, seq![Category::ColumnGap]))
        .push(prefix_stem("gap-y-"@, seq![Category::RowGap]))
        .push(prefix_stem("gap-"@, seq![Category::RowGap, Category::ColumnGap]))
        .push(prefix_stem("z-"@, seq![Category::ZIndex]))
        .push(prefix_stem("opacity-"@, seq![Category::Opacity]))
}

/// `table` followed by the rows for display and position, which are written as
/// single words.
pub open spec fn with_layout(table: Seq<StemSpec>) -> Seq<StemSpec> {
    table
        .push(whole_stem("block"@, seq![Category::Display]))
        .push(whole_stem("inline-block"@, seq![Category::Display]))
        .push(whole_stem("inline"@, seq![Category::Display]))
        .push(whole_stem("flex"@, seq![Category::Display]))
        .push(whole_stem("inline-flex"@, seq![Category::Display]))
        .push(whole_stem("grid"@, seq![Category::Display]))
        .push(whole_stem("inline-grid"@, seq![Category::Display]))
        .push(whole_stem("table"@, seq![Category::Display]))
        .push(whole_stem("contents"@, seq![Category::Display]))
        .push(whole_stem("flow-root"@, seq![Category::Display]))
        .push(whole_stem("hidden"@, seq![Category::Display]))
        .push(whole_stem("static"@, seq![Category::Position]))
        .push(whole_stem("fixed"@, seq![Category::Position]))
        .push(whole_stem("absolute"@, seq![Category::Position]))
        .push(whole_stem("relative"@, seq![Category::Position]))
        .push(whole_stem("sticky"@, seq![Category::Position]))
}

/// `table` followed by the rows for text and background. The words for
/// alignment, size and weight stand before the stem for text colour, which
/// begins them.
pub open spec fn with_typography(table: Seq<StemSpec>) -> Seq<StemSpec> {
    table
        .push(whole_stem("text-left"@, seq![Category::TextAlign]))
        .push(whole_stem("text-center"@, seq![Category::TextAlign]))
        .push(whole_stem("text-right"@, seq![Category::TextAlign]))
        .push(whole_stem("text-justify"@, seq![Category::TextAlign]))
        .push(whole_stem("text-start"@, seq![Category::TextAlign]))
        .push(whole_stem("text-end"@, seq![Category::TextAlign]))
        .push(whole_stem("text-xs"@, seq![Category::FontSize]))
        .push(whole_stem("text-sm"@, seq![Category::FontSize]))
        .push(whole_stem("text-base"@, seq![Category::FontSize]))
        .push(whole_stem("text-lg"@, seq![Category::FontSize]))
        .push(whole_stem("text-xl"@, seq![Category::FontSize]))
        .push(whole_stem("text-2xl"@, seq![Category::FontSize]))
        .push(whole_stem("text-3xl"@, seq![Category::FontSize]))
        .push(whole_stem("text-4xl"@, seq![Category::FontSize]))
        .push(whole_stem("text-5xl"@, seq![Category::FontSize]))
        .push(whole_stem("text-6xl"@, seq![Category::FontSize]))
        .push(whole_stem("text-7xl"@, seq![Category::FontSize]))
        .push(whole_stem("text-8xl"@, seq![Category::FontSize]))
        .push(whole_stem("text-9xl"@, seq![Category::FontSize]))
        .push(whole_stem("font-thin"@, seq![Category::FontWeight]))
        .push(whole_stem("font-extralight"@, seq![Category::FontWeight]))
        .push(whole_stem("font-light"@, seq![Category::FontWeight]))
        .push(whole_stem("font-normal"@, seq![Category::FontWeight]))
        .push(whole_stem("font-medium"@, seq![Category::FontWeight]))
        .push(whole_stem("font-semibold"@, seq![Category::FontWeight]))
        .push(whole_stem("font-bold"@, seq![Category::FontWeight]))
        .push(whole_stem("font-extrabold"@, seq![Category::FontWeight]))
        .push(whole_stem("font-black"@, seq![Category::FontWeight]))
        .push(prefix_stem("text-"@, seq![Category::TextColor]))
        .push(prefix_stem("bg-"@, seq![Category::BackgroundColor]))
}

/// The rows of the standard table.
pub open spec fn standard_stems() -> Seq<StemSpec> {
    with_typography(with_layout(with_boxes(with_spacing(Seq::empty()))))
}

/// Adds a prefix row that sets one property.
fn prefix_one(table: &mut StemTable, pattern: &str, a: Category)
    ensures
        final(table)@ == old(table)@.push(prefix_stem(pattern@, seq![a])),
{
    let set = [a];
    table.add_prefix(pattern, &set);
    assert(set@ =~= seq![a]);
}

/// Adds a prefix row that sets two properties.
fn prefix_two(table: &mut StemTable, pattern: &str, a: Category, b: Category)
    ensures
        final(table)@ == old(table)@.push(prefix_stem(pattern@, seq![a, b])),
{
    let set = [a, b];
    table.add_prefix(pattern, &set);
    assert(set@ =~= seq![a, b]);
}

/// Adds a prefix row that sets four properties.
fn prefix_four(
    table: &mut StemTable,
    pattern: &str,
    a: Category,
    b: Category,
    c: Category,
    d: Category,
)
    ensures
        final(table)@ == old(table)@.push(prefix_stem(pattern@, seq![a, b, c, d])),
{
    let set = [a, b, c, d];
    table.add_prefix(pattern, &set);
    assert(set@ =~= seq![a, b, c, d]);
}

/// Adds a whole-word row that sets one property.
fn whole_one(table: &mut StemTable, pattern: &str, a: Category)
    ensures
        final(table)@ == old(table)@.push(whole_stem(pattern@, seq![a])),
{
    let set = [a];
    table.add_whole(pattern, &set);
    assert(set@ =~= seq![a]);
}

/// Adds the rows of [`with_spacing`].
fn add_spacing(table: &mut StemTable)
    ensures
        final(table)@ == with_spacing(old(table)@),
{
    prefix_four(
        table,
        "p-",
        Category::PaddingTop,
        Category::PaddingRight,
        Category::PaddingBottom,
        Category::PaddingLeft,
    );
    prefix_two(table, "px-", Category::PaddingLeft, Category::PaddingRight);
    prefix_two(table, "py-", Category::PaddingTop, Category::PaddingBottom);
    prefix_one(table, "pt-", Category::PaddingTop);
    prefix_one(table, "pr-", Category::PaddingRight);
    prefix_one(table, "pb-", Category::PaddingBottom);
    prefix_one(table, "pl-", Category::PaddingLeft);
    prefix_four(
        table,
        "m-",
        Category::MarginTop,
        Category::MarginRight,
        Category::MarginBottom,
        Category::MarginLeft,
    );
    prefix_two(table, "mx-", Category::MarginLeft, Category::MarginRight);
    prefix_two(table, "my-", Category::MarginTop, Category::MarginBottom);
    prefix_one(table, "mt-", Category::MarginTop);
    prefix_one(table, "mr-", Category::MarginRight);
    prefix_one(table, "mb-", Category::MarginBottom);
    prefix_one(table, "ml-", Category::MarginLeft);
}

/// Adds the rows of [`with_boxes`].
fn add_boxes(table: &mut StemTable)
    ensures
        final(table)@ == with_boxes(old(table)@),
{
    prefix_two(table, "size-", Category::Width, Category::Height);
    prefix_one(table, "w-", Category::Width);
    prefix_one(table, "h-", Category::Height);
    prefix_two(table, "inset-x-", Category::Left, Category::Right);
    prefix_two(table, "inset-y-", Category::Top, Category::Bottom);
    prefix_four(table, "inset-", Category::Top, Category::Right, Category::Bottom, Category::Left);
    prefix_one(table, "top-", Category::Top);
    prefix_one(table, "right-", Category::Right);
    prefix_one(table, "bottom-", Category::Bottom);
    prefix_one(table, "left-", Category::Left);
    prefix_one(table, "gap-x-", Category::ColumnGap);
    prefix_one(table, "gap-y-", Category::RowGap);
    prefix_two(table, "gap-", Category::RowGap, Category::ColumnGap);
    prefix_one(table, "z-", Category::ZIndex);
    prefix_one(table, "opacity-", Category::Opacity);
}

/// Adds the rows of [`with_layout`].
fn add_layout(table: &mut StemTable)
    ensures
        final(table)@ == with_layout(old(table)@),
{
    whole_one(table, "block", Category::Display);
    whole_one(table, "inline-block", Category::Display);
    whole_one(table, "inline", Category::Display);
    whole_one(table, "flex", Category::Display);
    whole_one(table, "inline-flex", Category::Display);
    whole_one(table, "grid", Category::Display);
    whole_one(table, "inline-grid", Category::Display);
    whole_one(table, "table", Category::Display);
    whole_one(table, "contents", Category::Display);
    whole_one(table, "flow-root", Category::Display);
    whole_one(table, "hidden", Category::Display);
    whole_one(table, "static", Category::Position);
    whole_one(table, "fixed", Category::Position);
    whole_one(table, "absolute", Category::Position);
    whole_one(table, "relative", Category::Position);
    whole_one(table, "sticky", Category::Position);
}

/// Adds the rows of [`with_typography`].
fn add_typography(table: &mut StemTable)
    ensures
        final(table)@ == with_typography(old(table)@),
{
    whole_one(table, "text-left", Category::TextAlign);
    whole_one(table, "text-center", Category::TextAlign);
    whole_one(table, "text-right", Category::TextAlign);
    whole_one(table, "text-justify", Category::TextAlign);
    whole_one(table, "text-start", Category::TextAlign);
    whole_one(table, "text-end", Category::TextAlign);
    whole_one(table, "text-xs", Category::FontSize);
    whole_one(table, "text-sm", Category::FontSize);
    whole_one(table, "text-base", Category::FontSize);
    whole_one(table, "text-lg", Category::FontSize);
    whole_one(table, "text-xl", Category::FontSize);
    whole_one(table, "text-2xl", Category::FontSize);
    whole_one(table, "text-3xl", Category::FontSize);
    whole_one(table, "text-4xl", Category::FontSize);
    whole_one(table, "text-5xl", Category::FontSize);
    whole_one(table, "text-6xl", Category::FontSize);
    whole_one(table, "text-7xl", Category::FontSize);
    whole_one(table, "text-8xl", Category::FontSize);
    whole_one(table, "text-9xl", Category::FontSize);
    whole_one(table, "font-thin", Category::FontWeight);
    whole_one(table, "font-extralight", Category::FontWeight);
    whole_one(table, "font-light", Category::FontWeight);
    whole_one(table, "font-normal", Category::FontWeight);
    whole_one(table, "font-medium", Category::FontWeight);
    whole_one(table, "font-semibold", Category::FontWeight);
    whole_one(table, "font-bold", Category::FontWeight);
    whole_one(table, "font-extrabold", Category::FontWeight);
    whole_one(table, "font-black", Category::FontWeight);
    prefix_one(table, "text-", Category::TextColor);
    prefix_one(table, "bg-", Category::BackgroundColor);
}

impl StemTable {
    /// The standard table: spacing, boxes, layout and typography.
    pub fn standard() -> (r: StemTable)
        ensures
            r@ == standard_stems(),
    {
        let mut table = StemTable::new();
        add_spacing(&mut table);
        add_boxes(&mut table);
        add_layout(&mut table);
        add_typography(&mut table);
        table
    }
}

} // verus!
