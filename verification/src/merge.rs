//! The merge of two class lists.

use vstd::prelude::*;
use crate::classifier::{StemSpec, StemTable};
use crate::conflict::{entries_of, key_tokens};
use crate::options::{MergeOptions, OptionsSpec};
use crate::resolver::{resolve, resolve_entries};
use crate::serializer::serialize;
use crate::stems::standard_stems;
use crate::text::{slice_views, spaced};
use crate::tokenizer::{tokenize, tokens};

verus! {

/// The class names of the lists `a` and `b` that stay when `b` follows `a`,
/// in their final order.
pub open spec fn merged_names(
    table: Seq<StemSpec>,
    options: OptionsSpec,
    a: Seq<char>,
    b: Seq<char>,
) -> Seq<Seq<char>> {
    resolve(entries_of(table, options, tokens(seq![a, b])))
}

/// The merge of the class lists `a` and `b`: the class names of both are
/// read in order, each is parsed and classified, conflicts are resolved, and
/// the names that stay are written out with single spaces between them.
pub open spec fn merged(table: Seq<StemSpec>, options: OptionsSpec, a: Seq<char>, b: Seq<char>) -> Seq<
    char,
> {
    spaced(merged_names(table, options, a, b))
}

/// Merges two class lists, classifying utilities by `table`.
pub fn merge_with(table: &StemTable, options: &MergeOptions, class_a: &str, class_b: &str) -> (r:
    String)
    ensures
        r@ == merged(table@, options@, class_a@, class_b@),
{
    let inputs = [class_a, class_b];
    let names = tokenize(&inputs);
    assert(slice_views(inputs@) =~= seq![class_a@, class_b@]);
    let entries = key_tokens(table, options, &names);
    let kept = resolve_entries(&entries);
    serialize(&kept)
}

/// Merges two class lists, classifying utilities by the standard table.
pub fn merge(options: &MergeOptions, class_a: &str, class_b: &str) -> (r: String)
    ensures
        r@ == merged(standard_stems(), options@, class_a@, class_b@),
{
    let table = StemTable::standard();
    merge_with(&table, options, class_a, class_b)
}

} // verus!
