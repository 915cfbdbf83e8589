//! What holds of every merge.

use vstd::prelude::*;
use crate::classifier::{classify, StemSpec};
use crate::conflict::{entries_of, keys_of, KeySpec};
use crate::merge::{merged, merged_names};
use crate::options::OptionsSpec;
use crate::parser::parse;
use crate::resolver::{
    held_after, holds, order, owns, placed_at, resolve, shares_owned, survives,
};
use crate::resolver_proofs::{
    all_texts, apart, before, consistent, is_text_of, keyed, lemma_apart_is_settled, lemma_order,
    lemma_place, lemma_resolve_apart, lemma_resolve_distinct, lemma_resolve_from_entries,
    lemma_resolve_settled, lemma_resolve_twice, lemma_unchanged_is_settled, settled,
};
use crate::text::{is_space, spaced};
use crate::tokenizer::{is_word, tokens, words};
use crate::tokenizer_proofs::{
    lemma_spaced_ends, lemma_words_are_words, lemma_words_joined, lemma_words_of_nothing,
    lemma_words_of_spaced, lemma_words_of_word,
};

verus! {

/// Two class lists taken as one are the first, a space, and the second.
pub proof fn lemma_pair_spaced(a: Seq<char>, b: Seq<char>)
    ensures
        spaced(seq![a, b]) == a + seq![' '] + b,
        tokens(seq![a, b]) == words(a) + words(b),
{
    assert(seq![a, b].drop_last() =~= seq![a]);
    assert(spaced(seq![a]) == a);
    lemma_words_joined(a, b);
}

/// Every class name has a conflict key, and class names written alike have
/// the same keys.
pub proof fn lemma_entries_keyed(table: Seq<StemSpec>, options: OptionsSpec, names: Seq<Seq<char>>)
    ensures
        keyed(entries_of(table, options, names)),
        consistent(entries_of(table, options, names)),
        all_texts(entries_of(table, options, names)) == names,
{
    let entries = entries_of(table, options, names);
    assert forall|i: int| 0 <= i < entries.len() implies (#[trigger] entries[i]).keys.len() > 0 by {
        assert(entries[i].keys == keys_of(table, options, names[i]));
    }
    assert(all_texts(entries) =~= names);
}

/// The class names of a merge are words, no two of them are alike, and
/// the merged list is read back as exactly these names.
pub proof fn lemma_merged_names(
    table: Seq<StemSpec>,
    options: OptionsSpec,
    a: Seq<char>,
    b: Seq<char>,
)
    ensures
        forall|i: int|
            0 <= i < merged_names(table, options, a, b).len() ==> is_word(
                #[trigger] merged_names(table, options, a, b)[i],
            ),
        forall|i: int, k: int|
            0 <= i < k < merged_names(table, options, a, b).len() ==> merged_names(
                table,
                options,
                a,
                b,
            )[i] != merged_names(table, options, a, b)[k],
        words(merged(table, options, a, b)) == merged_names(table, options, a, b),
{
    let names = tokens(seq![a, b]);
    let entries = entries_of(table, options, names);
    let kept = merged_names(table, options, a, b);
    lemma_words_are_words(spaced(seq![a, b]));
    lemma_entries_keyed(table, options, names);
    lemma_resolve_from_entries(entries);
    lemma_resolve_distinct(entries);
    assert forall|i: int| 0 <= i < kept.len() implies is_word(#[trigger] kept[i]) by {
        assert(is_text_of(entries, kept[i]));
        let j = choose|j: int| 0 <= j < entries.len() && (#[trigger] entries[j]).text == kept[i];
        assert(entries[j].text == names[j]);
    }
    lemma_words_of_spaced(kept);
}

/// A merged list neither begins nor ends with a space.
pub proof fn lemma_merged_ends(
    table: Seq<StemSpec>,
    options: OptionsSpec,
    a: Seq<char>,
    b: Seq<char>,
)
    ensures
        merged(table, options, a, b).len() > 0 ==> !is_space(merged(table, options, a, b)[0])
            && !is_space(merged(table, options, a, b).last()),
{
    lemma_merged_names(table, options, a, b);
    let kept = merged_names(table, options, a, b);
    if kept.len() > 0 {
        lemma_spaced_ends(kept);
    }
}

/// Class names of which no two share a conflict key all stay, in the order
/// in which they were written.
pub proof fn lemma_unrelated_names_stay(
    table: Seq<StemSpec>,
    options: OptionsSpec,
    a: Seq<char>,
    b: Seq<char>,
)
    requires
        apart(entries_of(table, options, tokens(seq![a, b]))),
    ensures
        merged_names(table, options, a, b) == words(a) + words(b),
        merged(table, options, a, b) == spaced(words(a) + words(b)),
{
    let names = tokens(seq![a, b]);
    lemma_pair_spaced(a, b);
    lemma_entries_keyed(table, options, names);
    lemma_resolve_apart(entries_of(table, options, names));
}

/// A class name written after another whose conflict keys it all holds
/// is all that stays of the two. So a later utility wins over an earlier one
/// of the same properties, and a class name written twice stays once.
pub proof fn lemma_later_name_wins(
    table: Seq<StemSpec>,
    options: OptionsSpec,
    x: Seq<char>,
    y: Seq<char>,
)
    requires
        is_word(x),
        is_word(y),
        forall|key: KeySpec|
            keys_of(table, options, x).contains(key) ==> keys_of(table, options, y).contains(key),
    ensures
        merged(table, options, x, y) == y,
{
    let names = seq![x, y];
    lemma_pair_spaced(x, y);
    lemma_words_of_word(x);
    lemma_words_of_word(y);
    assert(words(x) + words(y) =~= names);
    let entries = entries_of(table, options, names);
    lemma_entries_keyed(table, options, names);
    lemma_order(entries);
    let o = order(entries);
    assert(entries[0].keys == keys_of(table, options, x));
    assert(entries[1].keys == keys_of(table, options, y));
    assert(!survives(entries, 0)) by {
        if survives(entries, 0) {
            let key = choose|key: KeySpec| owns(entries, 0, key);
            assert(holds(entries[1], key));
            assert(held_after(entries, 0, key));
        }
    }
    let last = entries[1].keys[0];
    assert(holds(entries[1], last));
    assert(owns(entries, 1, last));
    assert(survives(entries, 1));
    assert(o.contains(1));
    assert forall|i: int| 0 <= i < o.len() implies #[trigger] o[i] == 1 by {
        assert(survives(entries, o[i]));
    }
    if o.len() > 1 {
        assert(o[0] != o[1]);
    }
    assert(o =~= seq![1int]);
    assert(resolve(entries) =~= seq![y]);
}

/// Merging a class list with itself gives what merging it with the empty
/// list gives.
pub proof fn lemma_merge_with_itself(table: Seq<StemSpec>, options: OptionsSpec, list: Seq<char>)
    ensures
        merged(table, options, list, list) == merged(table, options, list, Seq::empty()),
{
    let names = words(list);
    lemma_pair_spaced(list, list);
    lemma_pair_spaced(list, Seq::empty());
    lemma_words_of_nothing();
    assert(names + Seq::<Seq<char>>::empty() =~= names);
    let once = entries_of(table, options, names);
    assert(entries_of(table, options, names + names) =~= once + once);
    lemma_resolve_twice(once);
}

/// Merging the result of a merge with itself gives the same result again,
/// where the class names of the result are settled: each still has the last
/// word on one of its keys among them, and their places ascend.
pub proof fn lemma_merge_idempotent(
    table: Seq<StemSpec>,
    options: OptionsSpec,
    a: Seq<char>,
    b: Seq<char>,
)
    requires
        settled(entries_of(table, options, merged_names(table, options, a, b))),
    ensures
        merged(table, options, merged(table, options, a, b), merged(table, options, a, b))
            == merged(table, options, a, b),
{
    let kept = merged_names(table, options, a, b);
    let list = merged(table, options, a, b);
    lemma_merged_names(table, options, a, b);
    lemma_merge_with_itself(table, options, list);
    lemma_pair_spaced(list, Seq::empty());
    lemma_words_of_nothing();
    assert(kept + Seq::<Seq<char>>::empty() =~= kept);
    lemma_entries_keyed(table, options, kept);
    lemma_resolve_settled(entries_of(table, options, kept));
}

/// Only where the class names of the result are settled does merging the
/// result with itself give the same result again.
pub proof fn lemma_merge_idempotent_only_settled(
    table: Seq<StemSpec>,
    options: OptionsSpec,
    a: Seq<char>,
    b: Seq<char>,
)
    requires
        merged(table, options, merged(table, options, a, b), merged(table, options, a, b))
            == merged(table, options, a, b),
    ensures
        settled(entries_of(table, options, merged_names(table, options, a, b))),
{
    let kept = merged_names(table, options, a, b);
    let list = merged(table, options, a, b);
    let entries = entries_of(table, options, kept);
    lemma_merged_names(table, options, a, b);
    lemma_merged_names(table, options, list, list);
    assert(merged_names(table, options, list, list) == kept);
    lemma_pair_spaced(list, list);
    assert(entries_of(table, options, kept + kept) =~= entries + entries);
    lemma_resolve_twice(entries);
    lemma_entries_keyed(table, options, kept);
    assert(resolve(entries) == all_texts(entries));
    lemma_unchanged_is_settled(entries);
}

/// Class names of which no two share a conflict key are settled.
pub proof fn lemma_unrelated_names_settled(
    table: Seq<StemSpec>,
    options: OptionsSpec,
    names: Seq<Seq<char>>,
)
    requires
        apart(entries_of(table, options, names)),
    ensures
        settled(entries_of(table, options, names)),
{
    lemma_entries_keyed(table, options, names);
    lemma_apart_is_settled(entries_of(table, options, names));
}

/// Whether the table knows no property of the class name `name`.
pub open spec fn is_unknown(table: Seq<StemSpec>, options: OptionsSpec, name: Seq<char>) -> bool {
    classify(table, parse(table, options, name).base).len() == 0
}

/// The index at which the class name at index `i` is written first.
proof fn first_written(names: Seq<Seq<char>>, i: int) -> (f: int)
    requires
        0 <= i < names.len(),
    ensures
        0 <= f <= i,
        names[f] == names[i],
        forall|k: int| 0 <= k < f ==> #[trigger] names[k] != names[i],
    decreases i,
{
    if exists|k: int| 0 <= k < i && #[trigger] names[k] == names[i] {
        let k = choose|k: int| 0 <= k < i && #[trigger] names[k] == names[i];
        first_written(names, k)
    } else {
        i
    }
}

/// The index at which the class name at index `i` is written last.
proof fn last_written(names: Seq<Seq<char>>, i: int) -> (l: int)
    requires
        0 <= i < names.len(),
    ensures
        i <= l < names.len(),
        names[l] == names[i],
        forall|k: int| l < k < names.len() ==> #[trigger] names[k] != names[i],
    decreases names.len() - i,
{
    if exists|k: int| i < k < names.len() && #[trigger] names[k] == names[i] {
        let k = choose|k: int| i < k < names.len() && #[trigger] names[k] == names[i];
        last_written(names, k)
    } else {
        i
    }
}

/// Only a class name itself has the key of an unknown class name.
proof fn lemma_literal_key(
    table: Seq<StemSpec>,
    options: OptionsSpec,
    name: Seq<char>,
    text: Seq<char>,
)
    requires
        keys_of(table, options, name).contains(KeySpec::Literal { text }),
    ensures
        name == text,
        keys_of(table, options, name) == seq![KeySpec::Literal { text }],
{
    let keys = keys_of(table, options, name);
    let i = choose|i: int| 0 <= i < keys.len() && keys[i] == (KeySpec::Literal { text });
    assert(keys[i] == (KeySpec::Literal { text }));
}

/// An unknown class name stays where it is written last, and takes the
/// place at which it is written first.
proof fn lemma_unknown_placed(
    table: Seq<StemSpec>,
    options: OptionsSpec,
    names: Seq<Seq<char>>,
    f: int,
    l: int,
)
    requires
        0 <= f <= l < names.len(),
        names[f] == names[l],
        is_unknown(table, options, names[l]),
        forall|k: int| 0 <= k < f ==> #[trigger] names[k] != names[l],
        forall|k: int| l < k < names.len() ==> #[trigger] names[k] != names[l],
    ensures
        placed_at(entries_of(table, options, names), l, f),
{
    let entries = entries_of(table, options, names);
    let text = names[l];
    let key = KeySpec::Literal { text };
    assert(entries[l].keys == seq![key]);
    assert(entries[f].keys == seq![key]);
    assert(entries[l].keys[0] == key);
    assert(entries[f].keys[0] == key);
    assert(holds(entries[l], key));
    assert(holds(entries[f], key));
    assert(!held_after(entries, l, key)) by {
        if held_after(entries, l, key) {
            let i = choose|i: int| l < i < entries.len() && holds(#[trigger] entries[i], key);
            assert(entries[i].keys == keys_of(table, options, names[i]));
            lemma_literal_key(table, options, names[i], text);
        }
    }
    assert(owns(entries, l, key));
    assert(shares_owned(entries, f, l));
    assert forall|q: int| 0 <= q < f implies !#[trigger] shares_owned(entries, q, l) by {
        if shares_owned(entries, q, l) {
            let other = choose|other: KeySpec|
                #[trigger] owns(entries, l, other) && holds(entries[q], other);
            let i = choose|i: int| 0 <= i < entries[l].keys.len() && entries[l].keys[i] == other;
            assert(other == key);
            assert(entries[q].keys == keys_of(table, options, names[q]));
            lemma_literal_key(table, options, names[q], text);
        }
    }
}

/// A class name of which the table knows no property always stays.
pub proof fn lemma_unknown_names_stay(
    table: Seq<StemSpec>,
    options: OptionsSpec,
    a: Seq<char>,
    b: Seq<char>,
    t: Seq<char>,
)
    requires
        (words(a) + words(b)).contains(t),
        classify(table, parse(table, options, t).base).len() == 0,
    ensures
        merged_names(table, options, a, b).contains(t),
{
    let names = words(a) + words(b);
    lemma_pair_spaced(a, b);
    let entries = entries_of(table, options, names);
    let i = choose|i: int| 0 <= i < names.len() && names[i] == t;
    let f = first_written(names, i);
    let l = last_written(names, i);
    lemma_unknown_placed(table, options, names, f, l);
    lemma_place(entries, l, f);
    lemma_order(entries);
    let key = choose|key: KeySpec| #[trigger] owns(entries, l, key) && holds(entries[f], key);
    assert(owns(entries, l, key));
    assert(survives(entries, l));
    let o = order(entries);
    assert(o.contains(l));
    let x = choose|x: int| 0 <= x < o.len() && o[x] == l;
    assert(merged_names(table, options, a, b)[x] == t);
}

/// Of two class names of which the table knows no property, the one that
/// is written first stands first in the result: a name written at index `i`
/// stands before the name that is first written at the later index `j`.
pub proof fn lemma_unknown_names_keep_order(
    table: Seq<StemSpec>,
    options: OptionsSpec,
    a: Seq<char>,
    b: Seq<char>,
    i: int,
    j: int,
)
    requires
        0 <= i < j < (words(a) + words(b)).len(),
        is_unknown(table, options, (words(a) + words(b))[i]),
        is_unknown(table, options, (words(a) + words(b))[j]),
        forall|k: int| 0 <= k < j ==> #[trigger] (words(a) + words(b))[k] != (words(a) + words(b))[j],
    ensures
        ({
            let names = words(a) + words(b);
            let kept = merged_names(table, options, a, b);
            exists|x: int, y: int|
                0 <= x < y < kept.len() && #[trigger] kept[x] == names[i] && #[trigger] kept[y]
                    == names[j]
        }),
{
    let names = words(a) + words(b);
    let kept = merged_names(table, options, a, b);
    lemma_pair_spaced(a, b);
    let entries = entries_of(table, options, names);
    assert(names[i] != names[j]);
    let fi = first_written(names, i);
    let li = last_written(names, i);
    let lj = last_written(names, j);
    lemma_unknown_placed(table, options, names, fi, li);
    lemma_unknown_placed(table, options, names, j, lj);
    lemma_place(entries, li, fi);
    lemma_place(entries, lj, j);
    lemma_order(entries);
    let ki = choose|key: KeySpec| #[trigger] owns(entries, li, key) && holds(entries[fi], key);
    assert(owns(entries, li, ki));
    assert(survives(entries, li));
    let kj = choose|key: KeySpec| #[trigger] owns(entries, lj, key) && holds(entries[j], key);
    assert(owns(entries, lj, kj));
    assert(survives(entries, lj));
    let o = order(entries);
    assert(o.contains(li));
    assert(o.contains(lj));
    let x = choose|x: int| 0 <= x < o.len() && o[x] == li;
    let y = choose|y: int| 0 <= y < o.len() && o[y] == lj;
    if y < x {
        assert(before(entries, o[y], o[x]));
    }
    assert(x < y);
    assert(kept[x] == names[i] && kept[y] == names[j]);
}

} // verus!
