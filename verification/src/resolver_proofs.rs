//! What holds of the order in which class names stay.

use vstd::prelude::*;
use crate::conflict::{EntrySpec, KeySpec};
use crate::resolver::{
    held_after, holds, lemma_one_place, order, owns, placed_at, resolve, row, rows, shares_owned,
    survives, texts_at,
};

verus! {

/// The place that the entry at index `j` takes, where it stays.
pub open spec fn place(entries: Seq<EntrySpec>, j: int) -> int {
    choose|p: int| placed_at(entries, j, p)
}

/// Whether the entry at index `a` comes before the entry at index `b` in
/// the final order: by place, and within one place by index.
pub open spec fn before(entries: Seq<EntrySpec>, a: int, b: int) -> bool {
    place(entries, a) < place(entries, b) || (place(entries, a) == place(entries, b) && a < b)
}

/// The class names of all entries, in order.
pub open spec fn all_texts(entries: Seq<EntrySpec>) -> Seq<Seq<char>> {
    Seq::new(entries.len(), |i: int| entries[i].text)
}

/// Every entry has a conflict key.
pub open spec fn keyed(entries: Seq<EntrySpec>) -> bool {
    forall|i: int| 0 <= i < entries.len() ==> (#[trigger] entries[i]).keys.len() > 0
}

/// No conflict key is held by two entries.
pub open spec fn apart(entries: Seq<EntrySpec>) -> bool {
    forall|i: int, j: int, key: KeySpec|
        0 <= i < j < entries.len() ==> !(#[trigger] holds(entries[i], key) && #[trigger] holds(
            entries[j],
            key,
        ))
}

/// Entries with the same class name have the same conflict keys.
pub open spec fn consistent(entries: Seq<EntrySpec>) -> bool {
    forall|i: int, j: int|
        0 <= i < entries.len() && 0 <= j < entries.len() && (#[trigger] entries[i]).text == (
        #[trigger] entries[j]).text ==> entries[i].keys == entries[j].keys
}

/// The place that an entry takes is its `place`.
pub proof fn lemma_place(entries: Seq<EntrySpec>, j: int, p: int)
    requires
        placed_at(entries, j, p),
    ensures
        place(entries, j) == p,
{
    lemma_one_place(entries, j, place(entries, j), p);
}

/// An entry that shares a key it owns with the entry at `q` takes a place:
/// the first such position.
proof fn lemma_least_share(entries: Seq<EntrySpec>, j: int, q: int)
    requires
        0 <= q <= j,
        shares_owned(entries, q, j),
    ensures
        placed_at(entries, j, place(entries, j)),
    decreases q,
{
    if exists|x: int| 0 <= x < q && shares_owned(entries, x, j) {
        let x = choose|x: int| 0 <= x < q && shares_owned(entries, x, j);
        lemma_least_share(entries, j, x);
    } else {
        assert(placed_at(entries, j, q));
        lemma_place(entries, j, q);
    }
}

/// An entry stays exactly if it takes a place, and its place is not behind
/// its index.
pub proof fn lemma_survivor_place(entries: Seq<EntrySpec>, j: int)
    requires
        0 <= j < entries.len(),
    ensures
        survives(entries, j) <==> placed_at(entries, j, place(entries, j)),
        survives(entries, j) ==> 0 <= place(entries, j) <= j,
{
    if survives(entries, j) {
        let key = choose|key: KeySpec| owns(entries, j, key);
        assert(owns(entries, j, key) && holds(entries[j], key));
        assert(shares_owned(entries, j, j));
        lemma_least_share(entries, j, j);
    }
    if placed_at(entries, j, place(entries, j)) {
        let key = choose|key: KeySpec|
            #[trigger] owns(entries, j, key) && holds(entries[place(entries, j)], key);
        assert(owns(entries, j, key));
    }
}

/// A row holds, in ascending order, exactly the indices below `upto` of the
/// entries that take its place.
pub proof fn lemma_row(entries: Seq<EntrySpec>, p: int, upto: int)
    ensures
        forall|i: int|
            0 <= i < row(entries, p, upto).len() ==> 0 <= (#[trigger] row(entries, p, upto)[i])
                < upto && placed_at(entries, row(entries, p, upto)[i], p),
        forall|i: int, k: int|
            0 <= i < k < row(entries, p, upto).len() ==> row(entries, p, upto)[i] < row(
                entries,
                p,
                upto,
            )[k],
        forall|j: int|
            0 <= j < upto && placed_at(entries, j, p) ==> row(entries, p, upto).contains(j),
    decreases upto,
{
    if upto > 0 {
        lemma_row(entries, p, upto - 1);
        let prev = row(entries, p, upto - 1);
        let this = row(entries, p, upto);
        assert forall|j: int| 0 <= j < upto && placed_at(entries, j, p) implies this.contains(
            j,
        ) by {
            if j < upto - 1 {
                assert(prev.contains(j));
                let i = choose|i: int| 0 <= i < prev.len() && prev[i] == j;
                assert(this[i] == j);
            } else {
                assert(this[this.len() - 1] == j);
            }
        }
    }
}

/// The rows below `upto` hold, by place and then by index, exactly the
/// indices of the entries that take a place below `upto`.
pub proof fn lemma_rows(entries: Seq<EntrySpec>, upto: int)
    requires
        upto <= entries.len(),
    ensures
        forall|i: int|
            0 <= i < rows(entries, upto).len() ==> {
                let j = #[trigger] rows(entries, upto)[i];
                0 <= j < entries.len() && placed_at(entries, j, place(entries, j)) && 0 <= place(
                    entries,
                    j,
                ) < upto
            },
        forall|i: int, k: int|
            0 <= i < k < rows(entries, upto).len() ==> before(
                entries,
                rows(entries, upto)[i],
                rows(entries, upto)[k],
            ),
        forall|j: int|
            0 <= j < entries.len() && placed_at(entries, j, place(entries, j)) && 0 <= place(
                entries,
                j,
            ) < upto ==> rows(entries, upto).contains(j),
    decreases upto,
{
    if upto > 0 {
        let n = entries.len() as int;
        lemma_rows(entries, upto - 1);
        lemma_row(entries, upto - 1, n);
        let front = rows(entries, upto - 1);
        let last = row(entries, upto - 1, n);
        let this = rows(entries, upto);
        assert(this == front + last);
        assert forall|i: int| 0 <= i < this.len() implies {
            let j = #[trigger] this[i];
            0 <= j < n && placed_at(entries, j, place(entries, j)) && 0 <= place(entries, j) < upto
        } by {
            if i < front.len() {
                assert(this[i] == front[i]);
            } else {
                assert(this[i] == last[i - front.len()]);
                lemma_place(entries, this[i], upto - 1);
            }
        }
        assert forall|i: int, k: int| 0 <= i < k < this.len() implies before(
            entries,
            this[i],
            this[k],
        ) by {
            if k < front.len() {
                assert(this[i] == front[i] && this[k] == front[k]);
            } else if i < front.len() {
                assert(this[i] == front[i]);
                assert(this[k] == last[k - front.len()]);
                lemma_place(entries, this[k], upto - 1);
            } else {
                assert(this[i] == last[i - front.len()]);
                assert(this[k] == last[k - front.len()]);
                lemma_place(entries, this[i], upto - 1);
                lemma_place(entries, this[k], upto - 1);
            }
        }
        assert forall|j: int|
            0 <= j < n && placed_at(entries, j, place(entries, j)) && 0 <= place(entries, j)
                < upto implies this.contains(j) by {
            if place(entries, j) < upto - 1 {
                assert(front.contains(j));
                let i = choose|i: int| 0 <= i < front.len() && front[i] == j;
                assert(this[i] == j);
            } else {
                assert(last.contains(j));
                let i = choose|i: int| 0 <= i < last.len() && last[i] == j;
                assert(this[front.len() + i] == j);
            }
        }
    }
}

/// The final order holds exactly the entries that stay, each once, by place
/// and within one place by index.
pub proof fn lemma_order(entries: Seq<EntrySpec>)
    ensures
        forall|i: int|
            0 <= i < order(entries).len() ==> 0 <= (#[trigger] order(entries)[i]) < entries.len()
                && survives(entries, order(entries)[i]),
        forall|i: int, k: int|
            0 <= i < k < order(entries).len() ==> before(
                entries,
                order(entries)[i],
                order(entries)[k],
            ),
        forall|i: int, k: int|
            0 <= i < k < order(entries).len() ==> order(entries)[i] != order(entries)[k],
        forall|j: int|
            0 <= j < entries.len() && survives(entries, j) ==> order(entries).contains(j),
{
    let n = entries.len() as int;
    let o = order(entries);
    lemma_rows(entries, n);
    assert forall|i: int| 0 <= i < o.len() implies 0 <= (#[trigger] o[i]) < n && survives(
        entries,
        o[i],
    ) by {
        lemma_survivor_place(entries, o[i]);
    }
    assert forall|i: int, k: int| 0 <= i < k < o.len() implies o[i] != o[k] by {
        assert(before(entries, o[i], o[k]));
    }
    assert forall|j: int| 0 <= j < n && survives(entries, j) implies o.contains(j) by {
        lemma_survivor_place(entries, j);
    }
}

/// Whether `name` is the class name of one of the entries.
pub open spec fn is_text_of(entries: Seq<EntrySpec>, name: Seq<char>) -> bool {
    exists|j: int| 0 <= j < entries.len() && (#[trigger] entries[j]).text == name
}

/// Every class name that stays is the class name of an entry.
pub proof fn lemma_resolve_from_entries(entries: Seq<EntrySpec>)
    ensures
        forall|i: int|
            0 <= i < resolve(entries).len() ==> is_text_of(entries, #[trigger] resolve(entries)[i]),
{
    lemma_order(entries);
    let o = order(entries);
    assert forall|i: int| 0 <= i < resolve(entries).len() implies is_text_of(
        entries,
        #[trigger] resolve(entries)[i],
    ) by {
        let j = o[i];
        assert(0 <= j < entries.len() && entries[j].text == resolve(entries)[i]);
    }
}

/// Where entries with the same class name have the same keys, no class
/// name stays twice.
pub proof fn lemma_resolve_distinct(entries: Seq<EntrySpec>)
    requires
        consistent(entries),
    ensures
        forall|i: int, k: int|
            0 <= i < k < resolve(entries).len() ==> resolve(entries)[i] != resolve(entries)[k],
{
    lemma_order(entries);
    let o = order(entries);
    assert forall|i: int, k: int| 0 <= i < k < resolve(entries).len() implies resolve(entries)[i]
        != resolve(entries)[k] by {
        let a = o[i];
        let b = o[k];
        assert(a != b);
        if entries[a].text == entries[b].text {
            assert(entries[a].keys == entries[b].keys);
            let (lo, hi) = if a < b {
                (a, b)
            } else {
                (b, a)
            };
            assert(survives(entries, lo));
            let key = choose|key: KeySpec| owns(entries, lo, key);
            assert(holds(entries[hi], key));
            assert(held_after(entries, lo, key));
        }
    }
}

/// Every entry stays, and the places ascend with the indices: resolving
/// has nothing left to do.
pub open spec fn settled(entries: Seq<EntrySpec>) -> bool {
    &&& forall|j: int| 0 <= j < entries.len() ==> survives(entries, j)
    &&& forall|i: int, j: int|
        0 <= i < j < entries.len() ==> place(entries, i) <= place(entries, j)
}

/// An ascending sequence of indices below `n` that holds each of them
/// counts from zero.
proof fn lemma_counting(indices: Seq<int>, n: int, upto: int)
    requires
        forall|i: int, k: int| 0 <= i < k < indices.len() ==> indices[i] < indices[k],
        forall|i: int| 0 <= i < indices.len() ==> 0 <= #[trigger] indices[i] < n,
        forall|j: int| 0 <= j < n ==> indices.contains(j),
        0 <= upto <= indices.len(),
    ensures
        forall|k: int| 0 <= k < upto ==> #[trigger] indices[k] == k,
    decreases upto,
{
    if upto > 0 {
        lemma_counting(indices, n, upto - 1);
        let i = upto - 1;
        if i > 0 {
            assert(indices[i - 1] < indices[i]);
        }
        if indices[i] > i {
            assert(indices.contains(i));
            let k = choose|k: int| 0 <= k < indices.len() && indices[k] == i;
            if k > i {
                assert(indices[i] < indices[k]);
            }
        }
    }
}

/// Where the entries are settled, every class name stays, in the order of
/// the entries.
pub proof fn lemma_resolve_settled(entries: Seq<EntrySpec>)
    requires
        settled(entries),
    ensures
        resolve(entries) == all_texts(entries),
{
    let n = entries.len() as int;
    let o = order(entries);
    lemma_order(entries);
    assert forall|i: int, k: int| 0 <= i < k < o.len() implies o[i] < o[k] by {
        assert(before(entries, o[i], o[k]));
    }
    assert forall|j: int| 0 <= j < n implies o.contains(j) by {
        assert(survives(entries, j));
    }
    lemma_counting(o, n, o.len() as int);
    if n > 0 {
        assert(o.contains(n - 1));
        let k = choose|k: int| 0 <= k < o.len() && o[k] == n - 1;
        assert(o[k] == k);
    }
    if o.len() > 0 {
        assert(o[o.len() - 1] == o.len() - 1);
    }
    assert(o.len() == n);
    assert(resolve(entries) =~= all_texts(entries));
}

/// Where no two entries have the same class name and resolving leaves
/// every class name where it is, the entries are settled.
pub proof fn lemma_unchanged_is_settled(entries: Seq<EntrySpec>)
    requires
        forall|i: int, k: int|
            0 <= i < k < entries.len() ==> (#[trigger] entries[i]).text != (
            #[trigger] entries[k]).text,
        resolve(entries) == all_texts(entries),
    ensures
        settled(entries),
{
    let n = entries.len() as int;
    let o = order(entries);
    lemma_order(entries);
    assert(resolve(entries).len() == o.len());
    assert(all_texts(entries).len() == n);
    assert forall|i: int| 0 <= i < n implies #[trigger] o[i] == i by {
        assert(resolve(entries)[i] == entries[o[i]].text);
        assert(all_texts(entries)[i] == entries[i].text);
    }
    assert forall|j: int| 0 <= j < n implies survives(entries, j) by {
        assert(o[j] == j);
    }
    assert forall|i: int, j: int| 0 <= i < j < n implies place(entries, i) <= place(
        entries,
        j,
    ) by {
        assert(o[i] == i && o[j] == j);
        assert(before(entries, o[i], o[j]));
    }
}

/// Where every entry has a key and no key is held by two entries, the
/// entries are settled.
pub proof fn lemma_apart_is_settled(entries: Seq<EntrySpec>)
    requires
        keyed(entries),
        apart(entries),
    ensures
        settled(entries),
{
    assert forall|j: int| 0 <= j < entries.len() implies survives(entries, j) && place(
        entries,
        j,
    ) == j by {
        lemma_placed_apart(entries, j);
        lemma_place(entries, j, j);
        lemma_survivor_place(entries, j);
    }
}

/// Where every entry has a key and no key is held by two entries, every
/// class name stays, in the order of the entries.
pub proof fn lemma_resolve_apart(entries: Seq<EntrySpec>)
    requires
        keyed(entries),
        apart(entries),
    ensures
        resolve(entries) == all_texts(entries),
{
    lemma_apart_is_settled(entries);
    lemma_resolve_settled(entries);
}

/// Where every entry has a key and no key is held by two entries, every
/// entry takes the place of its own index.
proof fn lemma_placed_apart(entries: Seq<EntrySpec>, j: int)
    requires
        keyed(entries),
        apart(entries),
        0 <= j < entries.len(),
    ensures
        placed_at(entries, j, j),
{
    let key = entries[j].keys[0];
    assert(holds(entries[j], key));
    assert(!held_after(entries, j, key)) by {
        if held_after(entries, j, key) {
            let i = choose|i: int| j < i < entries.len() && holds(#[trigger] entries[i], key);
            assert(holds(entries[j], key) && holds(entries[i], key));
        }
    }
    assert(owns(entries, j, key));
    assert(shares_owned(entries, j, j));
    assert forall|q: int| 0 <= q < j implies !shares_owned(entries, q, j) by {
        if shares_owned(entries, q, j) {
            let k = choose|k: KeySpec| #[trigger] owns(entries, j, k) && holds(entries[q], k);
            assert(holds(entries[q], k) && holds(entries[j], k));
        }
    }
}

/// The indices `indices`, each moved up by `by`.
pub open spec fn shifted(indices: Seq<int>, by: int) -> Seq<int> {
    Seq::new(indices.len(), |i: int| indices[i] + by)
}

/// In a list written twice, an entry of the second copy has the last word
/// on a key exactly if it has it in the list written once, and an entry of
/// the first copy never has it.
proof fn lemma_twice_owns(entries: Seq<EntrySpec>, j: int, key: KeySpec)
    requires
        0 <= j < entries.len(),
    ensures
        owns(entries + entries, entries.len() + j, key) == owns(entries, j, key),
        !owns(entries + entries, j, key),
{
    let n = entries.len() as int;
    let twice = entries + entries;
    assert(twice[n + j] == entries[j]);
    assert(twice[j] == entries[j]);
    if held_after(twice, n + j, key) {
        let i = choose|i: int| n + j < i < twice.len() && holds(#[trigger] twice[i], key);
        assert(twice[i] == entries[i - n]);
        assert(holds(entries[i - n], key));
        assert(held_after(entries, j, key));
    }
    if held_after(entries, j, key) {
        let i = choose|i: int| j < i < n && holds(#[trigger] entries[i], key);
        assert(twice[n + i] == entries[i]);
        assert(holds(twice[n + i], key));
        assert(held_after(twice, n + j, key));
    }
    if holds(twice[j], key) {
        assert(holds(twice[n + j], key));
        assert(held_after(twice, j, key));
    }
}

/// In a list written twice, an entry of the second copy shares an owned
/// key with an entry of the first copy exactly if it does in the list
/// written once.
proof fn lemma_twice_shares(entries: Seq<EntrySpec>, p: int, j: int)
    requires
        0 <= j < entries.len(),
        0 <= p < entries.len(),
    ensures
        shares_owned(entries + entries, p, entries.len() + j) == shares_owned(entries, p, j),
{
    let n = entries.len() as int;
    let twice = entries + entries;
    assert(twice[p] == entries[p]);
    if shares_owned(twice, p, n + j) {
        let key = choose|key: KeySpec| #[trigger] owns(twice, n + j, key) && holds(twice[p], key);
        lemma_twice_owns(entries, j, key);
        assert(owns(entries, j, key) && holds(entries[p], key));
    }
    if shares_owned(entries, p, j) {
        let key = choose|key: KeySpec| #[trigger] owns(entries, j, key) && holds(entries[p], key);
        lemma_twice_owns(entries, j, key);
        assert(owns(twice, n + j, key) && holds(twice[p], key));
    }
}

/// In a list written twice, an entry of the second copy takes the place
/// that it takes in the list written once, and no entry of the first copy
/// takes a place.
proof fn lemma_twice_placed(entries: Seq<EntrySpec>, j: int, p: int)
    requires
        0 <= j < entries.len(),
    ensures
        placed_at(entries + entries, entries.len() + j, p) == placed_at(entries, j, p),
        !placed_at(entries + entries, j, p),
{
    let n = entries.len() as int;
    let twice = entries + entries;
    if placed_at(twice, j, p) {
        let key = choose|key: KeySpec| #[trigger] owns(twice, j, key) && holds(twice[p], key);
        lemma_twice_owns(entries, j, key);
    }
    if placed_at(entries, j, p) {
        lemma_twice_shares(entries, p, j);
        let m = n + j;
        assert forall|q: int| 0 <= q < p implies !#[trigger] shares_owned(twice, q, m) by {
            lemma_twice_shares(entries, q, j);
        }
    }
    if placed_at(twice, n + j, p) {
        let key = choose|key: KeySpec| #[trigger] owns(twice, n + j, key) && holds(twice[p], key);
        lemma_twice_owns(entries, j, key);
        assert(owns(entries, j, key) && holds(entries[j], key));
        assert(shares_owned(entries, j, j));
        lemma_twice_shares(entries, j, j);
        assert(p <= j);
        lemma_twice_shares(entries, p, j);
        assert forall|q: int| 0 <= q < p implies !#[trigger] shares_owned(entries, q, j) by {
            lemma_twice_shares(entries, q, j);
        }
    }
}

/// In a list written twice, no entry of the first copy is in a row.
proof fn lemma_twice_row_first(entries: Seq<EntrySpec>, p: int, upto: int)
    requires
        upto <= entries.len(),
    ensures
        row(entries + entries, p, upto) == Seq::<int>::empty(),
    decreases upto,
{
    if upto > 0 {
        lemma_twice_row_first(entries, p, upto - 1);
        lemma_twice_placed(entries, upto - 1, p);
    }
}

/// In a list written twice, a row holds the indices that it holds in the
/// list written once, moved up to the second copy.
proof fn lemma_twice_row(entries: Seq<EntrySpec>, p: int, upto: int)
    requires
        0 <= upto <= entries.len(),
    ensures
        row(entries + entries, p, entries.len() + upto) == shifted(
            row(entries, p, upto),
            entries.len() as int,
        ),
    decreases upto,
{
    let n = entries.len() as int;
    let twice = entries + entries;
    if upto > 0 {
        lemma_twice_row(entries, p, upto - 1);
        lemma_twice_placed(entries, upto - 1, p);
        assert(row(twice, p, n + upto) =~= shifted(row(entries, p, upto), n));
    } else {
        lemma_twice_row_first(entries, p, n);
        assert(row(twice, p, n + upto) =~= shifted(row(entries, p, upto), n));
    }
}

/// In a list written twice, the rows hold the indices that they hold in
/// the list written once, moved up to the second copy.
proof fn lemma_twice_rows(entries: Seq<EntrySpec>, upto: int)
    requires
        0 <= upto <= 2 * entries.len(),
    ensures
        rows(entries + entries, upto) == shifted(
            rows(entries, if upto <= entries.len() {
                upto
            } else {
                entries.len() as int
            }),
            entries.len() as int,
        ),
    decreases upto,
{
    let n = entries.len() as int;
    let twice = entries + entries;
    if upto > 0 {
        lemma_twice_rows(entries, upto - 1);
        let last = row(twice, upto - 1, twice.len() as int);
        lemma_twice_row(entries, upto - 1, n);
        if upto <= n {
            assert(rows(twice, upto) =~= shifted(rows(entries, upto), n));
        } else {
            lemma_row(entries, upto - 1, n);
            if row(entries, upto - 1, n).len() > 0 {
                let j = row(entries, upto - 1, n)[0];
                assert(placed_at(entries, j, upto - 1));
            }
            assert(last =~= Seq::<int>::empty());
            assert(rows(twice, upto) =~= shifted(rows(entries, n), n));
        }
    } else {
        assert(rows(twice, upto) =~= shifted(rows(entries, upto), n));
    }
}

/// Writing a list of entries twice changes nothing: the class names that
/// stay, and their order, are those of the list written once.
pub proof fn lemma_resolve_twice(entries: Seq<EntrySpec>)
    ensures
        resolve(entries + entries) == resolve(entries),
{
    let n = entries.len() as int;
    let twice = entries + entries;
    lemma_twice_rows(entries, 2 * n);
    lemma_order(entries);
    let o = order(entries);
    assert(order(twice) == shifted(o, n));
    assert forall|i: int| 0 <= i < o.len() implies twice[#[trigger] o[i] + n] == entries[o[i]] by {}
    assert(resolve(twice) =~= resolve(entries));
}

} // verus!
