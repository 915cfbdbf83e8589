//! Resolution of conflicts: which class names stay, and in what order.
//!
//! Every conflict key keeps the position at which it was first seen, and its
//! value is the class name that held it last. A class name stays while it
//! has the last word on at least one of its keys, so a shorthand outlives a
//! later longhand for one of its sides and goes once every side has been
//! written again. What stays is written once, at the first position of a key
//! on which it has the last word; class names that take the same position
//! follow one another in the order in which they were written.

use vstd::prelude::*;
use crate::conflict::{entry_views, same_key, ConflictKey, Entry, EntrySpec, KeySpec};
use crate::text::views;

verus! {

/// Whether `key` is among the conflict keys of `entry`.
pub open spec fn holds(entry: EntrySpec, key: KeySpec) -> bool {
    entry.keys.contains(key)
}

/// Whether an entry after index `j` holds `key`.
pub open spec fn held_after(entries: Seq<EntrySpec>, j: int, key: KeySpec) -> bool {
    exists|i: int| j < i < entries.len() && holds(#[trigger] entries[i], key)
}

/// Whether the entry at index `j` has the last word on `key`: it holds the
/// key and no later entry does.
pub open spec fn owns(entries: Seq<EntrySpec>, j: int, key: KeySpec) -> bool {
    holds(entries[j], key) && !held_after(entries, j, key)
}

/// Whether the entry at index `j` stays: it has the last word on one of its
/// keys.
pub open spec fn survives(entries: Seq<EntrySpec>, j: int) -> bool {
    exists|key: KeySpec| #[trigger] owns(entries, j, key)
}

/// Whether the entry at index `p` holds a key on which the entry at index
/// `j` has the last word.
pub open spec fn shares_owned(entries: Seq<EntrySpec>, p: int, j: int) -> bool {
    exists|key: KeySpec| #[trigger] owns(entries, j, key) && holds(entries[p], key)
}

/// Whether the entry at index `j` stays and takes the place `p`: the first
/// position at which a key was seen on which this entry has the last word.
pub open spec fn placed_at(entries: Seq<EntrySpec>, j: int, p: int) -> bool {
    &&& 0 <= p <= j
    &&& shares_owned(entries, p, j)
    &&& forall|q: int| 0 <= q < p ==> !shares_owned(entries, q, j)
}

/// The indices below `upto` of the entries that take the place `p`, in
/// ascending order.
pub open spec fn row(entries: Seq<EntrySpec>, p: int, upto: int) -> Seq<int>
    decreases upto,
{
    if upto <= 0 {
        Seq::empty()
    } else if placed_at(entries, upto - 1, p) {
        row(entries, p, upto - 1).push(upto - 1)
    } else {
        row(entries, p, upto - 1)
    }
}

/// The indices of the entries that take a place below `upto`, by place, and
/// within one place in ascending order.
pub open spec fn rows(entries: Seq<EntrySpec>, upto: int) -> Seq<int>
    decreases upto,
{
    if upto <= 0 {
        Seq::empty()
    } else {
        rows(entries, upto - 1) + row(entries, upto - 1, entries.len() as int)
    }
}

/// The indices of the entries that stay, in their final order.
pub open spec fn order(entries: Seq<EntrySpec>) -> Seq<int> {
    rows(entries, entries.len() as int)
}

/// The class names of the entries at `indices`.
pub open spec fn texts_at(entries: Seq<EntrySpec>, indices: Seq<int>) -> Seq<Seq<char>> {
    Seq::new(indices.len(), |i: int| entries[indices[i]].text)
}

/// The class names that stay, in their final order. An entry stays while it
/// has the last word on one of its keys; each key keeps the position at
/// which it was first seen.
pub open spec fn resolve(entries: Seq<EntrySpec>) -> Seq<Seq<char>> {
    texts_at(entries, order(entries))
}

/// An entry takes at most one place.
pub proof fn lemma_one_place(entries: Seq<EntrySpec>, j: int, p: int, q: int)
    requires
        placed_at(entries, j, p),
        placed_at(entries, j, q),
    ensures
        p == q,
{
}

/// Executable form of [`holds`].
fn holds_key(entry: &Entry, key: &ConflictKey) -> (r: bool)
    ensures
        r == holds(entry@, key@),
{
    let mut q: usize = 0;
    while q < entry.keys.len()
        invariant
            q <= entry.keys.len(),
            forall|x: int| 0 <= x < q ==> #[trigger] entry@.keys[x] != key@,
        decreases entry.keys.len() - q,
    {
        if same_key(&entry.keys[q], key) {
            assert(entry@.keys[q as int] == key@);
            return true;
        }
        q += 1;
    }
    false
}

/// Executable form of [`held_after`].
fn held_later(entries: &Vec<Entry>, j: usize, key: &ConflictKey) -> (r: bool)
    requires
        j < entries.len(),
    ensures
        r == held_after(entry_views(entries@), j as int, key@),
{
    let ghost es = entry_views(entries@);
    let mut i: usize = j + 1;
    while i < entries.len()
        invariant
            j < i <= entries.len(),
            es == entry_views(entries@),
            forall|x: int| j < x < i ==> !holds(#[trigger] es[x], key@),
        decreases entries.len() - i,
    {
        if holds_key(&entries[i], key) {
            assert(holds(es[i as int], key@));
            return true;
        }
        i += 1;
    }
    false
}

/// For each key of the entry at index `j`, whether the entry has the last
/// word on it.
fn owned_flags(entries: &Vec<Entry>, j: usize) -> (r: Vec<bool>)
    requires
        j < entries.len(),
    ensures
        r@.len() == entry_views(entries@)[j as int].keys.len(),
        forall|q: int|
            0 <= q < r@.len() ==> #[trigger] r@[q] == !held_after(
                entry_views(entries@),
                j as int,
                entry_views(entries@)[j as int].keys[q],
            ),
{
    let ghost es = entry_views(entries@);
    let entry = &entries[j];
    let mut flags: Vec<bool> = Vec::new();
    let mut q: usize = 0;
    while q < entry.keys.len()
        invariant
            j < entries.len(),
            es == entry_views(entries@),
            *entry == entries@[j as int],
            q <= entry.keys.len(),
            flags@.len() == q,
            forall|x: int|
                0 <= x < q ==> #[trigger] flags@[x] == !held_after(es, j as int, es[j as int].keys[x]),
        decreases entry.keys.len() - q,
    {
        let later = held_later(entries, j, &entry.keys[q]);
        assert(es[j as int].keys[q as int] == entry.keys@[q as int]@);
        flags.push(!later);
        q += 1;
    }
    flags
}

/// Executable form of [`shares_owned`], given what [`owned_flags`] found
/// for the entry at index `j`.
fn shares(entries: &Vec<Entry>, p: usize, j: usize, flags: &Vec<bool>) -> (r: bool)
    requires
        p < entries.len(),
        j < entries.len(),
        flags@.len() == entry_views(entries@)[j as int].keys.len(),
        forall|q: int|
            0 <= q < flags@.len() ==> #[trigger] flags@[q] == !held_after(
                entry_views(entries@),
                j as int,
                entry_views(entries@)[j as int].keys[q],
            ),
    ensures
        r == shares_owned(entry_views(entries@), p as int, j as int),
{
    let ghost es = entry_views(entries@);
    let entry = &entries[j];
    let mut q: usize = 0;
    while q < entry.keys.len()
        invariant
            p < entries.len(),
            j < entries.len(),
            es == entry_views(entries@),
            *entry == entries@[j as int],
            q <= entry.keys.len(),
            flags@.len() == es[j as int].keys.len(),
            forall|x: int|
                0 <= x < flags@.len() ==> #[trigger] flags@[x] == !held_after(
                    es,
                    j as int,
                    es[j as int].keys[x],
                ),
            forall|x: int|
                0 <= x < q ==> !(flags@[x] && holds(es[p as int], #[trigger] es[j as int].keys[x])),
        decreases entry.keys.len() - q,
    {
        assert(es[j as int].keys[q as int] == entry.keys@[q as int]@);
        if flags[q] && holds_key(&entries[p], &entry.keys[q]) {
            proof {
                let key = es[j as int].keys[q as int];
                assert(owns(es, j as int, key));
                assert(holds(es[p as int], key));
            }
            return true;
        }
        q += 1;
    }
    proof {
        assert forall|key: KeySpec| !(#[trigger] owns(es, j as int, key) && holds(
            es[p as int],
            key,
        )) by {
            if owns(es, j as int, key) && holds(es[p as int], key) {
                let x = choose|x: int| 0 <= x < es[j as int].keys.len() && es[j as int].keys[x] == key;
                assert(flags@[x]);
                assert(holds(es[p as int], es[j as int].keys[x]));
            }
        }
    }
    false
}

/// The place that the entry at index `j` takes, if it stays.
fn place_of(entries: &Vec<Entry>, j: usize) -> (r: Option<usize>)
    requires
        j < entries.len(),
    ensures
        match r {
            Some(p) => placed_at(entry_views(entries@), j as int, p as int),
            None => forall|p: int| !placed_at(entry_views(entries@), j as int, p),
        },
{
    let ghost es = entry_views(entries@);
    let flags = owned_flags(entries, j);
    let mut p: usize = 0;
    while p <= j
        invariant
            j < entries.len(),
            p <= j + 1,
            es == entry_views(entries@),
            flags@.len() == es[j as int].keys.len(),
            forall|q: int|
                0 <= q < flags@.len() ==> #[trigger] flags@[q] == !held_after(
                    es,
                    j as int,
                    es[j as int].keys[q],
                ),
            forall|q: int| 0 <= q < p ==> !shares_owned(es, q, j as int),
        decreases j + 1 - p,
    {
        if shares(entries, p, j, &flags) {
            return Some(p);
        }
        p += 1;
    }
    None
}

/// Whether `place` says what becomes of the entry at index `j`: the place
/// that it takes, or that it does not stay.
pub open spec fn is_place(entries: Seq<EntrySpec>, j: int, place: Option<usize>) -> bool {
    match place {
        Some(p) => placed_at(entries, j, p as int),
        None => forall|p: int| !placed_at(entries, j, p),
    }
}

/// The class names that stay, in their final order.
pub fn resolve_entries(entries: &Vec<Entry>) -> (r: Vec<String>)
    ensures
        views(r@) == resolve(entry_views(entries@)),
{
    let ghost es = entry_views(entries@);
    let n: usize = entries.len();
    let mut places: Vec<Option<usize>> = Vec::new();
    let mut j: usize = 0;
    while j < n
        invariant
            n == entries.len(),
            es == entry_views(entries@),
            j <= n,
            places@.len() == j,
            forall|x: int| 0 <= x < j ==> is_place(es, x, #[trigger] places@[x]),
        decreases n - j,
    {
        let place = place_of(entries, j);
        places.push(place);
        j += 1;
    }
    let mut out: Vec<String> = Vec::new();
    let mut p: usize = 0;
    assert(views(out@) =~= texts_at(es, rows(es, 0)));
    while p < n
        invariant
            n == entries.len(),
            es == entry_views(entries@),
            p <= n,
            places@.len() == n,
            forall|x: int| 0 <= x < n ==> is_place(es, x, #[trigger] places@[x]),
            views(out@) == texts_at(es, rows(es, p as int)),
        decreases n - p,
    {
        let mut j: usize = 0;
        assert(rows(es, p as int) + row(es, p as int, 0) =~= rows(es, p as int));
        while j < n
            invariant
                n == entries.len(),
                es == entry_views(entries@),
                p < n,
                j <= n,
                places@.len() == n,
                forall|x: int| 0 <= x < n ==> is_place(es, x, #[trigger] places@[x]),
                views(out@) == texts_at(es, rows(es, p as int) + row(es, p as int, j as int)),
            decreases n - j,
        {
            let here = match places[j] {
                Some(q) => q == p,
                None => false,
            };
            proof {
                assert(is_place(es, j as int, places@[j as int]));
                if let Some(q) = places@[j as int] {
                    if placed_at(es, j as int, p as int) {
                        lemma_one_place(es, j as int, p as int, q as int);
                    }
                }
            }
            assert(here == placed_at(es, j as int, p as int));
            if here {
                let name = entries[j].text.clone();
                proof {
                    let front = rows(es, p as int);
                    let part = row(es, p as int, j as int);
                    assert(name@ == es[j as int].text);
                    let so_far = front + part;
                    assert(so_far.push(j as int) =~= front + part.push(j as int));
                    assert(views(out@.push(name)) =~= views(out@).push(name@));
                    assert(texts_at(es, so_far.push(j as int)) =~= texts_at(es, so_far).push(
                        es[j as int].text,
                    ));
                }
                out.push(name);
            }
            j += 1;
        }
        p += 1;
    }
    out
}

} // verus!
