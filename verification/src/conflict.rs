//! Conflict keys: what two class names have to share in order to compete.

use vstd::prelude::*;
use crate::classifier::{classify, Category, StemSpec, StemTable};
use crate::options::{MergeOptions, OptionsSpec};
use crate::parser::{parse, parse_token};

verus! {

/// A conflict key as plain values.
pub enum KeySpec {
    /// A style property under a modifier context.
    Utility { modifier: Seq<char>, category: Category },
    /// A class name that sets no known property. It competes only with
    /// itself, written again.
    Literal { text: Seq<char> },
}

/// A conflict key.
#[derive(Debug, PartialEq, Eq)]
pub enum ConflictKey {
    Utility { modifier: String, category: Category },
    Literal { text: String },
}

impl View for ConflictKey {
    type V = KeySpec;

    open spec fn view(&self) -> KeySpec {
        match self {
            ConflictKey::Utility { modifier, category } => KeySpec::Utility {
                modifier: modifier@,
                category: *category,
            },
            ConflictKey::Literal { text } => KeySpec::Literal { text: text@ },
        }
    }
}

/// What a sequence of conflict keys holds.
pub open spec fn key_views(keys: Seq<ConflictKey>) -> Seq<KeySpec> {
    Seq::new(keys.len(), |i: int| keys[i]@)
}

/// A class name with its conflict keys, as plain values.
pub struct EntrySpec {
    pub text: Seq<char>,
    pub keys: Seq<KeySpec>,
}

/// A class name with its conflict keys.
#[derive(Debug, PartialEq, Eq)]
pub struct Entry {
    pub text: String,
    pub keys: Vec<ConflictKey>,
}

impl View for Entry {
    type V = EntrySpec;

    open spec fn view(&self) -> EntrySpec {
        EntrySpec { text: self.text@, keys: key_views(self.keys@) }
    }
}

/// What a sequence of entries holds.
pub open spec fn entry_views(entries: Seq<Entry>) -> Seq<EntrySpec> {
    Seq::new(entries.len(), |i: int| entries[i]@)
}

/// The conflict keys of the class name `token`: one for each property that
/// its base utility sets, under its modifier context; for a class name whose
/// base utility is unknown, the class name itself.
pub open spec fn keys_of(table: Seq<StemSpec>, options: OptionsSpec, token: Seq<char>) -> Seq<
    KeySpec,
> {
    let parsed = parse(table, options, token);
    let categories = classify(table, parsed.base);
    if categories.len() == 0 {
        seq![KeySpec::Literal { text: token }]
    } else {
        Seq::new(
            categories.len(),
            |i: int| KeySpec::Utility { modifier: parsed.modifier, category: categories[i] },
        )
    }
}

/// The class name `token` with its conflict keys.
pub open spec fn entry_of(table: Seq<StemSpec>, options: OptionsSpec, token: Seq<char>) -> EntrySpec {
    EntrySpec { text: token, keys: keys_of(table, options, token) }
}

/// The class names `tokens`, each with its conflict keys.
pub open spec fn entries_of(
    table: Seq<StemSpec>,
    options: OptionsSpec,
    tokens: Seq<Seq<char>>,
) -> Seq<EntrySpec> {
    Seq::new(tokens.len(), |i: int| entry_of(table, options, tokens[i]))
}

/// Whether two conflict keys are the same.
pub fn same_key(a: &ConflictKey, b: &ConflictKey) -> (r: bool)
    ensures
        r == (a@ == b@),
{
    match (a, b) {
        (
            ConflictKey::Utility { modifier: m, category: c },
            ConflictKey::Utility { modifier: n, category: d },
        ) => *c == *d && *m == *n,
        (ConflictKey::Literal { text: s }, ConflictKey::Literal { text: t }) => *s == *t,
        _ => false,
    }
}

/// Parses and classifies the class name `token`.
pub fn key_token(table: &StemTable, options: &MergeOptions, token: &str) -> (r: Entry)
    ensures
        r@ == entry_of(table@, options@, token@),
{
    let parsed = parse_token(table, options, token);
    let categories = table.classify(parsed.base.as_str());
    let mut keys: Vec<ConflictKey> = Vec::new();
    if categories.len() == 0 {
        keys.push(ConflictKey::Literal { text: token.to_owned() });
        assert(key_views(keys@) =~= seq![KeySpec::Literal { text: token@ }]);
    } else {
        let mut i: usize = 0;
        while i < categories.len()
            invariant
                i <= categories.len(),
                keys.len() == i,
                forall|q: int|
                    0 <= q < i ==> (#[trigger] keys@[q])@ == (KeySpec::Utility {
                        modifier: parsed.modifier@,
                        category: categories@[q],
                    }),
            decreases categories.len() - i,
        {
            keys.push(
                ConflictKey::Utility { modifier: parsed.modifier.clone(), category: categories[i] },
            );
            i += 1;
        }
        assert(key_views(keys@) =~= keys_of(table@, options@, token@));
    }
    Entry { text: token.to_owned(), keys }
}

/// Parses and classifies each of the class names `tokens`.
pub fn key_tokens(table: &StemTable, options: &MergeOptions, tokens: &Vec<String>) -> (r: Vec<Entry>)
    ensures
        entry_views(r@) == entries_of(table@, options@, crate::text::views(tokens@)),
{
    let mut out: Vec<Entry> = Vec::new();
    let mut i: usize = 0;
    while i < tokens.len()
        invariant
            i <= tokens.len(),
            out.len() == i,
            forall|q: int|
                0 <= q < i ==> (#[trigger] out@[q])@ == entry_of(table@, options@, tokens@[q]@),
        decreases tokens.len() - i,
    {
        out.push(key_token(table, options, tokens[i].as_str()));
        i += 1;
    }
    assert(entry_views(out@) =~= entries_of(table@, options@, crate::text::views(tokens@)));
    out
}

} // verus!
