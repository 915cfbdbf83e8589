//! Taking a class name apart into its modifier and its base utility.

use vstd::prelude::*;
use crate::classifier::{recognizes, StemSpec, StemTable};
use crate::options::{MergeOptions, OptionsSpec};
use crate::text::{chars_of, matches_at, occurs_at};

verus! {

/// A class name taken apart, as plain values.
pub struct ParsedSpec {
    /// The modifier context, without the separator that ends it; empty where
    /// the class name has none.
    pub modifier: Seq<char>,
    /// The base utility.
    pub base: Seq<char>,
}

/// A class name taken apart.
#[derive(Debug)]
pub struct ParsedToken {
    pub modifier: String,
    pub base: String,
}

impl View for ParsedToken {
    type V = ParsedSpec;

    open spec fn view(&self) -> ParsedSpec {
        ParsedSpec { modifier: self.modifier@, base: self.base@ }
    }
}

/// `token` without `prefix` at its start; `token` itself where it does not
/// begin with `prefix`.
pub open spec fn strip_prefix(prefix: Seq<char>, token: Seq<char>) -> Seq<char> {
    if occurs_at(token, 0, prefix) {
        token.skip(prefix.len() as int)
    } else {
        token
    }
}

/// Whether `rest` can be split at index `i`: the separator stands there, and
/// what follows it is a utility that `table` knows.
pub open spec fn splits_at(
    table: Seq<StemSpec>,
    separator: Seq<char>,
    rest: Seq<char>,
    i: int,
) -> bool {
    occurs_at(rest, i, separator) && recognizes(table, rest.skip(i + separator.len()))
}

/// The last index below `upto` at which `rest` can be split.
pub open spec fn last_split(
    table: Seq<StemSpec>,
    separator: Seq<char>,
    rest: Seq<char>,
    upto: int,
) -> Option<int>
    decreases upto,
{
    if upto <= 0 {
        None
    } else if splits_at(table, separator, rest, upto - 1) {
        Some(upto - 1)
    } else {
        last_split(table, separator, rest, upto - 1)
    }
}

/// The modifier and the base utility of `token`. The prefix is taken off
/// first. The rest is split at the last separator that stands before a known
/// utility; without such a separator the whole rest is the base utility.
pub open spec fn parse(table: Seq<StemSpec>, options: OptionsSpec, token: Seq<char>) -> ParsedSpec {
    let rest = strip_prefix(options.prefix, token);
    match last_split(table, options.separator, rest, rest.len() as int) {
        Some(i) => ParsedSpec {
            modifier: rest.take(i),
            base: rest.skip(i + options.separator.len()),
        },
        None => ParsedSpec { modifier: Seq::empty(), base: rest },
    }
}

/// `last_split` yields an index at which `rest` can be split and after
/// which, below `upto`, it cannot; it yields none only where `rest` cannot be
/// split below `upto` at all.
pub proof fn lemma_last_split(
    table: Seq<StemSpec>,
    separator: Seq<char>,
    rest: Seq<char>,
    upto: int,
)
    ensures
        match last_split(table, separator, rest, upto) {
            Some(i) => 0 <= i < upto && splits_at(table, separator, rest, i) && forall|j: int|
                i < j < upto ==> !splits_at(table, separator, rest, j),
            None => forall|j: int| 0 <= j < upto ==> !splits_at(table, separator, rest, j),
        },
    decreases upto,
{
    if upto > 0 && !splits_at(table, separator, rest, upto - 1) {
        lemma_last_split(table, separator, rest, upto - 1);
    }
}

/// Takes `token` apart.
pub fn parse_token(table: &StemTable, options: &MergeOptions, token: &str) -> (r: ParsedToken)
    ensures
        r@ == parse(table@, options@, token@),
{
    let chars = chars_of(token);
    let prefix = chars_of(options.prefix());
    let separator = chars_of(options.separator());
    let n: usize = chars.len();
    let start: usize = if matches_at(&chars, 0, &prefix) {
        prefix.len()
    } else {
        0
    };
    let ghost rest = strip_prefix(options@.prefix, token@);
    assert(rest =~= chars@.skip(start as int));
    let mut upto: usize = n - start;
    while upto > 0
        invariant
            start <= n,
            n == chars.len(),
            chars@ == token@,
            separator@ == options@.separator,
            rest == chars@.skip(start as int),
            rest == strip_prefix(options@.prefix, token@),
            upto <= n - start,
            last_split(table@, separator@, rest, rest.len() as int) == last_split(
                table@,
                separator@,
                rest,
                upto as int,
            ),
        decreases upto,
    {
        let i: usize = upto - 1;
        let found = matches_at(&chars, start + i, &separator);
        proof {
            if start + i + separator.len() <= n {
                assert(rest.subrange(i as int, i + separator@.len()) =~= chars@.subrange(
                    start + i,
                    start + i + separator@.len(),
                ));
            }
        }
        assert(found == occurs_at(rest, i as int, separator@));
        if found {
            let after: usize = start + i + separator.len();
            assert(rest.skip(i + separator@.len()) =~= chars@.skip(after as int));
            if table.recognizes_from(&chars, after) {
                let modifier = token.substring_char(start, start + i).to_owned();
                let base = token.substring_char(after, n).to_owned();
                proof {
                    assert(rest.take(i as int) =~= token@.subrange(start as int, start + i));
                    assert(rest.skip(i + separator@.len()) =~= token@.subrange(
                        after as int,
                        n as int,
                    ));
                }
                return ParsedToken { modifier, base };
            }
        }
        upto = i;
    }
    let base = token.substring_char(start, n).to_owned();
    assert(rest =~= token@.subrange(start as int, n as int));
    ParsedToken { modifier: String::new(), base }
}

} // verus!
