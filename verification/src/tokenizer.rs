//! Splitting class lists into class names.

use vstd::prelude::*;
use crate::text::{chars_of, is_space, is_space_char, join_spaced, slice_views, spaced, views};

verus! {

/// The length of the longest prefix of `s` that holds no separating space.
pub open spec fn word_len(s: Seq<char>) -> nat
    decreases s.len(),
{
    if s.len() == 0 || is_space(s[0]) {
        0
    } else {
        1 + word_len(s.skip(1))
    }
}

/// The first word of `s` is no longer than `s`.
pub proof fn lemma_word_len_bound(s: Seq<char>)
    ensures
        word_len(s) <= s.len(),
    decreases s.len(),
{
    if s.len() > 0 && !is_space(s[0]) {
        lemma_word_len_bound(s.skip(1));
    }
}

/// The maximal runs of characters other than spaces, from left to right.
pub open spec fn words(s: Seq<char>) -> Seq<Seq<char>>
    decreases s.len(),
    via words_decreases
{
    if s.len() == 0 {
        Seq::empty()
    } else if is_space(s[0]) {
        words(s.skip(1))
    } else {
        seq![s.take(word_len(s) as int)] + words(s.skip(word_len(s) as int))
    }
}

#[via_fn]
proof fn words_decreases(s: Seq<char>) {
    lemma_word_len_bound(s);
}

/// The class names of several class lists taken as one list: the lists are
/// put together with a space between them and the whole is split at spaces.
pub open spec fn tokens(inputs: Seq<Seq<char>>) -> Seq<Seq<char>> {
    words(spaced(inputs))
}

/// A class name: not empty, and free of separating spaces.
pub open spec fn is_word(s: Seq<char>) -> bool {
    s.len() > 0 && forall|k: int| 0 <= k < s.len() ==> !is_space(#[trigger] s[k])
}

/// A prefix of `m` characters without a space, ended by a space or by the
/// end of `s`, is the first word of `s`.
pub proof fn lemma_word_len(s: Seq<char>, m: int)
    requires
        0 <= m <= s.len(),
        forall|k: int| 0 <= k < m ==> !is_space(#[trigger] s[k]),
        m == s.len() || is_space(s[m]),
    ensures
        word_len(s) == m,
    decreases m,
{
    if m > 0 {
        let t = s.skip(1);
        assert forall|k: int| 0 <= k < m - 1 implies !is_space(#[trigger] t[k]) by {
            assert(t[k] == s[k + 1]);
        }
        lemma_word_len(t, m - 1);
    }
}

/// The class names in `text`, in order.
pub fn split_words(text: &str) -> (r: Vec<String>)
    ensures
        views(r@) == words(text@),
{
    let chars = chars_of(text);
    let n: usize = chars.len();
    let mut out: Vec<String> = Vec::new();
    let mut i: usize = 0;
    assert(text@.skip(0) =~= text@);
    assert(views(out@) =~= Seq::<Seq<char>>::empty());
    while i < n
        invariant
            i <= n,
            n == chars.len(),
            chars@ == text@,
            words(text@) == views(out@) + words(text@.skip(i as int)),
        decreases n - i,
    {
        let ghost rest = text@.skip(i as int);
        if is_space_char(chars[i]) {
            assert(rest.skip(1) =~= text@.skip(i + 1));
            i += 1;
        } else {
            let start: usize = i;
            let mut j: usize = i + 1;
            while j < n && !is_space_char(chars[j])
                invariant
                    start < j <= n,
                    n == chars.len(),
                    forall|k: int| start <= k < j ==> !is_space(#[trigger] chars@[k]),
                decreases n - j,
            {
                j += 1;
            }
            let word = text.substring_char(start, j).to_owned();
            proof {
                assert forall|k: int| 0 <= k < j - start implies !is_space(#[trigger] rest[k]) by {
                    assert(rest[k] == chars@[start + k]);
                }
                lemma_word_len(rest, j - start);
                assert(rest.take(j - start) =~= text@.subrange(start as int, j as int));
                assert(rest.skip(j - start) =~= text@.skip(j as int));
                assert(views(out@.push(word)) =~= views(out@) + seq![word@]);
            }
            out.push(word);
            i = j;
        }
    }
    assert(text@.skip(n as int) =~= Seq::<char>::empty());
    out
}

/// The class names of the given class lists, in order. Empty lists and stray
/// spaces yield no name.
pub fn tokenize(inputs: &[&str]) -> (r: Vec<String>)
    ensures
        views(r@) == tokens(slice_views(inputs@)),
{
    let all = join_spaced(inputs);
    split_words(all.as_str())
}

} // verus!
