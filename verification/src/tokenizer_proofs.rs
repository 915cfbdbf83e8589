//! What holds of splitting class lists and of writing them out again.

use vstd::prelude::*;
use crate::text::{is_space, spaced};
use crate::tokenizer::{is_word, lemma_word_len, lemma_word_len_bound, word_len, words};

verus! {

/// The first word of `s` holds no space, and a space or the end of `s`
/// follows it.
pub proof fn lemma_word_len_chars(s: Seq<char>)
    ensures
        word_len(s) <= s.len(),
        forall|k: int| 0 <= k < word_len(s) ==> !is_space(#[trigger] s[k]),
        word_len(s) == s.len() || is_space(s[word_len(s) as int]),
    decreases s.len(),
{
    if s.len() > 0 && !is_space(s[0]) {
        let t = s.skip(1);
        lemma_word_len_chars(t);
        assert forall|k: int| 0 <= k < word_len(s) implies !is_space(#[trigger] s[k]) by {
            if k > 0 {
                assert(s[k] == t[k - 1]);
            }
        }
        if word_len(s) < s.len() {
            assert(s[word_len(s) as int] == t[word_len(t) as int]);
        }
    }
}

/// Every class name of a list is a word: not empty and free of spaces.
pub proof fn lemma_words_are_words(s: Seq<char>)
    ensures
        forall|i: int| 0 <= i < words(s).len() ==> is_word(#[trigger] words(s)[i]),
    decreases s.len(),
{
    if s.len() == 0 {
        assert(words(s).len() == 0);
    } else if is_space(s[0]) {
        lemma_words_are_words(s.skip(1));
        assert(words(s) == words(s.skip(1)));
    } else {
        lemma_word_len_chars(s);
        let n = word_len(s) as int;
        let first = s.take(n);
        let rest = words(s.skip(n));
        lemma_words_are_words(s.skip(n));
        assert forall|k: int| 0 <= k < first.len() implies !is_space(#[trigger] first[k]) by {
            assert(first[k] == s[k]);
        }
        assert(is_word(first));
        assert(words(s) == seq![first] + rest);
        assert forall|i: int| 0 <= i < words(s).len() implies is_word(#[trigger] words(s)[i]) by {
            if i > 0 {
                assert(words(s)[i] == rest[i - 1]);
            } else {
                assert(words(s)[i] == first);
            }
        }
    }
}

/// The class names of two lists written with a space between them are
/// those of the first followed by those of the second.
pub proof fn lemma_words_joined(x: Seq<char>, y: Seq<char>)
    ensures
        words(x + seq![' '] + y) == words(x) + words(y),
    decreases x.len(),
{
    let z = x + seq![' '] + y;
    if x.len() == 0 {
        assert(z.skip(1) =~= y);
        assert(words(x) + words(y) =~= words(y));
    } else if is_space(x[0]) {
        assert(z[0] == x[0]);
        assert(z.skip(1) =~= x.skip(1) + seq![' '] + y);
        lemma_words_joined(x.skip(1), y);
    } else {
        lemma_word_len_chars(x);
        let n = word_len(x) as int;
        assert forall|k: int| 0 <= k < n implies !is_space(#[trigger] z[k]) by {
            assert(z[k] == x[k]);
        }
        if n < x.len() {
            assert(z[n] == x[n]);
        } else {
            assert(z[n] == ' ');
        }
        lemma_word_len(z, n);
        assert(z[0] == x[0]);
        assert(z.take(n) =~= x.take(n));
        assert(z.skip(n) =~= x.skip(n) + seq![' '] + y);
        lemma_words_joined(x.skip(n), y);
        assert(words(z) =~= words(x) + words(y));
    }
}

/// The empty list holds no class name.
pub proof fn lemma_words_of_nothing()
    ensures
        words(Seq::<char>::empty()) == Seq::<Seq<char>>::empty(),
{
}

/// A word is the one class name of the list that holds nothing else.
pub proof fn lemma_words_of_word(w: Seq<char>)
    requires
        is_word(w),
    ensures
        words(w) == seq![w],
{
    assert(!is_space(w[0]));
    lemma_word_len(w, w.len() as int);
    assert(w.take(w.len() as int) =~= w);
    assert(w.skip(w.len() as int) =~= Seq::<char>::empty());
    lemma_words_of_nothing();
    assert(words(w) =~= seq![w]);
}

/// Words written out with single spaces between them are read back as the
/// same words.
pub proof fn lemma_words_of_spaced(parts: Seq<Seq<char>>)
    requires
        forall|i: int| 0 <= i < parts.len() ==> is_word(#[trigger] parts[i]),
    ensures
        words(spaced(parts)) == parts,
    decreases parts.len(),
{
    if parts.len() == 0 {
        assert(words(spaced(parts)) =~= parts);
    } else if parts.len() == 1 {
        lemma_words_of_word(parts[0]);
        assert(seq![parts[0]] =~= parts);
    } else {
        let front = parts.drop_last();
        lemma_words_of_spaced(front);
        lemma_words_joined(spaced(front), parts.last());
        lemma_words_of_word(parts.last());
        assert(front + seq![parts.last()] =~= parts);
    }
}

/// Words written out with single spaces between them begin and end
/// without a space.
pub proof fn lemma_spaced_ends(parts: Seq<Seq<char>>)
    requires
        parts.len() > 0,
        forall|i: int| 0 <= i < parts.len() ==> is_word(#[trigger] parts[i]),
    ensures
        spaced(parts).len() > 0,
        !is_space(spaced(parts)[0]),
        !is_space(spaced(parts).last()),
    decreases parts.len(),
{
    if parts.len() > 1 {
        let front = parts.drop_last();
        lemma_spaced_ends(front);
        let all = spaced(parts);
        assert(all[0] == spaced(front)[0]);
        assert(all.last() == parts.last().last());
    }
}

} // verus!
