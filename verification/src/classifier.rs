//! Classification of base utilities by the style properties they set.

use vstd::prelude::*;
use vstd::slice::slice_to_vec;
use crate::text::{chars_of, matches_at, occurs_at};

verus! {

/// A style property that a utility can set. Two utilities compete exactly
/// where they set a common property.
#[derive(Clone, Copy, Debug, PartialEq, Eq, Structural)]
pub enum Category {
    PaddingTop,
    PaddingRight,
    PaddingBottom,
    PaddingLeft,
    MarginTop,
    MarginRight,
    MarginBottom,
    MarginLeft,
    Width,
    Height,
    Top,
    Right,
    Bottom,
    Left,
    ColumnGap,
    RowGap,
    Display,
    Position,
    TextAlign,
    FontSize,
    FontWeight,
    TextColor,
    BackgroundColor,
    Opacity,
    ZIndex,
}

/// A row of a stem table as plain values.
pub struct StemSpec {
    /// The characters to find at the start of a base utility.
    pub pattern: Seq<char>,
    /// Whether the pattern has to be the whole base utility; otherwise it has
    /// to be followed by at least one more character.
    pub whole: bool,
    /// The properties set by a utility with this stem.
    pub categories: Seq<Category>,
}

/// A row of a stem table.
pub struct Stem {
    pub pattern: Vec<char>,
    pub whole: bool,
    pub categories: Vec<Category>,
}

impl View for Stem {
    type V = StemSpec;

    open spec fn view(&self) -> StemSpec {
        StemSpec { pattern: self.pattern@, whole: self.whole, categories: self.categories@ }
    }
}

/// The known utility stems with the properties that each sets. The first row
/// that matches a base utility classifies it.
pub struct StemTable {
    pub stems: Vec<Stem>,
}

impl View for StemTable {
    type V = Seq<StemSpec>;

    open spec fn view(&self) -> Seq<StemSpec> {
        Seq::new(self.stems@.len(), |i: int| self.stems@[i]@)
    }
}

/// A row for the utilities that begin with `pattern` and go on after it.
pub open spec fn prefix_stem(pattern: Seq<char>, categories: Seq<Category>) -> StemSpec {
    StemSpec { pattern, whole: false, categories }
}

/// A row for the one utility that is written `pattern`.
pub open spec fn whole_stem(pattern: Seq<char>, categories: Seq<Category>) -> StemSpec {
    StemSpec { pattern, whole: true, categories }
}

/// Whether a row of the table applies to the base utility `base`.
pub open spec fn stem_matches(stem: StemSpec, base: Seq<char>) -> bool {
    if stem.whole {
        base == stem.pattern
    } else {
        stem.pattern.len() < base.len() && base.take(stem.pattern.len() as int) == stem.pattern
    }
}

/// The index of the first row of `table` that applies to `base`.
pub open spec fn first_match(table: Seq<StemSpec>, base: Seq<char>) -> Option<int>
    decreases table.len(),
{
    if table.len() == 0 {
        None
    } else {
        match first_match(table.drop_last(), base) {
            Some(i) => Some(i),
            None => if stem_matches(table.last(), base) {
                Some(table.len() - 1)
            } else {
                None
            },
        }
    }
}

/// The properties that the base utility `base` sets according to `table`:
/// those of the first row that applies, and none where no row applies.
pub open spec fn classify(table: Seq<StemSpec>, base: Seq<char>) -> Seq<Category> {
    match first_match(table, base) {
        Some(i) => table[i].categories,
        None => Seq::empty(),
    }
}

/// Whether `table` knows the base utility `base`.
pub open spec fn recognizes(table: Seq<StemSpec>, base: Seq<char>) -> bool {
    classify(table, base).len() > 0
}

/// `first_match` yields a row that applies and that no applying row
/// precedes, and yields none only where no row applies.
pub proof fn lemma_first_match(table: Seq<StemSpec>, base: Seq<char>)
    ensures
        match first_match(table, base) {
            Some(i) => 0 <= i < table.len() && stem_matches(table[i], base) && forall|j: int|
                0 <= j < i ==> !stem_matches(#[trigger] table[j], base),
            None => forall|j: int| 0 <= j < table.len() ==> !stem_matches(#[trigger] table[j], base),
        },
    decreases table.len(),
{
    if table.len() > 0 {
        let front = table.drop_last();
        lemma_first_match(front, base);
        assert forall|j: int| 0 <= j < front.len() implies front[j] == table[j] by {}
        match first_match(front, base) {
            Some(i) => {
                assert(front[i] == table[i]);
                assert forall|j: int| 0 <= j < i implies !stem_matches(#[trigger] table[j], base) by {
                    assert(front[j] == table[j]);
                }
            },
            None => {
                assert forall|j: int| 0 <= j < table.len() - 1 implies !stem_matches(
                    #[trigger] table[j],
                    base,
                ) by {
                    assert(front[j] == table[j]);
                }
            },
        }
    }
}

/// The executable form of [`stem_matches`] for the utility that starts at
/// index `from` of `text`.
fn stem_matches_from(stem: &Stem, text: &Vec<char>, from: usize) -> (r: bool)
    requires
        from <= text.len(),
    ensures
        r == stem_matches(stem@, text@.skip(from as int)),
{
    let n: usize = stem.pattern.len();
    let rest: usize = text.len() - from;
    let ghost base = text@.skip(from as int);
    if stem.whole {
        if rest != n {
            return false;
        }
        let found = matches_at(text, from, &stem.pattern);
        assert(base =~= text@.subrange(from as int, from + n));
        found
    } else {
        if n >= rest {
            return false;
        }
        let found = matches_at(text, from, &stem.pattern);
        assert(base.take(n as int) =~= text@.subrange(from as int, from + n));
        found
    }
}

impl StemTable {
    /// A table without rows: it knows no utility.
    pub fn new() -> (r: StemTable)
        ensures
            r@ == Seq::<StemSpec>::empty(),
    {
        let r = StemTable { stems: Vec::new() };
        assert(r@ =~= Seq::<StemSpec>::empty());
        r
    }

    /// Adds a row for the utilities that begin with `pattern` and go on
    /// after it.
    pub fn add_prefix(&mut self, pattern: &str, categories: &[Category])
        ensures
            final(self)@ == old(self)@.push(prefix_stem(pattern@, categories@)),
    {
        let stem = Stem {
            pattern: chars_of(pattern),
            whole: false,
            categories: slice_to_vec(categories),
        };
        self.stems.push(stem);
        assert(self@ =~= old(self)@.push(prefix_stem(pattern@, categories@)));
    }

    /// Adds a row for the one utility that is written `pattern`.
    pub fn add_whole(&mut self, pattern: &str, categories: &[Category])
        ensures
            final(self)@ == old(self)@.push(whole_stem(pattern@, categories@)),
    {
        let stem = Stem {
            pattern: chars_of(pattern),
            whole: true,
            categories: slice_to_vec(categories),
        };
        self.stems.push(stem);
        assert(self@ =~= old(self)@.push(whole_stem(pattern@, categories@)));
    }

    /// The index of the first row that applies to the utility that starts
    /// at index `from` of `text`.
    pub fn find_from(&self, text: &Vec<char>, from: usize) -> (r: Option<usize>)
        requires
            from <= text.len(),
        ensures
            match r {
                Some(i) => i < self.stems@.len() && first_match(self@, text@.skip(from as int))
                    == Some(i as int),
                None => first_match(self@, text@.skip(from as int)) is None,
            },
    {
        let ghost base = text@.skip(from as int);
        let mut i: usize = 0;
        while i < self.stems.len()
            invariant
                i <= self.stems.len(),
                from <= text.len(),
                base == text@.skip(from as int),
                forall|j: int| 0 <= j < i ==> !stem_matches(#[trigger] self@[j], base),
            decreases self.stems.len() - i,
        {
            if stem_matches_from(&self.stems[i], text, from) {
                proof {
                    assert(stem_matches(self@[i as int], base));
                    lemma_first_match(self@, base);
                }
                return Some(i);
            }
            i += 1;
        }
        proof {
            lemma_first_match(self@, base);
        }
        None
    }

    /// Whether the table knows the utility that starts at index `from` of
    /// `text`.
    pub fn recognizes_from(&self, text: &Vec<char>, from: usize) -> (r: bool)
        requires
            from <= text.len(),
        ensures
            r == recognizes(self@, text@.skip(from as int)),
    {
        match self.find_from(text, from) {
            Some(i) => {
                assert(self@[i as int] == self.stems@[i as int]@);
                self.stems[i].categories.len() > 0
            },
            None => false,
        }
    }

    /// The properties that the base utility `base` sets; none where the
    /// table does not know it.
    pub fn classify(&self, base: &str) -> (r: Vec<Category>)
        ensures
            r@ == classify(self@, base@),
    {
        let text = chars_of(base);
        assert(text@.skip(0) =~= text@);
        match self.find_from(&text, 0) {
            Some(i) => {
                assert(self@[i as int] == self.stems@[i as int]@);
                slice_to_vec(self.stems[i].categories.as_slice())
            },
            None => Vec::new(),
        }
    }
}

} // verus!
