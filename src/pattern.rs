//! Patterns over characters, the language each one denotes, and a matcher
//! that decides, for two positions of an input, whether the text between them
//! is in a pattern's language.
//!
//! Positions `0..=n` index an input of `n` characters; the end-of-input
//! pseudo-symbol stands at position `n`, so a match that consumes it ends at
//! `n + 1`.

use vstd::prelude::*;
use crate::interval::{IntervalSet, covered};

verus! {

/// A lexical pattern.
#[derive(Debug)]
pub enum Pattern {
    /// One character whose code lies in `lo..=hi`.
    Range(u64, u64),
    /// The first pattern, then the second.
    Then(Box<Pattern>, Box<Pattern>),
    /// Either pattern.
    Or(Box<Pattern>, Box<Pattern>),
    /// At least `min` and at most `max` (unbounded when `None`) repetitions.
    Repeat(Box<Pattern>, usize, Option<usize>),
    /// Any one character (not the end of input).
    Any,
    /// The end of input.
    Eof,
}

/// A pattern was malformed.
#[derive(Clone, Copy, Debug, PartialEq, Eq)]
pub enum DefinitionError {
    /// A character range whose lower end lies above its upper end.
    InvertedRange,
    /// A repetition whose minimum lies above its maximum.
    BadRepeat,
}

impl Pattern {
    /// The character `c`.
    pub fn char(c: char) -> (r: Pattern)
        ensures
            r == Pattern::Range(c as u64, c as u64),
    {
        Pattern::Range(c as u64, c as u64)
    }

    /// Any character from `lo` to `hi`; an inverted range is rejected.
    pub fn range(lo: char, hi: char) -> (r: Result<Pattern, DefinitionError>)
        ensures
            (lo as u64) <= (hi as u64) ==> r == Ok::<Pattern, DefinitionError>(
                Pattern::Range(lo as u64, hi as u64),
            ),
            (lo as u64) > (hi as u64) ==> r == Err::<Pattern, DefinitionError>(
                DefinitionError::InvertedRange,
            ),
    {
        if (lo as u64) <= (hi as u64) {
            Ok(Pattern::Range(lo as u64, hi as u64))
        } else {
            Err(DefinitionError::InvertedRange)
        }
    }

    /// Any one character.
    pub fn any() -> (r: Pattern)
        ensures
            r == Pattern::Any,
    {
        Pattern::Any
    }

    /// The end of input.
    pub fn eof() -> (r: Pattern)
        ensures
            r == Pattern::Eof,
    {
        Pattern::Eof
    }

    /// This pattern, then `next`.
    pub fn followed_by(self, next: Pattern) -> (r: Pattern)
        ensures
            r == Pattern::Then(Box::new(self), Box::new(next)),
    {
        Pattern::Then(Box::new(self), Box::new(next))
    }

    /// This pattern or `other`.
    pub fn or(self, other: Pattern) -> (r: Pattern)
        ensures
            r == Pattern::Or(Box::new(self), Box::new(other)),
    {
        Pattern::Or(Box::new(self), Box::new(other))
    }

    /// Between `min` and `max` repetitions (no upper bound when `max` is
    /// `None`); a minimum above the maximum is rejected.
    pub fn repeat(self, min: usize, max: Option<usize>) -> (r: Result<Pattern, DefinitionError>)
        ensures
            (max is None || min <= max->0) ==> r == Ok::<Pattern, DefinitionError>(
                Pattern::Repeat(Box::new(self), min, max),
            ),
            (max is Some && min > max->0) ==> r == Err::<Pattern, DefinitionError>(
                DefinitionError::BadRepeat,
            ),
    {
        match max {
            Some(m) => {
                if min > m {
                    return Err(DefinitionError::BadRepeat);
                }
            },
            None => {},
        }
        Ok(Pattern::Repeat(Box::new(self), min, max))
    }

    /// Zero or more repetitions.
    pub fn many(self) -> (r: Pattern)
        ensures
            r == Pattern::Repeat(Box::new(self), 0, None),
    {
        Pattern::Repeat(Box::new(self), 0, None)
    }

    /// One or more repetitions.
    pub fn many1(self) -> (r: Pattern)
        ensures
            r == Pattern::Repeat(Box::new(self), 1, None),
    {
        Pattern::Repeat(Box::new(self), 1, None)
    }

    /// Zero or one occurrence.
    pub fn opt(self) -> (r: Pattern)
        ensures
            r == Pattern::Repeat(Box::new(self), 0, Some(1)),
    {
        Pattern::Repeat(Box::new(self), 0, Some(1))
    }

    /// A copy of the pattern.
    pub fn duplicate(&self) -> (r: Pattern)
        ensures
            r == *self,
        decreases self,
    {
        match self {
            Pattern::Range(lo, hi) => Pattern::Range(*lo, *hi),
            Pattern::Then(a, b) => Pattern::Then(Box::new(a.duplicate()), Box::new(b.duplicate())),
            Pattern::Or(a, b) => Pattern::Or(Box::new(a.duplicate()), Box::new(b.duplicate())),
            Pattern::Repeat(a, min, max) => Pattern::Repeat(Box::new(a.duplicate()), *min, *max),
            Pattern::Any => Pattern::Any,
            Pattern::Eof => Pattern::Eof,
        }
    }
}

/// Every range is non-inverted and every repetition's minimum is at most its
/// maximum: what the constructors `range` and `repeat` guarantee.
pub open spec fn well_formed(p: Pattern) -> bool
    decreases p,
{
    match p {
        Pattern::Range(lo, hi) => lo <= hi,
        Pattern::Then(a, b) => well_formed(*a) && well_formed(*b),
        Pattern::Or(a, b) => well_formed(*a) && well_formed(*b),
        Pattern::Repeat(a, min, max) => well_formed(*a) && (max is None || min <= max->0),
        Pattern::Any => true,
        Pattern::Eof => true,
    }
}

/// Whether `p` is well formed.
pub fn is_well_formed(p: &Pattern) -> (r: bool)
    ensures
        r == well_formed(*p),
    decreases p,
{
    match p {
        Pattern::Range(lo, hi) => *lo <= *hi,
        Pattern::Then(a, b) => is_well_formed(a) && is_well_formed(b),
        Pattern::Or(a, b) => is_well_formed(a) && is_well_formed(b),
        Pattern::Repeat(a, min, max) => is_well_formed(a) && match max {
            Some(m) => *min <= *m,
            None => true,
        },
        Pattern::Any => true,
        Pattern::Eof => true,
    }
}

/// Whether the input `s`, from position `i` to position `j`, is in the
/// language of `p`.
pub open spec fn in_language(p: Pattern, s: Seq<char>, i: int, j: int) -> bool
    decreases p, 1int, 0int, 0int,
{
    match p {
        Pattern::Range(lo, hi) => 0 <= i < s.len() && j == i + 1 && lo <= (s[i] as u64) <= hi,
        Pattern::Then(_, _) => split_then(p, s, i, j, i),
        Pattern::Or(a, b) => in_language(*a, s, i, j) || in_language(*b, s, i, j),
        Pattern::Repeat(a, min, max) => match max {
            Some(m) => repeat_upto(*a, min as nat, m as nat, s, i, j),
            None => repeat_then_star(*a, min as nat, s, i, j, i),
        },
        Pattern::Any => 0 <= i < s.len() && j == i + 1,
        Pattern::Eof => i == s.len() && i < j && j == i + 1,
    }
}

/// For `p` a sequence `a` then `b`: some split point `m` in `k..=j` has `a`
/// matching from `i` to `m` and `b` from `m` to `j`.
pub open spec fn split_then(p: Pattern, s: Seq<char>, i: int, j: int, k: int) -> bool
    decreases p, 0int, j - k + 1, 0int,
{
    if k > j {
        false
    } else {
        match p {
            Pattern::Then(a, b) => (in_language(*a, s, i, k) && in_language(*b, s, k, j)) || split_then(
                p,
                s,
                i,
                j,
                k + 1,
            ),
            _ => false,
        }
    }
}

/// Whether `s` from `i` to `j` is exactly `n` consecutive matches of `p`.
pub open spec fn repeated(p: Pattern, n: nat, s: Seq<char>, i: int, j: int) -> bool
    decreases p, 2 * n + 4, 0int, 0int,
{
    if n == 0 {
        i == j
    } else {
        split_repeated(p, n, s, i, j, i)
    }
}

/// Some split point `m` in `k..=j` has `n - 1` matches of `p` from `i` to `m`
/// and one more from `m` to `j`.
pub open spec fn split_repeated(p: Pattern, n: nat, s: Seq<char>, i: int, j: int, k: int) -> bool
    decreases p, 2 * n + 3, j - k + 1, 0int,
{
    if k > j || n == 0 {
        false
    } else {
        (repeated(p, (n - 1) as nat, s, i, k) && in_language(p, s, k, j)) || split_repeated(
            p,
            n,
            s,
            i,
            j,
            k + 1,
        )
    }
}

/// Some count in `n..=m` of consecutive matches of `p` spans `i` to `j`.
pub open spec fn repeat_upto(p: Pattern, n: nat, m: nat, s: Seq<char>, i: int, j: int) -> bool
    decreases p, 2 * m + 5, m - n, 0int,
{
    if n > m {
        false
    } else {
        repeated(p, n, s, i, j) || (n < m && repeat_upto(p, n + 1, m, s, i, j))
    }
}

/// Some split point `k'` in `k..=j` has `min` matches of `p` from `i` to `k'`
/// and any number of further matches from `k'` to `j`.
pub open spec fn repeat_then_star(p: Pattern, min: nat, s: Seq<char>, i: int, j: int, k: int) -> bool
    decreases p, 2 * min + 5, j - k + 1, 0int,
{
    if k > j {
        false
    } else {
        (repeated(p, min, s, i, k) && star(p, s, k, j)) || repeat_then_star(p, min, s, i, j, k + 1)
    }
}

/// Whether `s` from `i` to `j` is any number of matches of `p`. Matches that
/// consume nothing add nothing, so only non-empty steps are taken.
pub open spec fn star(p: Pattern, s: Seq<char>, i: int, j: int) -> bool
    decreases p, 2int, j - i, j - i + 1,
{
    if i == j {
        true
    } else if i > j {
        false
    } else {
        split_star(p, s, i, j, i + 1)
    }
}

/// Some point `m` in `k..=j` (with `i < k`) has one match of `p` from `i` to
/// `m` and any number from `m` to `j`.
pub open spec fn split_star(p: Pattern, s: Seq<char>, i: int, j: int, k: int) -> bool
    decreases p, 2int, j - i, j - k + 1,
{
    if k > j || k <= i {
        false
    } else {
        (in_language(p, s, i, k) && star(p, s, k, j)) || split_star(p, s, i, j, k + 1)
    }
}

/// Whether `s[i..j]` (with the end-of-input symbol at `s.len()`) is in the
/// language of `p`.
pub fn is_match(p: &Pattern, s: &Vec<char>, i: usize, j: usize) -> (r: bool)
    requires
        j < usize::MAX,
    ensures
        r == in_language(*p, s@, i as int, j as int),
    decreases *p, 1int, 0int, 0int,
{
    match p {
        Pattern::Range(lo, hi) => i < s.len() && j == i + 1 && *lo <= (s[i] as u64) && (s[i] as u64)
            <= *hi,
        Pattern::Then(_, _) => then_from(p, s, i, j, i),
        Pattern::Or(a, b) => is_match(a, s, i, j) || is_match(b, s, i, j),
        Pattern::Repeat(a, min, max) => match max {
            Some(m) => repeat_upto_exec(a, *min, *m, s, i, j),
            None => repeat_star_from(a, *min, s, i, j, i),
        },
        Pattern::Any => i < s.len() && j == i + 1,
        Pattern::Eof => i == s.len() && i < j && j == i + 1,
    }
}

fn then_from(p: &Pattern, s: &Vec<char>, i: usize, j: usize, k: usize) -> (r: bool)
    requires
        j < usize::MAX,
    ensures
        r == split_then(*p, s@, i as int, j as int, k as int),
    decreases *p, 0int, j - k + 1, 0int,
{
    if k > j {
        false
    } else {
        match p {
            Pattern::Then(a, b) => (is_match(a, s, i, k) && is_match(b, s, k, j)) || then_from(
                p,
                s,
                i,
                j,
                k + 1,
            ),
            _ => false,
        }
    }
}

fn repeated_exec(p: &Pattern, n: usize, s: &Vec<char>, i: usize, j: usize) -> (r: bool)
    requires
        j < usize::MAX,
    ensures
        r == repeated(*p, n as nat, s@, i as int, j as int),
    decreases *p, 2 * n + 4, 0int, 0int,
{
    if n == 0 {
        i == j
    } else {
        split_repeated_exec(p, n, s, i, j, i)
    }
}

fn split_repeated_exec(p: &Pattern, n: usize, s: &Vec<char>, i: usize, j: usize, k: usize) -> (r:
    bool)
    requires
        j < usize::MAX,
    ensures
        r == split_repeated(*p, n as nat, s@, i as int, j as int, k as int),
    decreases *p, 2 * n + 3, j - k + 1, 0int,
{
    if k > j || n == 0 {
        false
    } else {
        (repeated_exec(p, n - 1, s, i, k) && is_match(p, s, k, j)) || split_repeated_exec(
            p,
            n,
            s,
            i,
            j,
            k + 1,
        )
    }
}

fn repeat_upto_exec(p: &Pattern, n: usize, m: usize, s: &Vec<char>, i: usize, j: usize) -> (r:
    bool)
    requires
        j < usize::MAX,
    ensures
        r == repeat_upto(*p, n as nat, m as nat, s@, i as int, j as int),
    decreases *p, 2 * m + 5, m - n, 0int,
{
    if n > m {
        false
    } else {
        repeated_exec(p, n, s, i, j) || (n < m && repeat_upto_exec(p, n + 1, m, s, i, j))
    }
}

fn repeat_star_from(p: &Pattern, min: usize, s: &Vec<char>, i: usize, j: usize, k: usize) -> (r:
    bool)
    requires
        j < usize::MAX,
    ensures
        r == repeat_then_star(*p, min as nat, s@, i as int, j as int, k as int),
    decreases *p, 2 * min + 5, j - k + 1, 0int,
{
    if k > j {
        false
    } else {
        (repeated_exec(p, min, s, i, k) && star_exec(p, s, k, j)) || repeat_star_from(
            p,
            min,
            s,
            i,
            j,
            k + 1,
        )
    }
}

fn star_exec(p: &Pattern, s: &Vec<char>, i: usize, j: usize) -> (r: bool)
    requires
        j < usize::MAX,
    ensures
        r == star(*p, s@, i as int, j as int),
    decreases *p, 2int, j - i, j - i + 1,
{
    if i == j {
        true
    } else if i > j {
        false
    } else {
        split_star_exec(p, s, i, j, i + 1)
    }
}

fn split_star_exec(p: &Pattern, s: &Vec<char>, i: usize, j: usize, k: usize) -> (r: bool)
    requires
        j < usize::MAX,
    ensures
        r == split_star(*p, s@, i as int, j as int, k as int),
    decreases *p, 2int, j - i, j - k + 1,
{
    if k > j || k <= i {
        false
    } else {
        (is_match(p, s, i, k) && star_exec(p, s, k, j)) || split_star_exec(p, s, i, j, k + 1)
    }
}

/// Whether the whole of `s`, without the end-of-input symbol, is in the
/// language of `p`.
pub fn accepts(p: &Pattern, s: &Vec<char>) -> (r: bool)
    requires
        s@.len() < usize::MAX,
    ensures
        r == in_language(*p, s@, 0, s@.len() as int),
{
    is_match(p, s, 0, s.len())
}

/// The alternation of the character ranges `rs[k..]`, first range first.
pub open spec fn range_chain(rs: Seq<(u64, u64)>, k: int) -> Pattern
    decreases rs.len() - k,
{
    if k + 1 >= rs.len() {
        Pattern::Range(rs[k].0, rs[k].1)
    } else {
        Pattern::Or(Box::new(Pattern::Range(rs[k].0, rs[k].1)), Box::new(range_chain(rs, k + 1)))
    }
}

/// The alternation of `rs[k..]` matches one character whose code lies in one
/// of those ranges.
proof fn lemma_range_chain(rs: Seq<(u64, u64)>, k: int, s: Seq<char>, i: int, j: int)
    requires
        0 <= k < rs.len(),
    ensures
        in_language(range_chain(rs, k), s, i, j) <==> (0 <= i < s.len() && j == i + 1 && exists|m: int|
            #![trigger rs[m]] k <= m < rs.len() && rs[m].0 <= (s[i] as u64) <= rs[m].1),
    decreases rs.len() - k,
{
    if 0 <= i < s.len() && j == i + 1 && rs[k].0 <= (s[i] as u64) <= rs[k].1 {
        assert(k <= k < rs.len() && rs[k].0 <= (s[i] as u64) <= rs[k].1);
    }
    if k + 1 >= rs.len() {
        assert(range_chain(rs, k) == Pattern::Range(rs[k].0, rs[k].1));
        assert(in_language(range_chain(rs, k), s, i, j) == (0 <= i < s.len() && j == i + 1 && rs[k].0 <= (s[i] as u64) <= rs[k].1));
        if exists|m: int| #![trigger rs[m]] k <= m < rs.len() && rs[m].0 <= (s[i] as u64) <= rs[m].1 {
            let m = choose|m: int| #![trigger rs[m]] k <= m < rs.len() && rs[m].0 <= (s[i] as u64) <= rs[m].1;
            assert(m == k);
        }
    }
    if k + 1 < rs.len() {
        lemma_range_chain(rs, k + 1, s, i, j);
        assert(in_language(range_chain(rs, k), s, i, j) == (in_language(Pattern::Range(rs[k].0, rs[k].1), s, i, j) || in_language(range_chain(rs, k + 1), s, i, j)));
        if 0 <= i < s.len() && j == i + 1 {
            let c = s[i] as u64;
            if exists|m: int| #![trigger rs[m]] k <= m < rs.len() && rs[m].0 <= c <= rs[m].1 {
                let m = choose|m: int| #![trigger rs[m]] k <= m < rs.len() && rs[m].0 <= c <= rs[m].1;
                if m > k {
                    assert(k + 1 <= m < rs.len() && rs[m].0 <= c <= rs[m].1);
                }
            }
        }
    }
}

fn chain_from(rs: &Vec<(u64, u64)>, k: usize) -> (r: Pattern)
    requires
        k < rs@.len(),
    ensures
        r == range_chain(rs@, k as int),
    decreases rs@.len() - k,
{
    let (lo, hi) = rs[k];
    if k >= rs.len() - 1 {
        Pattern::Range(lo, hi)
    } else {
        Pattern::Or(Box::new(Pattern::Range(lo, hi)), Box::new(chain_from(rs, k + 1)))
    }
}

/// The character class of `set`: a pattern matching one character whose code
/// lies in the set. `None` for the empty set, which no pattern of one
/// character denotes.
pub fn class(set: &IntervalSet) -> (r: Option<Pattern>)
    requires
        set.wf(),
    ensures
        r is None <==> set@ == Set::<int>::empty(),
        r matches Some(p) ==> forall|s: Seq<char>, i: int, j: int|
            #[trigger] in_language(p, s, i, j) <==> (0 <= i < s.len() && j == i + 1 && set@.contains(
                (s[i] as u64) as int,
            )),
{
    let rs = set.ranges();
    if rs.len() == 0 {
        assert(set@ =~= Set::<int>::empty());
        None
    } else {
        let p = chain_from(&rs, 0);
        proof {
            assert(covered(rs@).contains(rs@[0].0 as int));
            assert forall|s: Seq<char>, i: int, j: int|
                #[trigger] in_language(p, s, i, j) <==> (0 <= i < s.len() && j == i + 1 && set@.contains(
                    (s[i] as u64) as int,
                )) by {
                lemma_range_chain(rs@, 0, s, i, j);
                if 0 <= i < s.len() && j == i + 1 {
                    let c = (s[i] as u64) as int;
                    if covered(rs@).contains(c) {
                        let m = choose|m: int| #![trigger rs@[m]] 0 <= m < rs@.len() && rs@[m].0 <= c <= rs@[m].1;
                        assert(rs@[m].0 <= (s[i] as u64) <= rs@[m].1);
                    }
                }
            }
        }
        Some(p)
    }
}

} // verus!
