//! Inclusive numeric ranges written `N` or `N-M`, and comma-separated lists
//! of them.

use vstd::prelude::*;
use crate::token::{
    chars_of, free_of, i64_of, join_with, lemma_split_join, lemma_split_nonempty, lemma_split_plain,
    lemma_split_sep_plain, parse_i64_chars, split_chars, split_on, views_of,
};

verus! {

/// An inclusive range of chapter or verse numbers. Nothing asks that
/// `start <= end`: a reversed range is kept and contains no number.
#[derive(Clone, Copy, Debug, PartialEq, Eq, Structural)]
pub struct NumRange {
    pub start: i64,
    pub end: i64,
}

impl NumRange {
    pub open spec fn contains(self, v: int) -> bool {
        self.start <= v <= self.end
    }

    /// Whether `v` lies between `start` and `end`, both included.
    pub fn includes(&self, v: i64) -> (r: bool)
        ensures
            r == self.contains(v as int),
    {
        self.start <= v && v <= self.end
    }
}

/// Why a range expression was refused.
#[derive(Clone, Copy, Debug, PartialEq, Eq, Structural)]
pub enum RangeError {
    /// More than one hyphen in one range.
    Malformed,
    /// A bound that is not a decimal `i64`.
    NotANumber,
}

/// What the range token `s` stands for: its hyphen-separated pieces must be
/// one number (a range of that number alone) or two (start and end).
pub open spec fn range_of(s: Seq<char>) -> Result<NumRange, RangeError> {
    let parts = split_on(s, '-');
    if parts.len() == 1 {
        match i64_of(parts[0]) {
            Some(a) => Ok(NumRange { start: a, end: a }),
            None => Err(RangeError::NotANumber),
        }
    } else if parts.len() == 2 {
        match (i64_of(parts[0]), i64_of(parts[1])) {
            (Some(a), Some(b)) => Ok(NumRange { start: a, end: b }),
            _ => Err(RangeError::NotANumber),
        }
    } else {
        Err(RangeError::Malformed)
    }
}

/// The ranges that the tokens `ts` stand for, in order, or the error of the
/// first token that is refused.
pub open spec fn ranges_of_tokens(ts: Seq<Seq<char>>) -> Result<Seq<NumRange>, RangeError>
    decreases ts.len(),
{
    if ts.len() == 0 {
        Ok(Seq::empty())
    } else {
        match ranges_of_tokens(ts.drop_last()) {
            Err(e) => Err(e),
            Ok(rs) => match range_of(ts.last()) {
                Err(e) => Err(e),
                Ok(r) => Ok(rs.push(r)),
            },
        }
    }
}

/// What the comma-separated list `s` of range tokens stands for.
pub open spec fn ranges_of(s: Seq<char>) -> Result<Seq<NumRange>, RangeError> {
    ranges_of_tokens(split_on(s, ','))
}

pub open spec fn list_result_view(r: Result<Vec<NumRange>, RangeError>) -> Result<Seq<NumRange>, RangeError> {
    match r {
        Ok(v) => Ok(v@),
        Err(e) => Err(e),
    }
}

fn parse_range_chars(s: &Vec<char>) -> (r: Result<NumRange, RangeError>)
    ensures
        r == range_of(s@),
{
    let parts = split_chars(s, '-');
    proof {
        lemma_split_nonempty(s@, '-');
    }
    assert(views_of(parts@)[0] == parts@[0]@);
    if parts.len() == 1 {
        match parse_i64_chars(&parts[0]) {
            Some(a) => Ok(NumRange { start: a, end: a }),
            None => Err(RangeError::NotANumber),
        }
    } else if parts.len() == 2 {
        assert(views_of(parts@)[1] == parts@[1]@);
        match (parse_i64_chars(&parts[0]), parse_i64_chars(&parts[1])) {
            (Some(a), Some(b)) => Ok(NumRange { start: a, end: b }),
            _ => Err(RangeError::NotANumber),
        }
    } else {
        Err(RangeError::Malformed)
    }
}

/// Parses one range token: `N` gives the range from `N` to `N`, `N-M` the
/// range from `N` to `M`, whatever their order.
pub fn parse_range(s: &str) -> (r: Result<NumRange, RangeError>)
    ensures
        r == range_of(s@),
{
    let cs = chars_of(s);
    parse_range_chars(&cs)
}

/// Parses a comma-separated list of range tokens into one range per token,
/// in the order written.
pub fn parse_ranges(s: &str) -> (r: Result<Vec<NumRange>, RangeError>)
    ensures
        list_result_view(r) == ranges_of(s@),
{
    let cs = chars_of(s);
    let tokens = split_chars(&cs, ',');
    let ghost ts = views_of(tokens@);
    let mut out: Vec<NumRange> = Vec::new();
    let mut i: usize = 0;
    assert(ts.take(0) =~= Seq::<Seq<char>>::empty());
    while i < tokens.len()
        invariant
            i <= tokens.len(),
            ts == views_of(tokens@),
            ts == split_on(cs@, ','),
            cs@ == s@,
            ranges_of_tokens(ts.take(i as int)) == Ok::<Seq<NumRange>, RangeError>(out@),
        decreases tokens.len() - i,
    {
        assert(ts.take(i + 1).drop_last() =~= ts.take(i as int));
        assert(ts[i as int] == tokens@[i as int]@);
        assert(ts.take(i + 1).last() == ts[i as int]);
        match parse_range_chars(&tokens[i]) {
            Ok(r) => out.push(r),
            Err(e) => {
                proof {
                    lemma_tokens_error_persists(ts, i as int + 1, e);
                    assert(ts.take(ts.len() as int) =~= ts);
                }
                return Err(e);
            },
        }
        i = i + 1;
    }
    assert(ts.take(ts.len() as int) =~= ts);
    Ok(out)
}

/// Once a token is refused, every longer list of tokens is refused with the
/// same error.
proof fn lemma_tokens_error_persists(ts: Seq<Seq<char>>, i: int, e: RangeError)
    requires
        0 <= i <= ts.len(),
        ranges_of_tokens(ts.take(i)) == Err::<Seq<NumRange>, RangeError>(e),
    ensures
        ranges_of_tokens(ts) == Err::<Seq<NumRange>, RangeError>(e),
    decreases ts.len() - i,
{
    if i < ts.len() {
        assert(ts.take(i + 1).drop_last() =~= ts.take(i));
        lemma_tokens_error_persists(ts, i + 1, e);
    } else {
        assert(ts.take(i) =~= ts);
    }
}

/// A token holding one number and no hyphen stands for the range from that
/// number to itself.
pub proof fn lemma_single_number(s: Seq<char>, n: i64)
    requires
        free_of(s, '-'),
        i64_of(s) == Some(n),
    ensures
        range_of(s) == Ok::<NumRange, RangeError>(NumRange { start: n, end: n }),
{
    lemma_split_plain(s, '-');
}

/// A token `N-M` stands for the range from `N` to `M`, in whichever order
/// the two numbers are.
pub proof fn lemma_two_numbers(a: Seq<char>, b: Seq<char>, n: i64, m: i64)
    requires
        free_of(a, '-'),
        free_of(b, '-'),
        i64_of(a) == Some(n),
        i64_of(b) == Some(m),
    ensures
        range_of(a + seq!['-'] + b) == Ok::<NumRange, RangeError>(NumRange { start: n, end: m }),
{
    lemma_split_plain(a, '-');
    lemma_split_sep_plain(a, b, '-');
    assert(split_on(a + seq!['-'] + b, '-') =~= seq![a, b]);
}

/// A token with more than two hyphen-separated pieces, or with a piece that
/// is not a number, is refused.
pub proof fn lemma_malformed_token_rejected(s: Seq<char>)
    requires
        split_on(s, '-').len() > 2 || exists|i: int|
            0 <= i < split_on(s, '-').len() && #[trigger] i64_of(split_on(s, '-')[i]) is None,
    ensures
        range_of(s) is Err,
        split_on(s, '-').len() > 2 ==> range_of(s) == Err::<NumRange, RangeError>(
            RangeError::Malformed,
        ),
{
    lemma_split_nonempty(s, '-');
}

pub open spec fn range_value(t: Seq<char>) -> NumRange {
    range_of(t)->Ok_0
}

proof fn lemma_tokens_all_ok(ts: Seq<Seq<char>>)
    requires
        forall|i: int| 0 <= i < ts.len() ==> #[trigger] range_of(ts[i]) is Ok,
    ensures
        ranges_of_tokens(ts) == Ok::<Seq<NumRange>, RangeError>(ts.map_values(|t| range_value(t))),
    decreases ts.len(),
{
    if ts.len() > 0 {
        let init = ts.drop_last();
        assert forall|i: int| 0 <= i < init.len() implies #[trigger] range_of(init[i]) is Ok by {
            assert(init[i] == ts[i]);
        }
        lemma_tokens_all_ok(init);
        assert(range_of(ts.last()) is Ok) by {
            assert(ts.last() == ts[ts.len() - 1]);
        }
        assert(init.map_values(|t| range_value(t)).push(range_value(ts.last()))
            =~= ts.map_values(|t| range_value(t)));
    } else {
        assert(ts.map_values(|t| range_value(t)) =~= Seq::<NumRange>::empty());
    }
}

/// `k` valid range tokens joined by commas stand for exactly `k` ranges,
/// the range of each token in the order written.
pub proof fn lemma_list_of_tokens(ts: Seq<Seq<char>>)
    requires
        ts.len() >= 1,
        forall|i: int| 0 <= i < ts.len() ==> free_of(#[trigger] ts[i], ','),
        forall|i: int| 0 <= i < ts.len() ==> #[trigger] range_of(ts[i]) is Ok,
    ensures
        ranges_of(join_with(ts, ',')) is Ok,
        ranges_of(join_with(ts, ','))->Ok_0.len() == ts.len(),
        forall|i: int|
            0 <= i < ts.len() ==> Ok::<NumRange, RangeError>(
                #[trigger] ranges_of(join_with(ts, ','))->Ok_0[i],
            ) == range_of(ts[i]),
{
    lemma_split_join(ts, ',');
    lemma_tokens_all_ok(ts);
}

} // verus!
