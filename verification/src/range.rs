//! Closed ranges of fragment sizes and the names derived from them.

use vstd::prelude::*;
use vstd::string::*;
use crate::error::ConfigError;
use crate::text::{push_signed_decimal, signed_decimal};

verus! {

/// A closed range `[min, max]` of fragment sizes, with `min <= max`.
#[derive(Clone, Copy, Debug, PartialEq, Eq)]
pub struct FragmentRange {
    min: i64,
    max: i64,
}

/// The smaller of two integers.
pub open spec fn lesser(a: int, b: int) -> int {
    if a <= b {
        a
    } else {
        b
    }
}

/// The larger of two integers.
pub open spec fn greater(a: int, b: int) -> int {
    if a <= b {
        b
    } else {
        a
    }
}

impl FragmentRange {
    #[verifier::type_invariant]
    spec fn ordered(self) -> bool {
        self.min <= self.max
    }

    /// The lower bound.
    pub closed spec fn low(&self) -> int {
        self.min as int
    }

    /// The upper bound.
    pub closed spec fn high(&self) -> int {
        self.max as int
    }

    /// The size lies within the range, bounds included.
    pub open spec fn holds(&self, size: nat) -> bool {
        self.low() <= size <= self.high()
    }

    /// The name suffix of the range: `_`, the lower bound, `to`, the upper
    /// bound.
    pub open spec fn spec_suffix(&self) -> Seq<char> {
        "_"@ + signed_decimal(self.low()) + "to"@ + signed_decimal(self.high())
    }

    /// The default range, from 0 to 1000.
    pub fn new() -> (range: FragmentRange)
        ensures
            range.low() == 0,
            range.high() == 1000,
    {
        FragmentRange { min: 0, max: 1000 }
    }

    /// The range between two bounds given in either order.
    pub fn from_bounds(a: i64, b: i64) -> (range: FragmentRange)
        ensures
            range.low() == lesser(a as int, b as int),
            range.high() == greater(a as int, b as int),
    {
        if a <= b {
            FragmentRange { min: a, max: b }
        } else {
            FragmentRange { min: b, max: a }
        }
    }

    /// The lower bound.
    pub fn min(&self) -> (bound: i64)
        ensures
            bound == self.low(),
            bound <= self.high(),
    {
        proof {
            use_type_invariant(self);
        }
        self.min
    }

    /// The upper bound.
    pub fn max(&self) -> (bound: i64)
        ensures
            bound == self.high(),
            self.low() <= bound,
    {
        proof {
            use_type_invariant(self);
        }
        self.max
    }

    /// Whether a fragment size lies within the range, bounds included.
    pub fn contains(&self, size: u64) -> (inside: bool)
        ensures
            inside == self.holds(size as nat),
    {
        if self.max < 0 {
            false
        } else {
            size <= self.max as u64 && (self.min < 0 || size >= self.min as u64)
        }
    }

    /// The name suffix of the range, such as `_20to120`.
    pub fn suffix(&self) -> (text: String)
        ensures
            text@ == self.spec_suffix(),
    {
        let mut text = String::from_str("_");
        push_signed_decimal(&mut text, self.min);
        text.append("to");
        push_signed_decimal(&mut text, self.max);
        text
    }
}

/// `ranges` are the consecutive pairs of `split`, each normalized, in the
/// order of the pairs. A last element without a partner gives no range.
pub open spec fn pairs_of(ranges: Seq<FragmentRange>, split: Seq<i64>) -> bool {
    &&& ranges.len() == split.len() / 2
    &&& forall|i: int|
        0 <= i < ranges.len() ==> (#[trigger] ranges[i]).low() == lesser(
            split[2 * i] as int,
            split[2 * i + 1] as int,
        ) && ranges[i].high() == greater(split[2 * i] as int, split[2 * i + 1] as int)
}

/// The ranges that a flat list of bounds declares: one per consecutive
/// pair, in the order of the pairs, the two bounds of a pair in either
/// order. The order of the ranges is that of the list and is never changed.
pub fn prepare_split_ranges(split: &Vec<i64>) -> (ranges: Vec<FragmentRange>)
    ensures
        pairs_of(ranges@, split@),
{
    let mut ranges: Vec<FragmentRange> = Vec::new();
    let pairs: usize = split.len() / 2;
    let mut i: usize = 0;
    while i < pairs
        invariant
            i <= pairs,
            pairs == split.len() / 2,
            ranges@.len() == i,
            forall|k: int|
                0 <= k < i ==> (#[trigger] ranges@[k]).low() == lesser(
                    split@[2 * k] as int,
                    split@[2 * k + 1] as int,
                ) && ranges@[k].high() == greater(split@[2 * k] as int, split@[2 * k + 1] as int),
        decreases pairs - i,
    {
        let range = FragmentRange::from_bounds(split[2 * i], split[2 * i + 1]);
        ranges.push(range);
        i += 1;
    }
    ranges
}

/// The ranges that a flat list of bounds declares, or an error where the
/// list has an odd number of elements.
pub fn checked_split_ranges(split: &Vec<i64>) -> (r: Result<Vec<FragmentRange>, ConfigError>)
    ensures
        r is Err <==> split@.len() % 2 == 1,
        r matches Err(e) ==> e == ConfigError::OddRangeList,
        r matches Ok(ranges) ==> pairs_of(ranges@, split@),
{
    if split.len() % 2 == 1 {
        Err(ConfigError::OddRangeList)
    } else {
        Ok(prepare_split_ranges(split))
    }
}

/// A range built from two bounds is the same whichever comes first.
pub proof fn bounds_commute(a: int, b: int)
    ensures
        lesser(a, b) == lesser(b, a),
        greater(a, b) == greater(b, a),
        lesser(a, b) <= greater(a, b),
{
}

} // verus!
