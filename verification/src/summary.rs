//! Streaming summary statistics over fragment sizes.

use vstd::prelude::*;
use vstd::string::*;
use crate::error::ConfigError;
use crate::fragment::{fragment_size, magnitude, sizes_of};
use crate::text::{decimal, line_texts, push_decimal};

verus! {

/// Minimum, maximum, running mean and count of the fragment sizes observed.
/// Over no record at all, every field is 0.
#[derive(Clone, Copy, Debug, PartialEq, Eq, Structural)]
pub struct BamSummary {
    pub min: u64,
    pub max: u64,
    pub mean: u64,
    pub reads: u64,
}

/// Integer division that truncates toward zero, for a positive divisor.
pub open spec fn trunc_div(a: int, b: int) -> int {
    if a >= 0 {
        a / b
    } else {
        -((-a) / b)
    }
}

/// The running mean after the sizes were observed in order: each size moves
/// the mean by the truncated quotient of its distance from the mean and the
/// number of sizes seen so far.
pub open spec fn running_mean(sizes: Seq<nat>) -> int
    decreases sizes.len(),
{
    if sizes.len() == 0 {
        0
    } else {
        let before = running_mean(sizes.drop_last());
        before + trunc_div(sizes.last() - before, sizes.len() as int)
    }
}

/// `m` occurs among the sizes and none is smaller.
pub open spec fn is_least(sizes: Seq<nat>, m: nat) -> bool {
    &&& exists|i: int| 0 <= i < sizes.len() && sizes[i] == m
    &&& forall|i: int| 0 <= i < sizes.len() ==> m <= sizes[i]
}

/// `m` occurs among the sizes and none is larger.
pub open spec fn is_greatest(sizes: Seq<nat>, m: nat) -> bool {
    &&& exists|i: int| 0 <= i < sizes.len() && sizes[i] == m
    &&& forall|i: int| 0 <= i < sizes.len() ==> sizes[i] <= m
}

/// `r` is the summary of the sizes, observed in that order.
pub open spec fn describes(r: BamSummary, sizes: Seq<nat>) -> bool {
    &&& r.reads == sizes.len()
    &&& r.mean == running_mean(sizes)
    &&& sizes.len() == 0 ==> r.min == 0 && r.max == 0
    &&& sizes.len() > 0 ==> is_least(sizes, r.min as nat) && is_greatest(sizes, r.max as nat)
}

proof fn quotient_bounds(a: int, b: int)
    requires
        a >= 0,
        b >= 1,
    ensures
        0 <= a / b <= a,
{
    assert(0 <= a / b <= a) by (nonlinear_arith)
        requires
            a >= 0,
            b >= 1,
    ;
}

/// The running mean never leaves the range of the sizes observed.
pub proof fn running_mean_within(sizes: Seq<nat>, low: nat, high: nat)
    requires
        sizes.len() > 0,
        forall|i: int| 0 <= i < sizes.len() ==> low <= #[trigger] sizes[i] && sizes[i] <= high,
    ensures
        low <= running_mean(sizes) <= high,
    decreases sizes.len(),
{
    let rest = sizes.drop_last();
    let last = sizes.last();
    let n = sizes.len() as int;
    if rest.len() == 0 {
        assert(running_mean(rest) == 0);
        assert(n == 1);
        assert(trunc_div(last - 0, 1) == last);
    } else {
        assert forall|i: int| 0 <= i < rest.len() implies low <= #[trigger] rest[i] && rest[i] <= high by {
            assert(rest[i] == sizes[i]);
        }
        running_mean_within(rest, low, high);
        let before = running_mean(rest);
        if last >= before {
            quotient_bounds(last - before, n);
        } else {
            quotient_bounds(before - last, n);
        }
    }
}

/// A sequence of sizes has one summary only.
pub proof fn summary_is_unique(a: BamSummary, b: BamSummary, sizes: Seq<nat>)
    requires
        describes(a, sizes),
        describes(b, sizes),
    ensures
        a == b,
{
    if sizes.len() > 0 {
        let i = choose|i: int| 0 <= i < sizes.len() && sizes[i] == a.min as nat;
        let j = choose|j: int| 0 <= j < sizes.len() && sizes[j] == b.min as nat;
        assert(a.min <= sizes[j]);
        assert(b.min <= sizes[i]);
        let k = choose|k: int| 0 <= k < sizes.len() && sizes[k] == a.max as nat;
        let l = choose|l: int| 0 <= l < sizes.len() && sizes[l] == b.max as nat;
        assert(sizes[l] <= a.max);
        assert(sizes[k] <= b.max);
    }
}

/// The summary of a non-empty sequence has its mean between its minimum and
/// its maximum.
pub proof fn summary_mean_between(r: BamSummary, sizes: Seq<nat>)
    requires
        describes(r, sizes),
        sizes.len() > 0,
    ensures
        r.min <= r.mean <= r.max,
{
    running_mean_within(sizes, r.min as nat, r.max as nat);
}

/// The aggregator: nothing seen yet, or the summary of what was seen.
pub struct SummaryState {
    running: Option<BamSummary>,
    seen: Ghost<Seq<nat>>,
}

impl View for SummaryState {
    type V = Seq<nat>;

    /// The fragment sizes observed so far, in order.
    closed spec fn view(&self) -> Seq<nat> {
        self.seen@
    }
}

impl SummaryState {
    /// The state holds the summary of exactly what it has observed.
    pub closed spec fn wf(&self) -> bool {
        match self.running {
            None => self.seen@.len() == 0,
            Some(r) => self.seen@.len() > 0 && describes(r, self.seen@),
        }
    }

    /// An aggregator that has seen nothing.
    pub fn new() -> (state: SummaryState)
        ensures
            state.wf(),
            state@ == Seq::<nat>::empty(),
    {
        SummaryState { running: None, seen: Ghost(Seq::empty()) }
    }

    /// Number of records observed so far.
    pub fn count(&self) -> (n: u64)
        requires
            self.wf(),
        ensures
            n == self@.len(),
    {
        match self.running {
            None => 0,
            Some(r) => r.reads,
        }
    }

    /// Takes in one record's insert size. The first one sets minimum, maximum
    /// and mean; each later one moves them.
    pub fn observe(&mut self, insert_size: i64)
        requires
            old(self).wf(),
            old(self)@.len() < u64::MAX,
        ensures
            final(self).wf(),
            final(self)@ == old(self)@.push(magnitude(insert_size as int)),
    {
        let size = fragment_size(insert_size);
        let ghost before = self.seen@;
        let ghost after = before.push(size as nat);
        proof {
            assert(after.drop_last() =~= before);
            assert(after.last() == size);
            assert(after[before.len() as int] == size);
        }
        let next = match self.running {
            None => {
                proof {
                    assert(running_mean(before) == 0);
                    assert(trunc_div(size as int - 0, 1) == size);
                    assert(after[0] == size);
                }
                BamSummary { min: size, max: size, mean: size, reads: 1 }
            },
            Some(r) => {
                let count = r.reads + 1;
                proof {
                    running_mean_within(before, r.min as nat, r.max as nat);
                    if size >= r.mean {
                        quotient_bounds(size - r.mean, count as int);
                    } else {
                        quotient_bounds(r.mean - size, count as int);
                    }
                }
                let mean = if size >= r.mean {
                    r.mean + (size - r.mean) / count
                } else {
                    r.mean - (r.mean - size) / count
                };
                let min = if size < r.min {
                    size
                } else {
                    r.min
                };
                let max = if size > r.max {
                    size
                } else {
                    r.max
                };
                proof {
                    let i = choose|i: int| 0 <= i < before.len() && before[i] == r.min as nat;
                    let j = choose|j: int| 0 <= j < before.len() && before[j] == r.max as nat;
                    assert(after[i] == before[i]);
                    assert(after[j] == before[j]);
                    assert forall|k: int| 0 <= k < after.len() implies min <= #[trigger] after[k] && after[k] <= max by {
                        if k < before.len() {
                            assert(after[k] == before[k]);
                        }
                    }
                    assert(is_least(after, min as nat));
                    assert(is_greatest(after, max as nat));
                }
                BamSummary { min, max, mean, reads: count }
            },
        };
        self.running = Some(next);
        self.seen = Ghost(after);
    }

    /// The summary of what was observed; all zeros if nothing was.
    pub fn result(&self) -> (r: BamSummary)
        requires
            self.wf(),
        ensures
            describes(r, self@),
    {
        match self.running {
            None => BamSummary { min: 0, max: 0, mean: 0, reads: 0 },
            Some(r) => r,
        }
    }
}

/// Summary of the fragment sizes of the given insert sizes, taken in order.
pub fn summary(inserts: &Vec<i64>) -> (r: BamSummary)
    ensures
        describes(r, sizes_of(inserts@)),
{
    let mut state = SummaryState::new();
    let mut i: usize = 0;
    while i < inserts.len()
        invariant
            i <= inserts.len(),
            state.wf(),
            state@ == sizes_of(inserts@.take(i as int)),
        decreases inserts.len() - i,
    {
        proof {
            assert(sizes_of(inserts@.take(i as int)).push(magnitude(inserts[i as int] as int))
                =~= sizes_of(inserts@.take(i + 1)));
        }
        state.observe(inserts[i]);
        i += 1;
    }
    proof {
        assert(inserts@.take(i as int) =~= inserts@);
    }
    state.result()
}

/// What the report shows: every field, or one of them.
#[derive(Clone, Copy, Debug, PartialEq, Eq, Structural)]
pub enum SummaryField {
    All,
    Min,
    Max,
    Mean,
    Reads,
}

/// How many of the four flags are set.
pub open spec fn flags_set(min: bool, max: bool, mean: bool, reads: bool) -> nat {
    let a: nat = if min { 1 } else { 0 };
    let b: nat = if max { 1 } else { 0 };
    let c: nat = if mean { 1 } else { 0 };
    let d: nat = if reads { 1 } else { 0 };
    a + b + c + d
}

/// The field that the flags select: all of them where none is set, the one
/// that is set, and an error where more than one is.
pub fn select_field(min: bool, max: bool, mean: bool, reads: bool) -> (r: Result<
    SummaryField,
    ConfigError,
>)
    ensures
        flags_set(min, max, mean, reads) > 1 <==> r is Err,
        r is Err ==> r == Err::<SummaryField, ConfigError>(ConfigError::ConflictingFields),
        flags_set(min, max, mean, reads) == 0 ==> r == Ok::<SummaryField, ConfigError>(
            SummaryField::All,
        ),
        flags_set(min, max, mean, reads) == 1 && min ==> r == Ok::<SummaryField, ConfigError>(
            SummaryField::Min,
        ),
        flags_set(min, max, mean, reads) == 1 && max ==> r == Ok::<SummaryField, ConfigError>(
            SummaryField::Max,
        ),
        flags_set(min, max, mean, reads) == 1 && mean ==> r == Ok::<SummaryField, ConfigError>(
            SummaryField::Mean,
        ),
        flags_set(min, max, mean, reads) == 1 && reads ==> r == Ok::<SummaryField, ConfigError>(
            SummaryField::Reads,
        ),
{
    let mut set: u8 = 0;
    if min {
        set += 1;
    }
    if max {
        set += 1;
    }
    if mean {
        set += 1;
    }
    if reads {
        set += 1;
    }
    if set > 1 {
        Err(ConfigError::ConflictingFields)
    } else if min {
        Ok(SummaryField::Min)
    } else if max {
        Ok(SummaryField::Max)
    } else if mean {
        Ok(SummaryField::Mean)
    } else if reads {
        Ok(SummaryField::Reads)
    } else {
        Ok(SummaryField::All)
    }
}

/// The lines of the report: four labelled lines, or the bare number of the
/// selected field.
pub open spec fn report_text(s: BamSummary, field: SummaryField) -> Seq<Seq<char>> {
    match field {
        SummaryField::All => seq![
            "min: "@ + decimal(s.min as nat),
            "max: "@ + decimal(s.max as nat),
            "mean: "@ + decimal(s.mean as nat),
            "reads: "@ + decimal(s.reads as nat),
        ],
        SummaryField::Min => seq![decimal(s.min as nat)],
        SummaryField::Max => seq![decimal(s.max as nat)],
        SummaryField::Mean => seq![decimal(s.mean as nat)],
        SummaryField::Reads => seq![decimal(s.reads as nat)],
    }
}

fn labelled(label: &str, n: u64) -> (line: String)
    ensures
        line@ == label@ + decimal(n as nat),
{
    let mut line = String::from_str(label);
    push_decimal(&mut line, n);
    line
}

/// The report of a summary, one string per line, without line ends.
pub fn report_lines(s: &BamSummary, field: SummaryField) -> (lines: Vec<String>)
    ensures
        line_texts(lines@) == report_text(*s, field),
{
    let mut lines: Vec<String> = Vec::new();
    proof {
        reveal_strlit("");
    }
    match field {
        SummaryField::All => {
            lines.push(labelled("min: ", s.min));
            lines.push(labelled("max: ", s.max));
            lines.push(labelled("mean: ", s.mean));
            lines.push(labelled("reads: ", s.reads));
        },
        SummaryField::Min => {
            lines.push(labelled("", s.min));
        },
        SummaryField::Max => {
            lines.push(labelled("", s.max));
        },
        SummaryField::Mean => {
            lines.push(labelled("", s.mean));
        },
        SummaryField::Reads => {
            lines.push(labelled("", s.reads));
        },
    }
    lines
}

} // verus!
