//! The two-sided threshold test on fragment sizes.

use vstd::prelude::*;
use crate::fragment::{magnitude, AlignmentRecord};

verus! {

/// Bounds on the fragment size: a lower bound, and an upper bound where one
/// is wanted. Both are inclusive.
#[derive(Clone, Copy, Debug, PartialEq, Eq)]
pub struct SizeFilter {
    /// Keep sizes greater than or equal to this.
    pub above: i64,
    /// Keep sizes less than or equal to this, where it is given.
    pub below: Option<i64>,
}

impl SizeFilter {
    /// The size passes: it is at least `above`, and at most `below` where
    /// that is given.
    pub open spec fn keeps(&self, size: nat) -> bool {
        &&& self.above <= size
        &&& self.below matches Some(limit) ==> size <= limit
    }

    /// The record passes by its fragment size.
    pub open spec fn accepts(&self, record: AlignmentRecord) -> bool {
        self.keeps(record.spec_size())
    }

    /// The filter that every record passes: from 0, with no upper bound.
    pub fn new() -> (every: SizeFilter)
        ensures
            every == (SizeFilter { above: 0, below: None }),
    {
        SizeFilter { above: 0, below: None }
    }

    /// Whether a fragment size passes.
    pub fn keep(&self, size: u64) -> (kept: bool)
        ensures
            kept == self.keeps(size as nat),
    {
        let over = self.above < 0 || size >= self.above as u64;
        match self.below {
            Some(limit) => over && limit >= 0 && size <= limit as u64,
            None => over,
        }
    }
}

/// The test of a filter as a predicate on records.
pub open spec fn acceptance(args: SizeFilter) -> spec_fn(AlignmentRecord) -> bool {
    |record: AlignmentRecord| args.accepts(record)
}

/// The records that pass, in the order of the input.
pub open spec fn kept(args: SizeFilter, records: Seq<AlignmentRecord>) -> Seq<AlignmentRecord> {
    records.filter(acceptance(args))
}

/// Whether a record passes the filter, by the absolute value of its insert
/// size.
pub fn filter(args: &SizeFilter, record: &AlignmentRecord) -> (keep: bool)
    ensures
        keep == args.accepts(*record),
{
    args.keep(record.size())
}

/// The records that pass the filter, in the order of the input.
pub fn filter_records(args: &SizeFilter, records: &Vec<AlignmentRecord>) -> (out: Vec<
    AlignmentRecord,
>)
    ensures
        out@ == kept(*args, records@),
{
    let mut out: Vec<AlignmentRecord> = Vec::new();
    let mut i: usize = 0;
    proof {
        reveal(Seq::filter);
    }
    while i < records.len()
        invariant
            i <= records.len(),
            out@ == kept(*args, records@.take(i as int)),
        decreases records.len() - i,
    {
        proof {
            reveal(Seq::filter);
            let next = records@.take(i + 1);
            assert(next.drop_last() =~= records@.take(i as int));
            assert(next.last() == records@[i as int]);
        }
        if filter(args, &records[i]) {
            out.push(records[i]);
        }
        i += 1;
    }
    proof {
        assert(records@.take(i as int) =~= records@);
    }
    out
}

/// Whether a record passes depends on the absolute value of its insert size
/// only: two records whose insert sizes differ in sign at most pass together
/// or not at all.
pub proof fn filter_ignores_sign(args: SizeFilter, a: AlignmentRecord, b: AlignmentRecord)
    requires
        magnitude(a.insert_size as int) == magnitude(b.insert_size as int),
    ensures
        args.accepts(a) == args.accepts(b),
{
}

/// With a lower bound of 0 and no upper bound every record passes, so the
/// filter hands back its input.
pub proof fn open_filter_keeps_all(records: Seq<AlignmentRecord>)
    ensures
        kept(SizeFilter { above: 0, below: None }, records) == records,
    decreases records.len(),
{
    reveal(Seq::filter);
    let args = SizeFilter { above: 0, below: None };
    if records.len() > 0 {
        open_filter_keeps_all(records.drop_last());
        assert(args.accepts(records.last()));
        assert(records.drop_last().push(records.last()) =~= records);
    }
}

/// Every record kept is a record of the input that passes, and no record of
/// the input that passes is lost.
pub proof fn kept_is_exact(args: SizeFilter, records: Seq<AlignmentRecord>)
    ensures
        kept(args, records).len() <= records.len(),
        forall|i: int|
            0 <= i < kept(args, records).len() ==> args.accepts(#[trigger] kept(args, records)[i])
                && records.contains(kept(args, records)[i]),
        forall|i: int|
            0 <= i < records.len() && args.accepts(#[trigger] records[i]) ==> kept(
                args,
                records,
            ).contains(records[i]),
{
    let pass = acceptance(args);
    records.lemma_filter_len(pass);
    assert forall|i: int| 0 <= i < kept(args, records).len() implies args.accepts(
        #[trigger] kept(args, records)[i],
    ) && records.contains(kept(args, records)[i]) by {
        records.lemma_filter_pred(pass, i);
        assert(kept(args, records).contains(kept(args, records)[i]));
        records.lemma_filter_contains_rev(pass, kept(args, records)[i]);
    }
    assert forall|i: int| 0 <= i < records.len() && args.accepts(
        #[trigger] records[i],
    ) implies kept(args, records).contains(records[i]) by {
        records.lemma_filter_contains(pass, i);
    }
}

} // verus!
