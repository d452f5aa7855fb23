//! Alignment records and the fragment size derived from them.

use vstd::prelude::*;

verus! {

/// The fields of one alignment record that the analytics read.
#[derive(Clone, Copy, Debug, PartialEq, Eq, Structural)]
pub struct AlignmentRecord {
    /// Signed insert size; negative for reverse-strand orientation.
    pub insert_size: i64,
    /// Reference sequence id.
    pub tid: i32,
    /// Leftmost position of this read.
    pub pos: i64,
    /// Leftmost position of the mate.
    pub mpos: i64,
    /// Both mates aligned with the expected orientation and distance.
    pub proper_pair: bool,
    /// This read is the first of its template.
    pub first_in_template: bool,
    /// Number of cigar operations.
    pub cigar_len: usize,
}

/// Absolute value of a mathematical integer.
pub open spec fn magnitude(v: int) -> nat {
    if v < 0 {
        (-v) as nat
    } else {
        v as nat
    }
}

/// Fragment size of an insert size: its absolute value, widened to `u64` so
/// that the most negative `i64` has one too.
pub fn fragment_size(insert_size: i64) -> (size: u64)
    ensures
        size == magnitude(insert_size as int),
{
    if insert_size >= 0 {
        insert_size as u64
    } else if insert_size == i64::MIN {
        9223372036854775808u64
    } else {
        (-insert_size) as u64
    }
}

impl AlignmentRecord {
    /// Fragment size of this record.
    pub open spec fn spec_size(&self) -> nat {
        magnitude(self.insert_size as int)
    }

    /// Fragment size of this record: the absolute value of its insert size.
    pub fn size(&self) -> (size: u64)
        ensures
            size == self.spec_size(),
    {
        fragment_size(self.insert_size)
    }
}

/// The fragment sizes of a sequence of insert sizes, in order.
pub open spec fn sizes_of(inserts: Seq<i64>) -> Seq<nat> {
    Seq::new(inserts.len(), |i: int| magnitude(inserts[i] as int))
}

/// A fragment size has the same magnitude whatever the sign of the insert size.
pub proof fn magnitude_ignores_sign(v: int)
    ensures
        magnitude(-v) == magnitude(v),
{
}

} // verus!
