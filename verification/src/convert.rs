//! Reduction of a read pair to one three-column genomic interval.

use vstd::prelude::*;
use vstd::string::*;
use vstd::utf8::*;
use crate::fragment::{fragment_size, magnitude, AlignmentRecord};
use crate::text::{push_signed_decimal, signed_decimal};

verus! {

/// Why a selected record could not be converted.
#[derive(Clone, Copy, Debug, PartialEq, Eq, Structural)]
pub enum ConvertError {
    /// The reference id names no sequence of the header.
    UnknownReference,
    /// The name of the reference sequence is not valid UTF-8.
    InvalidName,
    /// The end of the interval is beyond the largest position.
    EndOutOfRange,
}

/// A half-open stretch of a reference sequence.
#[derive(Clone, Copy, Debug, PartialEq, Eq, Structural)]
pub struct Interval {
    pub start: i64,
    pub end: i64,
}

/// A record stands for its fragment: it is properly paired and the first of
/// its template, so one of the two mates is taken and the other is not.
pub open spec fn is_selected(record: AlignmentRecord) -> bool {
    record.proper_pair && record.first_in_template
}

/// Start of the fragment: the smaller of the read's and the mate's position.
pub open spec fn interval_start(record: AlignmentRecord) -> int {
    if record.pos >= record.mpos {
        record.mpos as int
    } else {
        record.pos as int
    }
}

/// End of the fragment: its start plus the absolute insert size.
pub open spec fn interval_end(record: AlignmentRecord) -> int {
    interval_start(record) + magnitude(record.insert_size as int)
}

/// The line of an interval: name, start and end, separated by tabs.
pub open spec fn bed_text(chrom: Seq<char>, start: int, end: int) -> Seq<char> {
    chrom + "\t"@ + signed_decimal(start) + "\t"@ + signed_decimal(end)
}

/// Calls `String::from_utf8`.
///
/// Trusted: the call succeeds on exactly the byte sequences that are valid
/// UTF-8, and the string then holds the characters that the bytes encode.
#[verifier::external_body]
fn text_from_utf8(bytes: Vec<u8>) -> (text: Option<String>)
    ensures
        text is Some <==> valid_utf8(bytes@),
        text matches Some(s) ==> s@ == decode_utf8(bytes@),
{
    String::from_utf8(bytes).ok()
}

/// Whether a record is converted: only one that is properly paired and the
/// first of its template.
pub fn selected(record: &AlignmentRecord) -> (yes: bool)
    ensures
        yes == is_selected(*record),
{
    record.proper_pair && record.first_in_template
}

/// The interval of the fragment that a record stands for. There is none
/// where the end would lie beyond the largest position.
pub fn interval(record: &AlignmentRecord) -> (r: Option<Interval>)
    ensures
        r is Some <==> interval_end(*record) <= i64::MAX,
        r matches Some(iv) ==> iv.start == interval_start(*record) && iv.end == interval_end(
            *record,
        ),
{
    let start: i64 = if record.pos >= record.mpos {
        record.mpos
    } else {
        record.pos
    };
    let size: u64 = fragment_size(record.insert_size);
    let end: i128 = start as i128 + size as i128;
    if end > i64::MAX as i128 {
        None
    } else {
        Some(Interval { start, end: end as i64 })
    }
}

/// The name of the reference sequence with the given id, from the names of
/// the header in the order of their ids.
pub fn chrom_name(names: &Vec<Vec<u8>>, tid: i32) -> (r: Result<String, ConvertError>)
    ensures
        r is Ok <==> 0 <= tid < names@.len() && valid_utf8(names@[tid as int]@),
        r matches Ok(name) ==> name@ == decode_utf8(names@[tid as int]@),
        r matches Err(e) ==> e == (if 0 <= tid < names@.len() {
            ConvertError::InvalidName
        } else {
            ConvertError::UnknownReference
        }),
{
    if tid < 0 {
        return Err(ConvertError::UnknownReference);
    }
    let index: usize = tid as usize;
    if index >= names.len() {
        return Err(ConvertError::UnknownReference);
    }
    let bytes: Vec<u8> = names[index].clone();
    match text_from_utf8(bytes) {
        Some(name) => Ok(name),
        None => Err(ConvertError::InvalidName),
    }
}

/// One line of output: the name, the start and the end, separated by tabs,
/// without a line end.
pub fn bed_line(chrom: &str, interval: &Interval) -> (line: String)
    ensures
        line@ == bed_text(chrom@, interval.start as int, interval.end as int),
{
    let mut line = String::from_str(chrom);
    line.append("\t");
    push_signed_decimal(&mut line, interval.start);
    line.append("\t");
    push_signed_decimal(&mut line, interval.end);
    line
}

/// What converting a record gives: no line for a record that is not
/// selected, else the line of its fragment, or the reason why there is none.
pub open spec fn converted(record: AlignmentRecord, names: Seq<Vec<u8>>) -> Result<
    Option<Seq<char>>,
    ConvertError,
> {
    if !is_selected(record) {
        Ok(None)
    } else if !(0 <= record.tid < names.len()) {
        Err(ConvertError::UnknownReference)
    } else if !valid_utf8(names[record.tid as int]@) {
        Err(ConvertError::InvalidName)
    } else if interval_end(record) > i64::MAX {
        Err(ConvertError::EndOutOfRange)
    } else {
        Ok(
            Some(
                bed_text(
                    decode_utf8(names[record.tid as int]@),
                    interval_start(record),
                    interval_end(record),
                ),
            ),
        )
    }
}

/// The text of a conversion's result.
pub open spec fn line_of(r: Result<Option<String>, ConvertError>) -> Result<
    Option<Seq<char>>,
    ConvertError,
> {
    match r {
        Ok(Some(line)) => Ok(Some(line@)),
        Ok(None) => Ok(None),
        Err(e) => Err(e),
    }
}

/// Converts one record: the line of its fragment if it is selected, no line
/// if it is not, an error if it is selected and cannot be converted.
pub fn convert_record(record: &AlignmentRecord, names: &Vec<Vec<u8>>) -> (r: Result<
    Option<String>,
    ConvertError,
>)
    ensures
        line_of(r) == converted(*record, names@),
{
    if !selected(record) {
        return Ok(None);
    }
    let chrom = match chrom_name(names, record.tid) {
        Ok(name) => name,
        Err(e) => {
            return Err(e);
        },
    };
    match interval(record) {
        Some(iv) => Ok(Some(bed_line(chrom.as_str(), &iv))),
        None => Err(ConvertError::EndOutOfRange),
    }
}

/// How a write to the output ended.
#[derive(Clone, Copy, Debug, PartialEq, Eq, Structural)]
pub enum WriteOutcome {
    /// The line was written.
    Written,
    /// The reader of the output has closed it.
    BrokenPipe,
    /// Any other failure.
    Failed,
}

/// What the conversion loop does next.
#[derive(Clone, Copy, Debug, PartialEq, Eq, Structural)]
pub enum NextStep {
    /// Go on with the next record.
    Continue,
    /// Leave the loop and end the process with this exit code.
    Stop { exit_code: i32 },
}

/// The step after a write: go on after a line was written, end in success
/// once the output was closed by its reader, end in failure after any other
/// error.
pub fn after_write(outcome: WriteOutcome) -> (next: NextStep)
    ensures
        next == (match outcome {
            WriteOutcome::Written => NextStep::Continue,
            WriteOutcome::BrokenPipe => NextStep::Stop { exit_code: 0 },
            WriteOutcome::Failed => NextStep::Stop { exit_code: 1 },
        }),
{
    match outcome {
        WriteOutcome::Written => NextStep::Continue,
        WriteOutcome::BrokenPipe => NextStep::Stop { exit_code: 0 },
        WriteOutcome::Failed => NextStep::Stop { exit_code: 1 },
    }
}

/// The sign of the insert size does not move the interval.
pub proof fn interval_ignores_sign(a: AlignmentRecord, b: AlignmentRecord)
    requires
        a.pos == b.pos,
        a.mpos == b.mpos,
        magnitude(a.insert_size as int) == magnitude(b.insert_size as int),
    ensures
        interval_start(a) == interval_start(b),
        interval_end(a) == interval_end(b),
{
}

/// An interval starts at the leftmost of the two mates and is as long as the
/// fragment.
pub proof fn interval_spans_fragment(record: AlignmentRecord)
    ensures
        interval_start(record) <= record.pos,
        interval_start(record) <= record.mpos,
        interval_start(record) == record.pos || interval_start(record) == record.mpos,
        interval_end(record) - interval_start(record) == magnitude(record.insert_size as int),
{
}

} // verus!
