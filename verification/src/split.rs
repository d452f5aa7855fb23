//! Routing of records to the outputs of an ordered list of size ranges.
//!
//! The order of the ranges is the order in which they were declared. It
//! decides which output a record goes to where ranges overlap, so nothing
//! here sorts or deduplicates the list.

use vstd::prelude::*;
use vstd::string::*;
use crate::fragment::{fragment_size, magnitude, AlignmentRecord};
use crate::range::FragmentRange;

verus! {

/// The positions of the ranges that hold `size`, in ascending order.
pub open spec fn matching(ranges: Seq<FragmentRange>, size: nat) -> Seq<int>
    decreases ranges.len(),
{
    if ranges.len() == 0 {
        Seq::empty()
    } else {
        let before = matching(ranges.drop_last(), size);
        if ranges.last().holds(size) {
            before.push(ranges.len() - 1)
        } else {
            before
        }
    }
}

/// The positions of the outputs that a record of the given size is written
/// to: every range that holds the size where `multimembership` is set, else
/// the first of them only; none where no range holds it.
pub open spec fn routing(ranges: Seq<FragmentRange>, size: nat, multimembership: bool) -> Seq<
    int,
> {
    let all = matching(ranges, size);
    if multimembership || all.len() == 0 {
        all
    } else {
        seq![all[0]]
    }
}

/// The positions as mathematical integers.
pub open spec fn positions(targets: Seq<usize>) -> Seq<int> {
    Seq::new(targets.len(), |i: int| targets[i] as int)
}

/// What `matching` lists: positions within the list, in strictly ascending
/// order, each of a range that holds the size, and every such position.
pub proof fn matching_is_exact(ranges: Seq<FragmentRange>, size: nat)
    ensures
        forall|k: int|
            0 <= k < matching(ranges, size).len() ==> 0 <= #[trigger] matching(ranges, size)[k]
                < ranges.len() && ranges[matching(ranges, size)[k]].holds(size),
        forall|j: int, k: int|
            0 <= j < k < matching(ranges, size).len() ==> matching(ranges, size)[j] < matching(
                ranges,
                size,
            )[k],
        forall|p: int|
            0 <= p < ranges.len() && (#[trigger] ranges[p]).holds(size) ==> matching(
                ranges,
                size,
            ).contains(p),
    decreases ranges.len(),
{
    if ranges.len() > 0 {
        let rest = ranges.drop_last();
        let before = matching(rest, size);
        let all = matching(ranges, size);
        matching_is_exact(rest, size);
        assert forall|k: int| 0 <= k < all.len() implies 0 <= #[trigger] all[k] < ranges.len()
            && ranges[all[k]].holds(size) by {
            if k < before.len() {
                assert(all[k] == before[k]);
                assert(rest[before[k]] == ranges[before[k]]);
            }
        }
        assert forall|j: int, k: int| 0 <= j < k < all.len() implies all[j] < all[k] by {
            assert(all[j] == before[j]);
            if k < before.len() {
                assert(all[k] == before[k]);
            }
        }
        assert forall|p: int| 0 <= p < ranges.len() && (#[trigger] ranges[p]).holds(
            size,
        ) implies all.contains(p) by {
            if p < rest.len() {
                assert(rest[p] == ranges[p]);
                assert(before.contains(p));
                let k = choose|k: int| 0 <= k < before.len() && before[k] == p;
                assert(all[k] == p);
            } else {
                assert(all[all.len() - 1] == p);
            }
        }
    }
}

/// A size that no range holds is routed nowhere, and only such a size.
pub proof fn unmatched_is_dropped(ranges: Seq<FragmentRange>, size: nat, multimembership: bool)
    ensures
        routing(ranges, size, multimembership).len() == 0 <==> forall|p: int|
            0 <= p < ranges.len() ==> !(#[trigger] ranges[p]).holds(size),
{
    matching_is_exact(ranges, size);
    let all = matching(ranges, size);
    if all.len() > 0 {
        assert(ranges[all[0]].holds(size));
    } else {
        assert forall|p: int| 0 <= p < ranges.len() implies !(#[trigger] ranges[p]).holds(
            size,
        ) by {
            if ranges[p].holds(size) {
                assert(all.contains(p));
            }
        }
    }
}

/// Without multimembership a record goes to one output at most: the first
/// declared range that holds its size, which is also the first of the
/// outputs that it goes to with multimembership.
pub proof fn first_match_wins(ranges: Seq<FragmentRange>, size: nat)
    ensures
        routing(ranges, size, false).len() <= 1,
        routing(ranges, size, false).len() == 1 ==> {
            let first = routing(ranges, size, false)[0];
            &&& 0 <= first < ranges.len()
            &&& ranges[first].holds(size)
            &&& forall|p: int| 0 <= p < first ==> !(#[trigger] ranges[p]).holds(size)
            &&& routing(ranges, size, true).len() >= 1
            &&& routing(ranges, size, true)[0] == first
        },
{
    matching_is_exact(ranges, size);
    let all = matching(ranges, size);
    if all.len() > 0 {
        let first = all[0];
        assert forall|p: int| 0 <= p < first implies !(#[trigger] ranges[p]).holds(size) by {
            if ranges[p].holds(size) {
                assert(all.contains(p));
                let k = choose|k: int| 0 <= k < all.len() && all[k] == p;
                if k > 0 {
                    assert(all[0] < all[k]);
                }
            }
        }
    }
}

proof fn matching_grows(ranges: Seq<FragmentRange>, size: nat, upto: int)
    requires
        0 <= upto <= ranges.len(),
    ensures
        matching(ranges.take(upto), size).len() <= matching(ranges, size).len(),
        forall|k: int|
            0 <= k < matching(ranges.take(upto), size).len() ==> #[trigger] matching(
                ranges,
                size,
            )[k] == matching(ranges.take(upto), size)[k],
    decreases ranges.len() - upto,
{
    if upto < ranges.len() {
        let rest = ranges.drop_last();
        assert(rest.take(upto) =~= ranges.take(upto));
        matching_grows(rest, size, upto);
    } else {
        assert(ranges.take(upto) =~= ranges);
    }
}

/// The outputs to write one record to, as positions in the list of ranges, in
/// ascending order.
pub fn route(ranges: &Vec<FragmentRange>, insert_size: i64, multimembership: bool) -> (targets:
    Vec<usize>)
    ensures
        positions(targets@) == routing(ranges@, magnitude(insert_size as int), multimembership),
{
    let size = fragment_size(insert_size);
    let mut targets: Vec<usize> = Vec::new();
    let mut i: usize = 0;
    while i < ranges.len()
        invariant
            i <= ranges.len(),
            size == magnitude(insert_size as int),
            positions(targets@) == matching(ranges@.take(i as int), size as nat),
            !multimembership ==> targets@.len() == 0,
        decreases ranges.len() - i,
    {
        let ghost seen = ranges@.take(i as int);
        let ghost next = ranges@.take(i + 1);
        proof {
            assert(next.drop_last() =~= seen);
            assert(next.last() == ranges@[i as int]);
        }
        if ranges[i].contains(size) {
            targets.push(i);
            proof {
                assert(positions(targets@) =~= matching(next, size as nat));
            }
            if !multimembership {
                proof {
                    matching_grows(ranges@, size as nat, i + 1);
                    assert(matching(next, size as nat).len() == 1);
                    assert(matching(ranges@, size as nat)[0] == matching(next, size as nat)[0]);
                    assert(positions(targets@)[0] == i);
                    assert(positions(targets@) =~= routing(ranges@, size as nat, false));
                }
                return targets;
            }
        }
        i += 1;
    }
    proof {
        assert(ranges@.take(i as int) =~= ranges@);
    }
    targets
}

/// The positions that a record is routed to lie within the list of ranges
/// and ascend strictly, so none comes twice.
pub proof fn routing_ascends(ranges: Seq<FragmentRange>, size: nat, multimembership: bool)
    ensures
        forall|j: int|
            0 <= j < routing(ranges, size, multimembership).len() ==> 0 <= #[trigger] routing(
                ranges,
                size,
                multimembership,
            )[j] < ranges.len(),
        forall|j: int, k: int|
            0 <= j < k < routing(ranges, size, multimembership).len() ==> routing(
                ranges,
                size,
                multimembership,
            )[j] < routing(ranges, size, multimembership)[k],
{
    matching_is_exact(ranges, size);
}

/// The test whether a record is written to the output at position `k`.
pub open spec fn goes_to(ranges: Seq<FragmentRange>, multimembership: bool, k: int) -> spec_fn(
    AlignmentRecord,
) -> bool {
    |record: AlignmentRecord| routing(ranges, record.spec_size(), multimembership).contains(k)
}

/// What the output at position `k` receives: the records routed to it, in
/// the order of the input.
pub open spec fn share_of(
    records: Seq<AlignmentRecord>,
    ranges: Seq<FragmentRange>,
    multimembership: bool,
    k: int,
) -> Seq<AlignmentRecord> {
    records.filter(goes_to(ranges, multimembership, k))
}

/// Splits the records over the outputs of the ranges: one list per range, in
/// the order of the ranges, each holding in the order of the input the
/// records routed to that range.
pub fn split_records(
    records: &Vec<AlignmentRecord>,
    ranges: &Vec<FragmentRange>,
    multimembership: bool,
) -> (outputs: Vec<Vec<AlignmentRecord>>)
    ensures
        outputs@.len() == ranges@.len(),
        forall|k: int|
            0 <= k < outputs@.len() ==> (#[trigger] outputs@[k])@ == share_of(
                records@,
                ranges@,
                multimembership,
                k,
            ),
{
    let mut outputs: Vec<Vec<AlignmentRecord>> = Vec::new();
    let mut k: usize = 0;
    proof {
        reveal(Seq::filter);
    }
    while k < ranges.len()
        invariant
            k <= ranges.len(),
            outputs@.len() == k,
            forall|m: int| 0 <= m < k ==> (#[trigger] outputs@[m])@.len() == 0,
        decreases ranges.len() - k,
    {
        outputs.push(Vec::new());
        k += 1;
    }
    let mut i: usize = 0;
    while i < records.len()
        invariant
            i <= records.len(),
            outputs@.len() == ranges@.len(),
            forall|m: int|
                0 <= m < outputs@.len() ==> (#[trigger] outputs@[m])@ == share_of(
                    records@.take(i as int),
                    ranges@,
                    multimembership,
                    m,
                ),
        decreases records.len() - i,
    {
        let record = records[i];
        let targets = route(ranges, record.insert_size, multimembership);
        let ghost way = routing(ranges@, record.spec_size(), multimembership);
        let ghost before = outputs@;
        proof {
            routing_ascends(ranges@, record.spec_size(), multimembership);
            assert(positions(targets@).len() == targets@.len());
        }
        let mut j: usize = 0;
        while j < targets.len()
            invariant
                j <= targets.len(),
                positions(targets@) == way,
                way.len() == targets@.len(),
                outputs@.len() == ranges@.len(),
                before.len() == ranges@.len(),
                forall|a: int| 0 <= a < way.len() ==> 0 <= #[trigger] way[a] < ranges@.len(),
                forall|a: int, b: int| 0 <= a < b < way.len() ==> way[a] < way[b],
                forall|m: int|
                    0 <= m < outputs@.len() ==> (#[trigger] outputs@[m])@ == (if way.take(
                        j as int,
                    ).contains(m) {
                        before[m]@.push(record)
                    } else {
                        before[m]@
                    }),
            decreases targets.len() - j,
        {
            let target = targets[j];
            let ghost during = outputs@;
            let ghost done = way.take(j as int);
            let ghost grown = way.take(j + 1);
            proof {
                assert(positions(targets@)[j as int] == target);
                assert(way[j as int] == target);
                assert(!done.contains(target as int)) by {
                    if done.contains(target as int) {
                        let a = choose|a: int| 0 <= a < done.len() && done[a] == target;
                        assert(way[a] < way[j as int]);
                    }
                }
            }
            outputs[target].push(record);
            proof {
                assert(grown =~= done.push(target as int));
                assert forall|m: int| 0 <= m < outputs@.len() implies (#[trigger] outputs@[m])@
                    == (if grown.contains(m) {
                    before[m]@.push(record)
                } else {
                    before[m]@
                }) by {
                    if m == target {
                        assert(grown[j as int] == m);
                    } else {
                        assert(outputs@[m] == during[m]);
                        if grown.contains(m) {
                            let a = choose|a: int| 0 <= a < grown.len() && grown[a] == m;
                            assert(a < j);
                            assert(done[a] == m);
                        }
                        if done.contains(m) {
                            let a = choose|a: int| 0 <= a < done.len() && done[a] == m;
                            assert(grown[a] == m);
                        }
                    }
                }
            }
            j += 1;
        }
        proof {
            reveal(Seq::filter);
            let next = records@.take(i + 1);
            assert(next.drop_last() =~= records@.take(i as int));
            assert(next.last() == record);
            assert(way.take(j as int) =~= way);
            assert forall|m: int| 0 <= m < outputs@.len() implies (#[trigger] outputs@[m])@
                == share_of(next, ranges@, multimembership, m) by {
                assert(goes_to(ranges@, multimembership, m)(record) == way.contains(m));
            }
        }
        i += 1;
    }
    proof {
        assert(records@.take(i as int) =~= records@);
    }
    outputs
}

/// The text of an optional string: nothing where there is none.
pub open spec fn text_or_empty(part: Option<String>) -> Seq<char> {
    match part {
        Some(text) => text@,
        None => Seq::empty(),
    }
}

/// The text of an output path: the prefix, the suffix, and a dot with the
/// extension, each where there is one.
pub open spec fn output_path_text(
    extension: Option<&str>,
    prefix: Option<String>,
    suffix: Option<String>,
) -> Seq<char> {
    text_or_empty(prefix) + text_or_empty(suffix) + match extension {
        Some(ext) => "."@ + ext@,
        None => Seq::empty(),
    }
}

/// The path of an output: the prefix, then the suffix, then the extension of
/// the input file behind a dot. Each part may be absent.
pub fn output_path_from_prefix(
    extension: Option<&str>,
    prefix: Option<String>,
    suffix: Option<String>,
) -> (path: String)
    ensures
        path@ == output_path_text(extension, prefix, suffix),
{
    let mut path = String::new();
    if let Some(text) = &prefix {
        path.append(text.as_str());
    }
    if let Some(text) = &suffix {
        path.append(text.as_str());
    }
    if let Some(ext) = extension {
        path.append(".");
        path.append(ext);
    }
    path
}

/// The name of the output of one range under a prefix.
pub open spec fn sink_name_text(range: FragmentRange, prefix: &str, extension: Option<&str>) -> Seq<
    char,
> {
    prefix@ + range.spec_suffix() + match extension {
        Some(ext) => "."@ + ext@,
        None => Seq::empty(),
    }
}

/// The names of the outputs, one per range and in the order of the ranges:
/// the prefix, the suffix of the range, and the extension of the input file.
pub fn sink_names(ranges: &Vec<FragmentRange>, prefix: &str, extension: Option<&str>) -> (names:
    Vec<String>)
    ensures
        names@.len() == ranges@.len(),
        forall|i: int|
            0 <= i < names@.len() ==> (#[trigger] names@[i])@ == sink_name_text(
                ranges@[i],
                prefix,
                extension,
            ),
{
    let mut names: Vec<String> = Vec::new();
    let mut i: usize = 0;
    while i < ranges.len()
        invariant
            i <= ranges.len(),
            names@.len() == i,
            forall|k: int|
                0 <= k < names@.len() ==> (#[trigger] names@[k])@ == sink_name_text(
                    ranges@[k],
                    prefix,
                    extension,
                ),
        decreases ranges.len() - i,
    {
        let name = output_path_from_prefix(
            extension,
            Some(String::from_str(prefix)),
            Some(ranges[i].suffix()),
        );
        names.push(name);
        i += 1;
    }
    names
}

} // verus!
