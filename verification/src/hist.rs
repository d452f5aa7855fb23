//! Frequency table of fragment sizes up to a ceiling.
//!
//! The counts are kept in a `histogram::Histogram`. That store keeps one
//! bucket per value, named by the value itself, up to a limit that grows
//! with the precision it is built with; above the limit a bucket stands for
//! a range of values. A table is therefore built with the least precision
//! whose limit reaches its ceiling, and a ceiling that no precision reaches
//! is refused before any record is read.

use vstd::prelude::*;
use vstd::string::*;
use crate::error::ConfigError;
use crate::fragment::{fragment_size, magnitude, sizes_of};
use crate::text::{decimal, line_texts, push_decimal};

verus! {

/// The precision that the store has by default, and the least one used.
pub const MIN_PRECISION: u32 = 3;

/// The largest precision with which the store can be built.
pub const MAX_PRECISION: u32 = 8;

/// The largest ceiling that a table can have: the per-value limit of the
/// largest precision.
pub const MAX_CEILING: u64 = 134217728;

/// The largest value up to which a store of the given precision keeps one
/// bucket per value: the least power of two above ten to the power of the
/// precision. Stated for the precisions from [`MIN_PRECISION`] to
/// [`MAX_PRECISION`].
pub open spec fn per_value_limit(precision: u32) -> u64 {
    if precision == 3 {
        1024
    } else if precision == 4 {
        16384
    } else if precision == 5 {
        131072
    } else if precision == 6 {
        1048576
    } else if precision == 7 {
        16777216
    } else {
        134217728
    }
}

/// The store counts per value: its precision is one that it can be built
/// with, and its ceiling is within the per-value limit of that precision.
pub open spec fn counts_per_value(precision: u32, ceiling: u64) -> bool {
    MIN_PRECISION <= precision <= MAX_PRECISION && ceiling <= per_value_limit(precision)
}

/// Ten to the power of `exponent`.
pub open spec fn ten_to(exponent: nat) -> nat
    decreases exponent,
{
    if exponent == 0 {
        1
    } else {
        10 * ten_to((exponent - 1) as nat)
    }
}

/// The per-value limit of a precision lies above ten to the power of the
/// precision, and half of it does not.
pub proof fn per_value_limit_brackets(precision: u32)
    requires
        MIN_PRECISION <= precision <= MAX_PRECISION,
    ensures
        per_value_limit(precision) / 2 <= ten_to(precision as nat) < per_value_limit(precision),
{
    reveal_with_fuel(ten_to, 10);
}

/// Makes `histogram::Histogram` known to the verifier as an opaque type.
#[verifier::external_type_specification]
#[verifier::external_body]
pub struct ExHistogram(histogram::Histogram);

/// The precision that the store was configured with.
pub uninterp spec fn store_precision(store: histogram::Histogram) -> u32;

/// The largest value that the store was configured to hold.
pub uninterp spec fn store_ceiling(store: histogram::Histogram) -> u64;

/// The counts that the store holds for the values `0`, `1`, ... up to its
/// ceiling, in that order.
pub uninterp spec fn store_counts(store: histogram::Histogram) -> Seq<u64>;

/// A store that counts per value and holds one count for each value up to
/// its ceiling.
pub open spec fn store_is_exact(store: histogram::Histogram) -> bool {
    &&& counts_per_value(store_precision(store), store_ceiling(store))
    &&& store_counts(store).len() == store_ceiling(store) + 1
}

/// A count after one more observation; it stays at `u64::MAX` once there.
pub open spec fn bumped(count: u64) -> u64 {
    if count == u64::MAX {
        count
    } else {
        (count + 1) as u64
    }
}

/// Calls
/// `histogram::Histogram::configure().precision(precision).max_value(ceiling).build()`.
///
/// Trusted: with no memory limit configured the build gives a store, whose
/// precision and ceiling are those asked for and whose counts are all zero.
#[verifier::external_body]
fn store_build(precision: u32, ceiling: u64) -> (built: Option<histogram::Histogram>)
    requires
        counts_per_value(precision, ceiling),
    ensures
        built is Some,
        built matches Some(store) ==> {
            &&& store_precision(store) == precision
            &&& store_ceiling(store) == ceiling
            &&& store_counts(store).len() == ceiling + 1
            &&& forall|v: int| 0 <= v <= ceiling ==> store_counts(store)[v] == 0
        },
{
    histogram::Histogram::configure().precision(precision).max_value(ceiling).build()
}

/// Calls `histogram::Histogram::increment`.
///
/// Trusted: a value above the ceiling is refused and changes no count; a
/// value up to it adds one to the count of that value, saturating, and
/// changes no other. Precision and ceiling stay.
#[verifier::external_body]
fn store_increment(store: &mut histogram::Histogram, value: u64) -> (stored: bool)
    requires
        store_is_exact(*old(store)),
    ensures
        store_precision(*final(store)) == store_precision(*old(store)),
        store_ceiling(*final(store)) == store_ceiling(*old(store)),
        stored == (value <= store_ceiling(*old(store))),
        stored ==> store_counts(*final(store)) == store_counts(*old(store)).update(
            value as int,
            bumped(store_counts(*old(store))[value as int]),
        ),
        !stored ==> store_counts(*final(store)) == store_counts(*old(store)),
{
    store.increment(value).is_ok()
}

/// Calls `histogram::Histogram::get`.
///
/// Trusted: for a value up to the ceiling the store gives the count that it
/// holds for that value.
#[verifier::external_body]
fn store_get(store: &histogram::Histogram, value: u64) -> (held: Option<u64>)
    requires
        store_is_exact(*store),
        value <= store_ceiling(*store),
    ensures
        held == Some(store_counts(*store)[value as int]),
{
    store.get(value)
}

/// The least precision whose per-value limit reaches the ceiling, if any
/// does.
pub fn precision_for(ceiling: u64) -> (r: Option<u32>)
    ensures
        r is Some <==> ceiling <= MAX_CEILING,
        r matches Some(precision) ==> {
            &&& counts_per_value(precision, ceiling)
            &&& precision > MIN_PRECISION ==> ceiling > per_value_limit((precision - 1) as u32)
        },
{
    if ceiling <= 1024 {
        Some(3)
    } else if ceiling <= 16384 {
        Some(4)
    } else if ceiling <= 131072 {
        Some(5)
    } else if ceiling <= 1048576 {
        Some(6)
    } else if ceiling <= 16777216 {
        Some(7)
    } else if ceiling <= 134217728 {
        Some(8)
    } else {
        None
    }
}

/// The count that a table holds for a value: 0 where it has no entry.
pub open spec fn count_in(table: Map<u64, u64>, value: u64) -> u64 {
    if table.dom().contains(value) {
        table[value]
    } else {
        0
    }
}

/// The table after one more fragment size: a size above the ceiling leaves
/// it as it is, any other adds one to the entry of exactly that size.
pub open spec fn recorded(table: Map<u64, u64>, ceiling: u64, size: nat) -> Map<u64, u64> {
    if size > ceiling {
        table
    } else {
        table.insert(size as u64, bumped(count_in(table, size as u64)))
    }
}

/// The table of the sizes, recorded in order under the ceiling.
pub open spec fn tally(sizes: Seq<nat>, ceiling: u64) -> Map<u64, u64>
    decreases sizes.len(),
{
    if sizes.len() == 0 {
        Map::empty()
    } else {
        recorded(tally(sizes.drop_last(), ceiling), ceiling, sizes.last())
    }
}

/// How often `value` occurs among the sizes.
pub open spec fn occurrences(sizes: Seq<nat>, value: nat) -> nat
    decreases sizes.len(),
{
    if sizes.len() == 0 {
        0
    } else {
        let before = occurrences(sizes.drop_last(), value);
        if sizes.last() == value {
            before + 1
        } else {
            before
        }
    }
}

/// No value occurs more often than there are sizes.
pub proof fn occurrences_bounded(sizes: Seq<nat>, value: nat)
    ensures
        occurrences(sizes, value) <= sizes.len(),
    decreases sizes.len(),
{
    if sizes.len() > 0 {
        occurrences_bounded(sizes.drop_last(), value);
    }
}

/// The table counts occurrences: a value up to the ceiling has an entry if
/// and only if it occurs among the sizes, and the entry is the number of its
/// occurrences; a value above the ceiling has none, and adds to no entry.
pub proof fn tally_counts_occurrences(sizes: Seq<nat>, ceiling: u64, value: u64)
    requires
        sizes.len() <= u64::MAX,
    ensures
        value <= ceiling ==> count_in(tally(sizes, ceiling), value) == occurrences(
            sizes,
            value as nat,
        ),
        value > ceiling ==> !tally(sizes, ceiling).dom().contains(value),
        tally(sizes, ceiling).dom().contains(value) <==> value <= ceiling && occurrences(
            sizes,
            value as nat,
        ) > 0,
    decreases sizes.len(),
{
    if sizes.len() > 0 {
        let rest = sizes.drop_last();
        tally_counts_occurrences(rest, ceiling, value);
        occurrences_bounded(rest, value as nat);
    }
}

/// Frequency table of fragment sizes from 0 to a ceiling.
pub struct HistogramTable {
    store: histogram::Histogram,
    ceiling: u64,
}

impl View for HistogramTable {
    type V = Map<u64, u64>;

    /// The entries of the table: each size that was counted at least once,
    /// with its count. A size never counted has no entry.
    closed spec fn view(&self) -> Map<u64, u64> {
        Map::new(
            |v: u64| v <= store_ceiling(self.store) && store_counts(self.store)[v as int] > 0,
            |v: u64| store_counts(self.store)[v as int],
        )
    }
}

impl HistogramTable {
    /// The table's store counts per value up to the table's ceiling.
    pub closed spec fn wf(&self) -> bool {
        &&& store_is_exact(self.store)
        &&& self.ceiling == store_ceiling(self.store)
    }

    /// The largest size that the table counts.
    pub closed spec fn ceiling(&self) -> u64 {
        self.ceiling
    }

    /// An empty table for sizes up to `ceiling`. A ceiling above
    /// [`MAX_CEILING`] is refused.
    pub fn new(ceiling: u64) -> (r: Result<HistogramTable, ConfigError>)
        ensures
            r is Ok <==> ceiling <= MAX_CEILING,
            r matches Err(e) ==> e == ConfigError::CeilingTooLarge,
            r matches Ok(table) ==> table.wf() && table.ceiling() == ceiling && table@
                == Map::<u64, u64>::empty(),
    {
        let precision = match precision_for(ceiling) {
            Some(precision) => precision,
            None => {
                return Err(ConfigError::CeilingTooLarge);
            },
        };
        match store_build(precision, ceiling) {
            Some(store) => {
                let table = HistogramTable { store, ceiling };
                assert(table@ =~= Map::<u64, u64>::empty());
                Ok(table)
            },
            // Not reached: without a memory limit the store is always built.
            None => Err(ConfigError::CeilingTooLarge),
        }
    }

    /// Counts the fragment size of one insert size. A size above the ceiling
    /// is dropped.
    pub fn observe(&mut self, insert_size: i64)
        requires
            old(self).wf(),
        ensures
            final(self).wf(),
            final(self).ceiling() == old(self).ceiling(),
            final(self)@ == recorded(
                old(self)@,
                old(self).ceiling(),
                magnitude(insert_size as int),
            ),
    {
        let size = fragment_size(insert_size);
        let stored = store_increment(&mut self.store, size);
        proof {
            // The store changed at most the count of `size`, and the view
            // holds the counts above zero.
            assert(self@ =~= recorded(old(self)@, self.ceiling, size as nat));
        }
    }

    /// The count that the table holds for a size: 0 for one never counted or
    /// above the ceiling.
    pub fn count(&self, size: u64) -> (n: u64)
        requires
            self.wf(),
        ensures
            n == count_in(self@, size),
    {
        if size > self.ceiling {
            return 0;
        }
        match store_get(&self.store, size) {
            Some(n) => n,
            // Not reached: the store holds a count for each size up to the ceiling.
            None => 0,
        }
    }

    /// The entries of the table in ascending order of size, each with its
    /// count.
    pub fn rows(&self) -> (rows: Vec<(u64, u64)>)
        requires
            self.wf(),
        ensures
            is_listing(rows@, self@),
    {
        let mut rows: Vec<(u64, u64)> = Vec::new();
        let mut size: u64 = 0;
        while size <= self.ceiling
            invariant
                self.wf(),
                size <= self.ceiling + 1,
                self.ceiling <= MAX_CEILING,
                forall|a: int, b: int| 0 <= a < b < rows@.len() ==> rows@[a].0 < rows@[b].0,
                forall|a: int| 0 <= a < rows@.len() ==> (#[trigger] rows@[a].0) < size,
                forall|a: int|
                    0 <= a < rows@.len() ==> self@.dom().contains(#[trigger] rows@[a].0)
                        && self@[rows@[a].0] == rows@[a].1,
                forall|v: u64|
                    v < size && self@.dom().contains(v) ==> exists|a: int|
                        0 <= a < rows@.len() && #[trigger] rows@[a].0 == v,
            decreases self.ceiling + 1 - size,
        {
            let n = self.count(size);
            if n > 0 {
                let ghost before = rows@;
                rows.push((size, n));
                proof {
                    let last = before.len() as int;
                    assert(rows@[last] == (size, n));
                    assert forall|a: int| 0 <= a < before.len() implies rows@[a] == before[a] by {}
                    assert forall|v: u64| v < size + 1 && self@.dom().contains(v) implies exists|
                        a: int,
                    | 0 <= a < rows@.len() && #[trigger] rows@[a].0 == v by {
                        if v < size {
                            let a = choose|a: int| 0 <= a < before.len() && before[a].0 == v;
                            assert(rows@[a].0 == v);
                        } else {
                            assert(rows@[last].0 == v);
                        }
                    }
                }
            }
            size += 1;
        }
        rows
    }
}

/// The table of the fragment sizes of the given insert sizes under the
/// ceiling `below`, as rows in ascending order of size. Fails, before it
/// looks at any insert size, where the ceiling is above [`MAX_CEILING`].
pub fn hist(inserts: &Vec<i64>, below: u64) -> (r: Result<Vec<(u64, u64)>, ConfigError>)
    ensures
        r is Ok <==> below <= MAX_CEILING,
        r matches Err(e) ==> e == ConfigError::CeilingTooLarge,
        r matches Ok(rows) ==> is_listing(rows@, tally(sizes_of(inserts@), below)),
{
    let mut table = match HistogramTable::new(below) {
        Ok(table) => table,
        Err(e) => {
            return Err(e);
        },
    };
    let mut i: usize = 0;
    while i < inserts.len()
        invariant
            i <= inserts.len(),
            table.wf(),
            table.ceiling() == below,
            table@ == tally(sizes_of(inserts@.take(i as int)), below),
        decreases inserts.len() - i,
    {
        proof {
            let next = sizes_of(inserts@.take(i + 1));
            assert(next.drop_last() =~= sizes_of(inserts@.take(i as int)));
            assert(next.last() == magnitude(inserts[i as int] as int));
        }
        table.observe(inserts[i]);
        i += 1;
    }
    proof {
        assert(inserts@.take(i as int) =~= inserts@);
    }
    Ok(table.rows())
}

/// `rows` lists the entries of `table`, each once, in ascending order of
/// size.
pub open spec fn is_listing(rows: Seq<(u64, u64)>, table: Map<u64, u64>) -> bool {
    &&& forall|i: int, j: int| 0 <= i < j < rows.len() ==> rows[i].0 < rows[j].0
    &&& forall|i: int|
        0 <= i < rows.len() ==> table.dom().contains(#[trigger] rows[i].0) && table[rows[i].0]
            == rows[i].1
    &&& forall|v: u64|
        table.dom().contains(v) ==> exists|i: int| 0 <= i < rows.len() && #[trigger] rows[i].0 == v
}

proof fn listings_agree(a: Seq<(u64, u64)>, b: Seq<(u64, u64)>, table: Map<u64, u64>, n: nat)
    requires
        is_listing(a, table),
        is_listing(b, table),
        n <= a.len(),
        n <= b.len(),
    ensures
        forall|k: int| 0 <= k < n ==> a[k] == b[k],
    decreases n,
{
    if n > 0 {
        listings_agree(a, b, table, (n - 1) as nat);
        let i = n - 1;
        // The size of a's row is listed by b, and not before place i, where
        // the two agree and a's sizes are smaller; so b's size at i is no
        // larger. The same holds with a and b exchanged.
        assert(table.dom().contains(a[i].0));
        let j = choose|j: int| 0 <= j < b.len() && b[j].0 == a[i].0;
        if j < i {
            assert(a[j] == b[j]);
            assert(a[j].0 < a[i].0);
        }
        if i < j {
            assert(b[i].0 < b[j].0);
        }
        assert(table.dom().contains(b[i].0));
        let l = choose|l: int| 0 <= l < a.len() && a[l].0 == b[i].0;
        if l < i {
            assert(a[l] == b[l]);
            assert(b[l].0 < b[i].0);
        }
        if i < l {
            assert(a[i].0 < a[l].0);
        }
        assert(a[i].0 == b[i].0);
        assert(a[i].1 == table[a[i].0]);
    }
}

proof fn listing_is_no_shorter(a: Seq<(u64, u64)>, b: Seq<(u64, u64)>, table: Map<u64, u64>)
    requires
        is_listing(a, table),
        is_listing(b, table),
    ensures
        b.len() <= a.len(),
{
    if a.len() < b.len() {
        let n = a.len() as int;
        listings_agree(a, b, table, a.len());
        // The size of b's next row would be listed by a, at a place where b
        // holds a smaller one.
        assert(table.dom().contains(b[n].0));
        let j = choose|j: int| 0 <= j < a.len() && a[j].0 == b[n].0;
        assert(a[j] == b[j]);
        assert(b[j].0 < b[n].0);
    }
}

/// A table has one listing only: rows in ascending order of size, each an
/// entry of the table and each entry among them, are determined by the
/// table.
pub proof fn listing_is_unique(a: Seq<(u64, u64)>, b: Seq<(u64, u64)>, table: Map<u64, u64>)
    requires
        is_listing(a, table),
        is_listing(b, table),
    ensures
        a == b,
{
    listing_is_no_shorter(a, b, table);
    listing_is_no_shorter(b, a, table);
    listings_agree(a, b, table, a.len());
    assert(a =~= b);
}

/// The lines of the table as comma-separated text: the header `size,n`, then
/// one line per row.
pub open spec fn histogram_text(rows: Seq<(u64, u64)>) -> Seq<Seq<char>> {
    Seq::new(
        rows.len() + 1,
        |i: int|
            if i == 0 {
                "size,n"@
            } else {
                decimal(rows[i - 1].0 as nat) + ","@ + decimal(rows[i - 1].1 as nat)
            },
    )
}

/// The table as comma-separated lines, one string per line, without line
/// ends.
pub fn histogram_lines(rows: &Vec<(u64, u64)>) -> (lines: Vec<String>)
    ensures
        line_texts(lines@) == histogram_text(rows@),
{
    let mut lines: Vec<String> = Vec::new();
    lines.push(String::from_str("size,n"));
    let mut i: usize = 0;
    while i < rows.len()
        invariant
            i <= rows.len(),
            lines@.len() == i + 1,
            forall|k: int| 0 <= k < lines@.len() ==> lines@[k]@ == histogram_text(rows@)[k],
        decreases rows.len() - i,
    {
        let mut line = String::new();
        push_decimal(&mut line, rows[i].0);
        line.append(",");
        push_decimal(&mut line, rows[i].1);
        lines.push(line);
        i += 1;
    }
    lines
}

} // verus!
