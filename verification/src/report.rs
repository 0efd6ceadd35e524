//! The report: the keys of the table ranked by their memory, cut off after
//! the wanted number of rows, each row with the memory of all rows down to
//! it.

use vstd::prelude::*;
use crate::aggregate::{
    distinct_keys, holds, lemma_table_lookup, memory_of_entries, table_of, Aggregator, Entry,
    Tally, Totals,
};
use crate::order::{
    key_before, key_precedes, lemma_key_order_asymmetric, lemma_key_order_total,
    lemma_key_order_transitive,
};
use crate::share::{lemma_percent_grows, percent_hundredths};
use crate::text::chars_of;

verus! {

/// One row of the report.
#[derive(Clone, Debug, PartialEq, Eq)]
pub struct ReportRow {
    /// The application key.
    pub key: String,
    /// How many processes stand under the key.
    pub count: u32,
    /// Their resident memory together, in kilobytes.
    pub memory_kb: u64,
    /// The memory of this row and of all rows above it, in kilobytes.
    pub cumulative_kb: u64,
}

/// A `ReportRow` as specifications see it.
pub struct RowView {
    pub key: Seq<char>,
    pub count: nat,
    pub memory_kb: nat,
    pub cumulative_kb: nat,
}

impl View for ReportRow {
    type V = RowView;

    open spec fn view(&self) -> RowView {
        RowView {
            key: self.key@,
            count: self.count as nat,
            memory_kb: self.memory_kb as nat,
            cumulative_kb: self.cumulative_kb as nat,
        }
    }
}

impl DeepView for ReportRow {
    type V = RowView;

    open spec fn deep_view(&self) -> RowView {
        self@
    }
}

/// Whether row `a` stands above row `b`: it holds more memory, or as much
/// and its key comes first.
pub open spec fn ranks_before(a: RowView, b: RowView) -> bool {
    a.memory_kb > b.memory_kb || (a.memory_kb == b.memory_kb && key_before(a.key, b.key))
}

/// The memory of all `rows` together.
pub open spec fn memory_of_rows(rows: Seq<RowView>) -> nat
    decreases rows.len(),
{
    if rows.len() == 0 {
        0
    } else {
        memory_of_rows(rows.drop_last()) + rows.last().memory_kb
    }
}

/// Whether row `i` stands for `key`.
pub open spec fn shows(rows: Seq<RowView>, i: int, key: Seq<char>) -> bool {
    0 <= i < rows.len() && rows[i].key == key
}

/// Whether `rows` holds the keys of the table in their rank: every row is a
/// key of the table with its tally, every key of the table has a row, and
/// every row stands above the rows that follow it.
pub open spec fn is_ranked(rows: Seq<RowView>, by_key: Map<Seq<char>, Tally>) -> bool {
    &&& forall|i: int|
        0 <= i < rows.len() ==> by_key.contains_key((#[trigger] rows[i]).key) && by_key[rows[i].key]
            == (Tally { count: rows[i].count, memory_kb: rows[i].memory_kb })
    &&& forall|key: Seq<char>| #[trigger]
        by_key.contains_key(key) ==> exists|i: int| shows(rows, i, key)
    &&& forall|i: int, j: int|
        0 <= i < j < rows.len() ==> ranks_before(#[trigger] rows[i], #[trigger] rows[j])
}

/// Whether every row holds, as its cumulative memory, the memory of the
/// rows down to it.
pub open spec fn is_cumulative(rows: Seq<RowView>) -> bool {
    forall|i: int|
        0 <= i < rows.len() ==> (#[trigger] rows[i]).cumulative_kb == memory_of_rows(
            rows.take(i + 1),
        )
}

/// Whether no row holds more memory than a row above it.
pub open spec fn memory_falls(rows: Seq<RowView>) -> bool {
    forall|i: int, j: int|
        0 <= i < j < rows.len() ==> (#[trigger] rows[i]).memory_kb >= (#[trigger] rows[j]).memory_kb
}

/// Whether `rows` is the whole report of the table: all its keys in their
/// rank, every row with the memory of the rows down to it.
pub open spec fn is_full_report(rows: Seq<RowView>, by_key: Map<Seq<char>, Tally>) -> bool {
    is_ranked(rows, by_key) && is_cumulative(rows)
}

/// The whole report of a table. No table has two
/// (`lemma_full_report_unique`), and `Aggregator::report` states that the
/// table of an `Aggregator` has one.
pub open spec fn full_report_of(by_key: Map<Seq<char>, Tally>) -> Seq<RowView> {
    choose|rows: Seq<RowView>| is_full_report(rows, by_key)
}

/// The report of a table, cut off after `limit` rows.
pub open spec fn report_of(totals: Totals, limit: nat) -> Seq<RowView> {
    let full = full_report_of(totals.by_key);
    if limit < full.len() {
        full.take(limit as int)
    } else {
        full
    }
}

/// Whether `rows` is the top of the table, `limit` rows long at most: every
/// row is a key of the table with its tally, no key has two rows, the rows
/// stand in their rank, and a key without a row was cut off by the limit and
/// holds no more memory than the last row.
pub open spec fn is_top(rows: Seq<RowView>, by_key: Map<Seq<char>, Tally>, limit: nat) -> bool {
    &&& rows.len() <= limit
    &&& forall|i: int|
        0 <= i < rows.len() ==> by_key.contains_key((#[trigger] rows[i]).key) && by_key[rows[i].key]
            == (Tally { count: rows[i].count, memory_kb: rows[i].memory_kb })
    &&& forall|i: int, j: int|
        0 <= i < j < rows.len() ==> (#[trigger] rows[i]).key != (#[trigger] rows[j]).key
    &&& forall|i: int, j: int|
        0 <= i < j < rows.len() ==> ranks_before(#[trigger] rows[i], #[trigger] rows[j])
    &&& forall|key: Seq<char>| #[trigger]
        by_key.contains_key(key) && !(exists|i: int| shows(rows, i, key)) ==> rows.len() == limit
            && (limit > 0 ==> by_key[key].memory_kb <= rows.last().memory_kb)
}

/// No two rows stand above each other, and no row stands above itself.
pub proof fn lemma_rank_asymmetric(a: RowView, b: RowView)
    ensures
        !(ranks_before(a, b) && ranks_before(b, a)),
{
    lemma_key_order_asymmetric(a.key, b.key);
}

/// Of two rows with different keys one stands above the other.
pub proof fn lemma_rank_total(a: RowView, b: RowView)
    requires
        a.key != b.key,
    ensures
        ranks_before(a, b) || ranks_before(b, a),
{
    lemma_key_order_total(a.key, b.key);
}

/// A row stands above every row that stands below a row below it.
pub proof fn lemma_rank_transitive(a: RowView, b: RowView, c: RowView)
    requires
        ranks_before(a, b),
        ranks_before(b, c),
    ensures
        ranks_before(a, c),
{
    if a.memory_kb == b.memory_kb && b.memory_kb == c.memory_kb {
        lemma_key_order_transitive(a.key, b.key, c.key);
    }
}

/// Two rankings of one table agree row by row on key, count and memory.
proof fn lemma_ranked_unique(a: Seq<RowView>, b: Seq<RowView>, by_key: Map<Seq<char>, Tally>)
    requires
        is_ranked(a, by_key),
        is_ranked(b, by_key),
    ensures
        a.len() == b.len(),
        forall|i: int|
            0 <= i < a.len() ==> (#[trigger] a[i]).key == b[i].key && a[i].count == b[i].count
                && a[i].memory_kb == b[i].memory_kb,
    decreases a.len(),
{
    if a.len() == 0 {
        if b.len() > 0 {
            assert(by_key.contains_key(b[0].key));
            let i = choose|i: int| shows(a, i, b[0].key);
        }
    } else if b.len() == 0 {
        assert(by_key.contains_key(a[0].key));
        let i = choose|i: int| shows(b, i, a[0].key);
    } else {
        // The first rows agree: each is the one row that no other stands above.
        assert(by_key.contains_key(a[0].key));
        let j = choose|j: int| shows(b, j, a[0].key);
        assert(b[j].memory_kb == a[0].memory_kb);
        if j > 0 {
            assert(ranks_before(b[0], b[j]));
            assert(by_key.contains_key(b[0].key));
            let i = choose|i: int| shows(a, i, b[0].key);
            assert(a[i].memory_kb == b[0].memory_kb);
            if i > 0 {
                assert(ranks_before(a[0], a[i]));
            }
            lemma_rank_asymmetric(a[0], b[0]);
            assert(false);
        }
        let first = a[0].key;
        let rest = by_key.remove(first);
        let a_rest = a.drop_first();
        let b_rest = b.drop_first();
        lemma_ranked_rest(a, by_key);
        lemma_ranked_rest(b, by_key);
        lemma_ranked_unique(a_rest, b_rest, rest);
        assert forall|i: int| 0 <= i < a.len() implies (#[trigger] a[i]).key == b[i].key
            && a[i].count == b[i].count && a[i].memory_kb == b[i].memory_kb by {
            if i > 0 {
                assert(a_rest[i - 1] == a[i]);
                assert(b_rest[i - 1] == b[i]);
            }
        }
    }
}

/// Without its first row a ranking is the ranking of the table without
/// that row's key.
proof fn lemma_ranked_rest(rows: Seq<RowView>, by_key: Map<Seq<char>, Tally>)
    requires
        is_ranked(rows, by_key),
        rows.len() > 0,
    ensures
        is_ranked(rows.drop_first(), by_key.remove(rows[0].key)),
{
    let rest = rows.drop_first();
    let fewer = by_key.remove(rows[0].key);
    assert forall|i: int| 0 <= i < rest.len() implies fewer.contains_key((#[trigger] rest[i]).key)
        && fewer[rest[i].key] == (Tally { count: rest[i].count, memory_kb: rest[i].memory_kb }) by {
        assert(rest[i] == rows[i + 1]);
        assert(ranks_before(rows[0], rows[i + 1]));
        lemma_rank_asymmetric(rows[0], rows[i + 1]);
    }
    assert forall|key: Seq<char>| #[trigger] fewer.contains_key(key) implies exists|i: int|
        shows(rest, i, key) by {
        assert(by_key.contains_key(key));
        let i = choose|i: int| shows(rows, i, key);
        assert(shows(rest, i - 1, key));
    }
    assert forall|i: int, j: int| 0 <= i < j < rest.len() implies ranks_before(
        #[trigger] rest[i],
        #[trigger] rest[j],
    ) by {
        assert(rest[i] == rows[i + 1]);
        assert(rest[j] == rows[j + 1]);
    }
}

/// Rows that agree on their memory hold the same memory together.
proof fn lemma_memory_of_rows_agrees(a: Seq<RowView>, b: Seq<RowView>)
    requires
        a.len() == b.len(),
        forall|i: int| 0 <= i < a.len() ==> (#[trigger] a[i]).memory_kb == b[i].memory_kb,
    ensures
        memory_of_rows(a) == memory_of_rows(b),
    decreases a.len(),
{
    if a.len() > 0 {
        lemma_memory_of_rows_agrees(a.drop_last(), b.drop_last());
    }
}

/// A table has one report at most: the rank of its keys is fixed by their
/// memory and, among keys with the same memory, by the keys themselves.
pub proof fn lemma_full_report_unique(a: Seq<RowView>, b: Seq<RowView>, by_key: Map<Seq<char>, Tally>)
    requires
        is_full_report(a, by_key),
        is_full_report(b, by_key),
    ensures
        a == b,
{
    lemma_ranked_unique(a, b, by_key);
    assert forall|i: int| 0 <= i < a.len() implies a[i] == b[i] by {
        lemma_memory_of_rows_agrees(a.take(i + 1), b.take(i + 1));
    }
}

/// A ranking has one row for every key of its table: the table holds as
/// many keys as the ranking has rows.
pub proof fn lemma_ranked_counts_keys(rows: Seq<RowView>, by_key: Map<Seq<char>, Tally>)
    requires
        is_ranked(rows, by_key),
    ensures
        by_key.dom().finite(),
        by_key.dom().len() == rows.len(),
    decreases rows.len(),
{
    if rows.len() == 0 {
        assert forall|key: Seq<char>| !by_key.dom().contains(key) by {
            if by_key.contains_key(key) {
                let i = choose|i: int| shows(rows, i, key);
                assert(shows(rows, i, key));
            }
        }
        assert(by_key.dom() =~= Set::empty());
    } else {
        let first = rows[0].key;
        lemma_ranked_rest(rows, by_key);
        lemma_ranked_counts_keys(rows.drop_first(), by_key.remove(first));
        assert(by_key.remove(first).dom() =~= by_key.dom().remove(first));
        assert(by_key.dom() =~= by_key.dom().remove(first).insert(first));
    }
}

/// The first rows of a ranking are the top of its table.
pub proof fn lemma_first_rows_are_top(
    full: Seq<RowView>,
    by_key: Map<Seq<char>, Tally>,
    limit: nat,
)
    requires
        is_ranked(full, by_key),
    ensures
        is_top(
            if limit < full.len() {
                full.take(limit as int)
            } else {
                full
            },
            by_key,
            limit,
        ),
{
    let rows = if limit < full.len() {
        full.take(limit as int)
    } else {
        full
    };
    assert forall|i: int, j: int| 0 <= i < j < rows.len() implies (#[trigger] rows[i]).key != (
    #[trigger] rows[j]).key by {
        assert(ranks_before(full[i], full[j]));
        lemma_rank_asymmetric(full[i], full[j]);
    }
    assert forall|key: Seq<char>| #[trigger]
        by_key.contains_key(key) && !(exists|i: int| shows(rows, i, key)) implies rows.len()
        == limit && (limit > 0 ==> by_key[key].memory_kb <= rows.last().memory_kb) by {
        let at = choose|at: int| shows(full, at, key);
        assert(!shows(rows, at, key));
        if limit > 0 {
            assert(ranks_before(full[limit - 1], full[at]));
        }
    }
}

/// In a ranking no row holds more memory than a row above it.
pub proof fn lemma_ranked_memory_falls(rows: Seq<RowView>, by_key: Map<Seq<char>, Tally>)
    requires
        is_ranked(rows, by_key),
    ensures
        memory_falls(rows),
{
}

/// What holds of the rows of a report holds of its first rows: a report
/// that is cut off is still in falling order, and every row still holds the
/// memory of the rows down to it.
pub proof fn lemma_first_rows(rows: Seq<RowView>, n: int)
    requires
        0 <= n <= rows.len(),
    ensures
        memory_falls(rows) ==> memory_falls(rows.take(n)),
        is_cumulative(rows) ==> is_cumulative(rows.take(n)),
{
    let first = rows.take(n);
    if is_cumulative(rows) {
        assert forall|i: int| 0 <= i < first.len() implies (#[trigger] first[i]).cumulative_kb
            == memory_of_rows(first.take(i + 1)) by {
            assert(first.take(i + 1) == rows.take(i + 1));
        }
    }
}

/// The cumulative memory of a row is that of the row above it and its own;
/// the first row's is its own.
pub proof fn lemma_cumulative_step(rows: Seq<RowView>, i: int)
    requires
        is_cumulative(rows),
        0 <= i < rows.len(),
    ensures
        rows[i].cumulative_kb == rows[i].memory_kb + if i == 0 {
            0
        } else {
            rows[i - 1].cumulative_kb
        },
{
    assert(rows.take(i + 1).drop_last() == rows.take(i));
    if i > 0 {
        assert(rows[i - 1].cumulative_kb == memory_of_rows(rows.take(i - 1 + 1)));
    }
}

/// Down the report the cumulative memory never falls.
pub proof fn lemma_cumulative_grows(rows: Seq<RowView>, i: int, j: int)
    requires
        is_cumulative(rows),
        0 <= i <= j < rows.len(),
    ensures
        rows[i].cumulative_kb <= rows[j].cumulative_kb,
    decreases j - i,
{
    if i < j {
        lemma_cumulative_grows(rows, i, j - 1);
        lemma_cumulative_step(rows, j);
    }
}

/// The percentage that `kb` is of a total `t` is the fraction
/// `percent_numerator(kb) / t`. All rows of a report are measured against
/// one total, so their percentages are fractions with one denominator, and
/// adding percentages is adding numerators.
pub open spec fn percent_numerator(kb: nat) -> nat {
    100 * kb
}

/// The numerators of the percentages of `rows`, added up.
pub open spec fn percent_numerators(rows: Seq<RowView>) -> nat
    decreases rows.len(),
{
    if rows.len() == 0 {
        0
    } else {
        percent_numerators(rows.drop_last()) + percent_numerator(rows.last().memory_kb)
    }
}

/// The percentages of rows add up to the percentage of their memory.
pub proof fn lemma_percent_numerators(rows: Seq<RowView>)
    ensures
        percent_numerators(rows) == percent_numerator(memory_of_rows(rows)),
    decreases rows.len(),
{
    if rows.len() > 0 {
        lemma_percent_numerators(rows.drop_last());
    }
}

/// The cumulative percentage of a row is the sum of the percentages of the
/// rows down to it, and it never falls from one row to the next. The same
/// holds of the cumulative percentage as it is shown, in hundredths: down
/// the report it never falls.
pub proof fn lemma_cumulative_percentage(rows: Seq<RowView>, total_kb: nat, i: int, j: int)
    requires
        is_cumulative(rows),
        total_kb > 0,
        0 <= i <= j < rows.len(),
    ensures
        percent_numerator(rows[j].cumulative_kb) == percent_numerators(rows.take(j + 1)),
        percent_numerator(rows[i].cumulative_kb) <= percent_numerator(rows[j].cumulative_kb),
        percent_hundredths(rows[i].cumulative_kb, total_kb) <= percent_hundredths(
            rows[j].cumulative_kb,
            total_kb,
        ),
{
    lemma_percent_numerators(rows.take(j + 1));
    lemma_cumulative_grows(rows, i, j);
    lemma_percent_grows(rows[i].cumulative_kb, rows[j].cumulative_kb, total_kb);
}

/// The row that shows an entry.
pub(crate) open spec fn row_of(entry: Entry, cumulative_kb: nat) -> RowView {
    RowView {
        key: entry.key@,
        count: entry.count as nat,
        memory_kb: entry.memory_kb as nat,
        cumulative_kb,
    }
}

/// Whether entry `a` stands above entry `b`.
pub(crate) open spec fn entry_before(entries: Seq<Entry>, a: int, b: int) -> bool {
    ranks_before(row_of(entries[a], 0), row_of(entries[b], 0))
}

/// The memory of the entries that `order` names, together.
pub(crate) open spec fn memory_along(entries: Seq<Entry>, order: Seq<usize>) -> nat
    decreases order.len(),
{
    if order.len() == 0 {
        0
    } else {
        memory_along(entries, order.drop_last()) + entries[order.last() as int].memory_kb as nat
    }
}

/// Whether `order` names entry `k` at place `p`.
pub(crate) open spec fn placed(order: Seq<usize>, p: int, k: int) -> bool {
    0 <= p < order.len() && order[p] == k
}

/// Whether `order` names entry `k`.
pub(crate) open spec fn names(order: Seq<usize>, k: int) -> bool {
    exists|p: int| placed(order, p, k)
}

/// Whether `order` names the first `upto` entries, each once, in their rank.
pub(crate) open spec fn is_order(entries: Seq<Entry>, order: Seq<usize>, upto: int) -> bool {
    &&& order.len() == upto
    &&& forall|p: int| 0 <= p < order.len() ==> 0 <= #[trigger] order[p] < upto
    &&& forall|k: int| 0 <= k < upto ==> #[trigger] names(order, k)
    &&& forall|p: int, q: int|
        0 <= p < q < order.len() ==> entry_before(
            entries,
            #[trigger] order[p] as int,
            #[trigger] order[q] as int,
        )
    &&& memory_along(entries, order) == memory_of_entries(entries.take(upto))
}

/// A name put into an order adds the memory of its entry.
proof fn lemma_memory_along_insert(entries: Seq<Entry>, order: Seq<usize>, at: int, k: usize)
    requires
        0 <= at <= order.len(),
    ensures
        memory_along(entries, order.insert(at, k)) == memory_along(entries, order)
            + entries[k as int].memory_kb,
    decreases order.len(),
{
    let longer = order.insert(at, k);
    if at == order.len() {
        assert(longer.drop_last() == order);
    } else {
        assert(longer.drop_last() == order.drop_last().insert(at, k));
        lemma_memory_along_insert(entries, order.drop_last(), at, k);
    }
}

/// The first names of an order stand for no more memory than all of them.
proof fn lemma_memory_along_grows(entries: Seq<Entry>, order: Seq<usize>, n: int)
    requires
        0 <= n <= order.len(),
    ensures
        memory_along(entries, order.take(n)) <= memory_along(entries, order),
    decreases order.len() - n,
{
    if n < order.len() {
        lemma_memory_along_grows(entries, order, n + 1);
        assert(order.take(n + 1).drop_last() == order.take(n));
    } else {
        assert(order.take(n) == order);
    }
}

/// The rows that an order of the entries gives.
pub(crate) open spec fn rows_along(entries: Seq<Entry>, order: Seq<usize>) -> Seq<RowView> {
    Seq::new(
        order.len(),
        |p: int| row_of(entries[order[p] as int], memory_along(entries, order.take(p + 1))),
    )
}

/// The rows of an order hold the memory of the entries that it names.
proof fn lemma_rows_along_memory(entries: Seq<Entry>, order: Seq<usize>, n: int)
    requires
        0 <= n <= order.len(),
    ensures
        memory_of_rows(rows_along(entries, order).take(n)) == memory_along(entries, order.take(n)),
    decreases n,
{
    let rows = rows_along(entries, order);
    if n > 0 {
        lemma_rows_along_memory(entries, order, n - 1);
        assert(rows.take(n).drop_last() == rows.take(n - 1));
        assert(order.take(n).drop_last() == order.take(n - 1));
    }
}

/// The rows of an order of all entries are the report of their table.
proof fn lemma_rows_along_rank(entries: Seq<Entry>, order: Seq<usize>)
    requires
        distinct_keys(entries),
        is_order(entries, order, entries.len() as int),
    ensures
        is_full_report(rows_along(entries, order), table_of(entries)),
        rows_along(entries, order) == full_report_of(table_of(entries)),
{
    let rows = rows_along(entries, order);
    let table = table_of(entries);
    assert forall|i: int| 0 <= i < rows.len() implies table.contains_key((#[trigger] rows[i]).key)
        && table[rows[i].key] == (Tally { count: rows[i].count, memory_kb: rows[i].memory_kb }) by {
        lemma_table_lookup(entries, order[i] as int);
    }
    assert forall|key: Seq<char>| #[trigger] table.contains_key(key) implies exists|i: int|
        shows(rows, i, key) by {
        let k = choose|k: int| holds(entries, k, key);
        assert(names(order, k));
        let p = choose|p: int| placed(order, p, k);
        assert(shows(rows, p, key));
    }
    assert forall|i: int, j: int| 0 <= i < j < rows.len() implies ranks_before(
        #[trigger] rows[i],
        #[trigger] rows[j],
    ) by {
        assert(entry_before(entries, order[i] as int, order[j] as int));
    }
    assert forall|i: int| 0 <= i < rows.len() implies (#[trigger] rows[i]).cumulative_kb
        == memory_of_rows(rows.take(i + 1)) by {
        lemma_rows_along_memory(entries, order, i + 1);
    }
    lemma_full_report_unique(rows, full_report_of(table), table);
}

impl Aggregator {
    /// Whether entry `a` stands above entry `b`.
    fn entry_precedes(&self, keys: &Vec<Vec<char>>, a: usize, b: usize) -> (before: bool)
        requires
            a < self.entries@.len(),
            b < self.entries@.len(),
            keys@.len() == self.entries@.len(),
            forall|k: int| 0 <= k < keys@.len() ==> (#[trigger] keys@[k])@ == self.entries@[k].key@,
        ensures
            before == entry_before(self.entries@, a as int, b as int),
    {
        let x = &self.entries[a];
        let y = &self.entries[b];
        x.memory_kb > y.memory_kb || (x.memory_kb == y.memory_kb && key_precedes(
            &keys[a],
            &keys[b],
        ))
    }

    /// The entries of the table in their rank.
    fn rank_order(&self) -> (order: Vec<usize>)
        requires
            self.wf(),
        ensures
            is_order(self.entries@, order@, self.entries@.len() as int),
    {
        let ghost entries = self.entries@;
        let n = self.entries.len();
        let mut keys: Vec<Vec<char>> = Vec::new();
        let mut k: usize = 0;
        while k < n
            invariant
                k <= n == self.entries@.len(),
                keys@.len() == k,
                forall|j: int| 0 <= j < k ==> (#[trigger] keys@[j])@ == self.entries@[j].key@,
            decreases n - k,
        {
            keys.push(chars_of(self.entries[k].key.as_str()));
            k += 1;
        }
        let mut order: Vec<usize> = Vec::new();
        let mut i: usize = 0;
        while i < n
            invariant
                i <= n == self.entries@.len(),
                entries == self.entries@,
                self.wf(),
                keys@.len() == n,
                forall|j: int| 0 <= j < n ==> (#[trigger] keys@[j])@ == self.entries@[j].key@,
                is_order(entries, order@, i as int),
            decreases n - i,
        {
            let mut at: usize = 0;
            while at < order.len() && !self.entry_precedes(&keys, i, order[at])
                invariant
                    at <= order.len() == i < n,
                    n == self.entries@.len(),
                    entries == self.entries@,
                    keys@.len() == n,
                    forall|j: int| 0 <= j < n ==> (#[trigger] keys@[j])@ == self.entries@[j].key@,
                    forall|p: int| 0 <= p < order.len() ==> 0 <= #[trigger] order@[p] < i,
                    forall|p: int|
                        0 <= p < at ==> !entry_before(entries, i as int, #[trigger] order@[p] as int),
                decreases order.len() - at,
            {
                at += 1;
            }
            let ghost before = order@;
            order.insert(at, i);
            proof {
                self.lemma_entries();
                lemma_rank_inserted(entries, before, at as int, i as int);
            }
            i += 1;
        }
        order
    }

    /// The report of the table: its keys by falling memory, keys with the
    /// same memory in the order of the keys, every row with the memory of the
    /// rows down to it. It has a row for every key, unless the table holds
    /// more than `limit` keys: then it has the `limit` rows of the keys that
    /// rank first.
    pub fn report(&self, limit: usize) -> (rows: Vec<ReportRow>)
        requires
            self.wf(),
        ensures
            is_full_report(full_report_of(self@.by_key), self@.by_key),
            rows.deep_view() == report_of(self@, limit as nat),
            is_top(rows.deep_view(), self@.by_key, limit as nat),
            memory_falls(rows.deep_view()),
            is_cumulative(rows.deep_view()),
            self@.by_key.dom().finite(),
            rows.len() == if limit < self@.by_key.dom().len() {
                limit as nat
            } else {
                self@.by_key.dom().len()
            },
    {
        let ghost entries = self.entries@;
        let order = self.rank_order();
        let shown = if limit < order.len() {
            limit
        } else {
            order.len()
        };
        let mut rows: Vec<ReportRow> = Vec::new();
        let mut cumulative: u64 = 0;
        let mut p: usize = 0;
        while p < shown
            invariant
                p <= shown <= order.len(),
                entries == self.entries@,
                self.wf(),
                is_order(entries, order@, entries.len() as int),
                rows.len() == p,
                cumulative == memory_along(entries, order@.take(p as int)),
                forall|q: int| 0 <= q < p ==> (#[trigger] rows[q])@ == rows_along(entries, order@)[q],
            decreases shown - p,
        {
            let entry = &self.entries[order[p]];
            proof {
                self.lemma_entries();
                lemma_memory_along_grows(entries, order@, p + 1);
                assert(order@.take(p + 1).drop_last() == order@.take(p as int));
                assert(entries.take(entries.len() as int) == entries);
            }
            cumulative = cumulative + entry.memory_kb;
            rows.push(
                ReportRow {
                    key: entry.key.clone(),
                    count: entry.count,
                    memory_kb: entry.memory_kb,
                    cumulative_kb: cumulative,
                },
            );
            p += 1;
        }
        proof {
            self.lemma_entries();
            lemma_rows_along_rank(entries, order@);
            let full = rows_along(entries, order@);
            assert(rows.deep_view() =~= full.take(shown as int));
            lemma_ranked_memory_falls(full, table_of(entries));
            lemma_first_rows(full, shown as int);
            lemma_ranked_counts_keys(full, table_of(entries));
            lemma_first_rows_are_top(full, table_of(entries), limit as nat);
            assert(full.take(full.len() as int) == full);
            assert(rows.deep_view() == report_of(self@, limit as nat));
        }
        rows
    }
}

/// An entry put into an order in front of the first name that it stands
/// above keeps the order ranked.
proof fn lemma_rank_inserted(entries: Seq<Entry>, order: Seq<usize>, at: int, i: int)
    requires
        distinct_keys(entries),
        0 <= i < entries.len(),
        i <= usize::MAX,
        is_order(entries, order, i),
        0 <= at <= order.len(),
        forall|p: int| 0 <= p < at ==> !entry_before(entries, i, #[trigger] order[p] as int),
        at < order.len() ==> entry_before(entries, i, order[at] as int),
    ensures
        is_order(entries, order.insert(at, i as usize), i + 1),
{
    let after = order.insert(at, i as usize);
    assert forall|k: int| 0 <= k < i + 1 implies #[trigger] names(after, k) by {
        if k == i {
            assert(placed(after, at, k));
        } else {
            assert(names(order, k));
            let p = choose|p: int| placed(order, p, k);
            if p < at {
                assert(placed(after, p, k));
            } else {
                assert(placed(after, p + 1, k));
            }
        }
    }
    assert forall|p: int, q: int| 0 <= p < q < after.len() implies entry_before(
        entries,
        #[trigger] after[p] as int,
        #[trigger] after[q] as int,
    ) by {
        if q == at {
            // `i` does not stand above what precedes it, so that stands above `i`.
            assert(after[p] == order[p]);
            lemma_rank_total(row_of(entries[i], 0), row_of(entries[order[p] as int], 0));
        } else if p == at {
            assert(after[q] == order[q - 1]);
            if q - 1 > at {
                assert(entry_before(entries, order[at] as int, order[q - 1] as int));
                lemma_rank_transitive(
                    row_of(entries[i], 0),
                    row_of(entries[order[at] as int], 0),
                    row_of(entries[order[q - 1] as int], 0),
                );
            }
        } else {
            let p0 = if p < at { p } else { p - 1 };
            let q0 = if q < at { q } else { q - 1 };
            assert(after[p] == order[p0]);
            assert(after[q] == order[q0]);
        }
    }
    lemma_memory_along_insert(entries, order, at, i as usize);
    assert(entries.take(i + 1).drop_last() == entries.take(i));
}

} // verus!
