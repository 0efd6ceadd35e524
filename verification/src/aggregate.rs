//! Counting processes and adding up their memory, key by key.

use vstd::prelude::*;

verus! {

/// What has been counted under one key. Under a key that was never seen both
/// numbers are zero.
pub struct Tally {
    /// How many processes.
    pub count: nat,
    /// Their resident memory together, in kilobytes.
    pub memory_kb: nat,
}

/// The state of the count as specifications see it.
pub struct Totals {
    /// The tally of every key that was seen.
    pub by_key: Map<Seq<char>, Tally>,
    /// The memory of all keys together, in kilobytes.
    pub memory_kb: nat,
}

impl Totals {
    /// Nothing counted yet.
    pub open spec fn empty() -> Totals {
        Totals { by_key: Map::empty(), memory_kb: 0 }
    }

    /// The tally under `key`.
    pub open spec fn tally(self, key: Seq<char>) -> Tally {
        if self.by_key.contains_key(key) {
            self.by_key[key]
        } else {
            Tally { count: 0, memory_kb: 0 }
        }
    }

    /// The totals with one more process under `key`: its tally has one
    /// process more and `rss_kb` more memory. A key seen for the first time
    /// starts at one process and `rss_kb`.
    pub open spec fn record(self, key: Seq<char>, rss_kb: nat) -> Totals {
        Totals {
            by_key: self.by_key.insert(
                key,
                Tally {
                    count: self.tally(key).count + 1,
                    memory_kb: self.tally(key).memory_kb + rss_kb,
                },
            ),
            memory_kb: self.memory_kb + rss_kb,
        }
    }
}

/// Why a process could not be counted.
#[derive(Clone, Copy, Debug, PartialEq, Eq, Structural)]
pub enum Overflow {
    /// The memory of all processes together would pass `u64::MAX` kilobytes.
    Memory,
    /// The key would stand for more than `u32::MAX` processes.
    Processes,
}

/// What counting one more process leads to: the new totals, or the limit
/// that stands in the way.
pub open spec fn record_outcome(totals: Totals, key: Seq<char>, rss_kb: u64) -> Result<
    Totals,
    Overflow,
> {
    if totals.memory_kb + rss_kb > u64::MAX {
        Err(Overflow::Memory)
    } else if totals.tally(key).count >= u32::MAX {
        Err(Overflow::Processes)
    } else {
        Ok(totals.record(key, rss_kb as nat))
    }
}

/// Counting only adds: no tally ever falls, and no key is ever lost.
pub proof fn lemma_record_only_adds(totals: Totals, key: Seq<char>, rss_kb: nat, other: Seq<char>)
    ensures
        totals.record(key, rss_kb).tally(other).count >= totals.tally(other).count,
        totals.record(key, rss_kb).tally(other).memory_kb >= totals.tally(other).memory_kb,
        totals.by_key.contains_key(other) ==> totals.record(key, rss_kb).by_key.contains_key(other),
        totals.record(key, rss_kb).memory_kb >= totals.memory_kb,
{
}

/// How many of `samples` stand under `key`.
pub open spec fn occurrences(samples: Seq<(Seq<char>, u64)>, key: Seq<char>) -> nat
    decreases samples.len(),
{
    if samples.len() == 0 {
        0
    } else {
        occurrences(samples.drop_last(), key) + if samples.last().0 == key {
            1nat
        } else {
            0nat
        }
    }
}

/// The memory of the `samples` that stand under `key`, together.
pub open spec fn memory_under(samples: Seq<(Seq<char>, u64)>, key: Seq<char>) -> nat
    decreases samples.len(),
{
    if samples.len() == 0 {
        0
    } else {
        memory_under(samples.drop_last(), key) + if samples.last().0 == key {
            samples.last().1 as nat
        } else {
            0nat
        }
    }
}

/// The memory of all `samples` together.
pub open spec fn memory_of_samples(samples: Seq<(Seq<char>, u64)>) -> nat
    decreases samples.len(),
{
    if samples.len() == 0 {
        0
    } else {
        memory_of_samples(samples.drop_last()) + samples.last().1 as nat
    }
}

/// The totals after `samples`, each a key with the memory of one process,
/// were counted one after the other.
pub open spec fn totals_of(samples: Seq<(Seq<char>, u64)>) -> Totals
    decreases samples.len(),
{
    if samples.len() == 0 {
        Totals::empty()
    } else {
        totals_of(samples.drop_last()).record(samples.last().0, samples.last().1 as nat)
    }
}

/// What counting `samples` one after the other leads to: their totals, or
/// the first limit that stands in the way.
pub open spec fn count_outcome(samples: Seq<(Seq<char>, u64)>) -> Result<Totals, Overflow>
    decreases samples.len(),
{
    if samples.len() == 0 {
        Ok(Totals::empty())
    } else {
        match count_outcome(samples.drop_last()) {
            Ok(totals) => record_outcome(totals, samples.last().0, samples.last().1),
            Err(limit) => Err(limit),
        }
    }
}

/// Under every key the totals hold the number of the samples with that key
/// and the sum of their memory; they hold a key if and only if a sample has
/// it; and their memory is the memory of all samples.
pub proof fn lemma_totals_count_and_sum(samples: Seq<(Seq<char>, u64)>, key: Seq<char>)
    ensures
        totals_of(samples).tally(key) == (Tally {
            count: occurrences(samples, key),
            memory_kb: memory_under(samples, key),
        }),
        totals_of(samples).by_key.contains_key(key) <==> occurrences(samples, key) > 0,
        totals_of(samples).memory_kb == memory_of_samples(samples),
    decreases samples.len(),
{
    if samples.len() > 0 {
        lemma_totals_count_and_sum(samples.drop_last(), key);
    }
}

/// Samples that all have one key and the same memory make one aggregate:
/// it counts as many processes as there are samples, and holds as many times
/// the memory of one.
pub proof fn lemma_equal_samples(samples: Seq<(Seq<char>, u64)>, key: Seq<char>, rss_kb: u64)
    requires
        forall|i: int| 0 <= i < samples.len() ==> #[trigger] samples[i] == (key, rss_kb),
    ensures
        totals_of(samples).tally(key) == (Tally {
            count: samples.len(),
            memory_kb: samples.len() * rss_kb as nat,
        }),
        forall|other: Seq<char>| other != key ==> !totals_of(samples).by_key.contains_key(other),
    decreases samples.len(),
{
    if samples.len() > 0 {
        let earlier = samples.drop_last();
        assert forall|i: int| 0 <= i < earlier.len() implies #[trigger] earlier[i] == (
            key,
            rss_kb,
        ) by {
            assert(earlier[i] == samples[i]);
        }
        lemma_equal_samples(earlier, key, rss_kb);
        assert(samples.last() == samples[samples.len() - 1]);
        assert(samples.len() * rss_kb as nat == earlier.len() * rss_kb as nat + rss_kb as nat)
            by (nonlinear_arith)
            requires
                samples.len() == earlier.len() + 1,
        ;
    }
}

/// Where no limit stands in the way, counting leads to the totals of the
/// samples; and no limit stands in the way if and only if the memory of all
/// samples fits in 64 bits and the processes of every key in 32.
pub proof fn lemma_count_outcome(samples: Seq<(Seq<char>, u64)>)
    ensures
        count_outcome(samples) is Ok ==> count_outcome(samples) == Ok::<Totals, Overflow>(
            totals_of(samples),
        ),
        count_outcome(samples) is Ok <==> memory_of_samples(samples) <= u64::MAX && forall|
            key: Seq<char>,
        | #[trigger] occurrences(samples, key) <= u32::MAX,
    decreases samples.len(),
{
    if samples.len() > 0 {
        let earlier = samples.drop_last();
        let key = samples.last().0;
        lemma_count_outcome(earlier);
        lemma_totals_count_and_sum(earlier, key);
        match count_outcome(earlier) {
            Ok(totals) => {
                if record_outcome(totals, key, samples.last().1) is Ok {
                    assert forall|other: Seq<char>| #[trigger]
                        occurrences(samples, other) <= u32::MAX by {
                        assert(occurrences(earlier, other) <= u32::MAX);
                    }
                } else if totals.memory_kb + samples.last().1 <= u64::MAX {
                    assert(occurrences(samples, key) > u32::MAX);
                }
            },
            Err(_) => {
                if memory_of_samples(earlier) <= u64::MAX {
                    let high = choose|high: Seq<char>| occurrences(earlier, high) > u32::MAX;
                    assert(occurrences(samples, high) > u32::MAX);
                }
            },
        }
    } else {
        assert forall|key: Seq<char>| #[trigger] occurrences(samples, key) <= u32::MAX by {}
    }
}

/// The processes counted under one key.
#[derive(Clone, Copy, Debug, PartialEq, Eq, Structural)]
pub struct Aggregate {
    /// How many processes.
    pub count: u32,
    /// Their resident memory together, in kilobytes.
    pub memory_kb: u64,
}

/// One key of the table with its aggregate.
#[derive(Debug)]
pub(crate) struct Entry {
    pub(crate) key: String,
    pub(crate) count: u32,
    pub(crate) memory_kb: u64,
}

/// The memory of all entries together.
pub(crate) open spec fn memory_of_entries(entries: Seq<Entry>) -> nat
    decreases entries.len(),
{
    if entries.len() == 0 {
        0
    } else {
        memory_of_entries(entries.drop_last()) + entries.last().memory_kb as nat
    }
}

/// Whether entry `i` holds `key`.
pub(crate) open spec fn holds(entries: Seq<Entry>, i: int, key: Seq<char>) -> bool {
    0 <= i < entries.len() && entries[i].key@ == key
}

/// The table of aggregates: every key that was seen, with the number of its
/// processes and their memory.
#[derive(Debug)]
pub struct Aggregator {
    pub(crate) entries: Vec<Entry>,
    pub(crate) total_kb: u64,
}

/// The tally that an entry holds.
pub(crate) open spec fn tally_of(entry: Entry) -> Tally {
    Tally { count: entry.count as nat, memory_kb: entry.memory_kb as nat }
}

/// Whether no key stands twice among the entries.
pub(crate) open spec fn distinct_keys(entries: Seq<Entry>) -> bool {
    forall|i: int, j: int| 0 <= i < j < entries.len() ==> entries[i].key@ != entries[j].key@
}

/// The entries as a map from each key to its tally.
pub(crate) open spec fn table_of(entries: Seq<Entry>) -> Map<Seq<char>, Tally> {
    Map::new(
        |key: Seq<char>| exists|i: int| holds(entries, i, key),
        |key: Seq<char>| tally_of(entries[choose|i: int| holds(entries, i, key)]),
    )
}

impl View for Aggregator {
    type V = Totals;

    closed spec fn view(&self) -> Totals {
        Totals { by_key: table_of(self.entries@), memory_kb: self.total_kb as nat }
    }
}

impl Aggregator {
    /// What holds of every table: no key stands twice, every key stands for
    /// a process at least, and the memory of the keys adds up to the total.
    pub closed spec fn wf(&self) -> bool {
        &&& distinct_keys(self.entries@)
        &&& forall|i: int| 0 <= i < self.entries@.len() ==> self.entries@[i].count >= 1
        &&& memory_of_entries(self.entries@) == self.total_kb
    }

    /// What `wf` and the view say of the entries.
    pub(crate) proof fn lemma_entries(&self)
        requires
            self.wf(),
        ensures
            distinct_keys(self.entries@),
            memory_of_entries(self.entries@) == self.total_kb,
            self@.by_key == table_of(self.entries@),
    {
    }

    /// An empty table.
    pub fn new() -> (table: Aggregator)
        ensures
            table.wf(),
            table@ == Totals::empty(),
    {
        let table = Aggregator { entries: Vec::new(), total_kb: 0 };
        assert(table@.by_key =~= Map::empty());
        table
    }

    /// Where `key` stands in the table.
    fn position(&self, key: &String) -> (at: Option<usize>)
        ensures
            match at {
                Some(i) => holds(self.entries@, i as int, key@),
                None => forall|i: int| !holds(self.entries@, i, key@),
            },
    {
        let mut i: usize = 0;
        while i < self.entries.len()
            invariant
                i <= self.entries.len(),
                forall|j: int| 0 <= j < i ==> !holds(self.entries@, j, key@),
            decreases self.entries.len() - i,
        {
            if self.entries[i].key == *key {
                return Some(i);
            }
            i += 1;
        }
        None
    }

    /// The aggregate under `key`, if the key was seen. It stands for one
    /// process at least.
    pub fn get(&self, key: &str) -> (found: Option<Aggregate>)
        requires
            self.wf(),
        ensures
            match found {
                Some(aggregate) => aggregate.count >= 1 && self@.by_key.contains_key(key@)
                    && self@.by_key[key@] == (Tally {
                    count: aggregate.count as nat,
                    memory_kb: aggregate.memory_kb as nat,
                }),
                None => !self@.by_key.contains_key(key@),
            },
    {
        let wanted = key.to_owned();
        match self.position(&wanted) {
            Some(i) => {
                proof {
                    lemma_table_lookup(self.entries@, i as int);
                }
                let entry = &self.entries[i];
                Some(Aggregate { count: entry.count, memory_kb: entry.memory_kb })
            },
            None => None,
        }
    }

    /// The memory of all keys together, in kilobytes.
    pub fn total_kb(&self) -> (total: u64)
        ensures
            total == self@.memory_kb,
    {
        self.total_kb
    }

    /// Counts `samples`, each a key with the memory of one process, into a
    /// new table. The first limit that stands in the way ends the count;
    /// none does where the memory of all samples fits in 64 bits and the
    /// processes of every key in 32.
    pub fn from_samples(samples: &[(String, u64)]) -> (counted: Result<Aggregator, Overflow>)
        ensures
            match counted {
                Ok(table) => table.wf() && table@ == totals_of(samples.deep_view()),
                Err(limit) => count_outcome(samples.deep_view()) == Err::<Totals, Overflow>(limit),
            },
            counted is Ok <==> memory_of_samples(samples.deep_view()) <= u64::MAX && forall|
                key: Seq<char>,
            | #[trigger] occurrences(samples.deep_view(), key) <= u32::MAX,
    {
        let ghost all = samples.deep_view();
        let mut table = Aggregator::new();
        let mut i: usize = 0;
        while i < samples.len()
            invariant
                i <= samples.len(),
                all == samples.deep_view(),
                table.wf(),
                count_outcome(all.take(i as int)) == Ok::<Totals, Overflow>(table@),
            decreases samples.len() - i,
        {
            assert(all.take(i + 1).drop_last() == all.take(i as int));
            match table.record(samples[i].0.clone(), samples[i].1) {
                Ok(()) => {},
                Err(limit) => {
                    proof {
                        lemma_count_stays_failed(all, i + 1);
                        lemma_count_outcome(all);
                    }
                    return Err(limit);
                },
            }
            i += 1;
        }
        assert(all.take(i as int) == all);
        proof {
            lemma_count_outcome(all);
        }
        Ok(table)
    }

    /// Counts one more process under `key`. Where a limit stands in the way
    /// the table stays as it is.
    pub fn record(&mut self, key: String, rss_kb: u64) -> (done: Result<(), Overflow>)
        requires
            old(self).wf(),
        ensures
            final(self).wf(),
            match done {
                Ok(()) => record_outcome(old(self)@, key@, rss_kb) == Ok::<Totals, Overflow>(
                    final(self)@,
                ),
                Err(limit) => record_outcome(old(self)@, key@, rss_kb) == Err::<Totals, Overflow>(
                    limit,
                ) && final(self)@ == old(self)@,
            },
    {
        if rss_kb > u64::MAX - self.total_kb {
            return Err(Overflow::Memory);
        }
        let ghost before = self.entries@;
        match self.position(&key) {
            Some(i) => {
                let count = self.entries[i].count;
                let memory_kb = self.entries[i].memory_kb;
                if count == u32::MAX {
                    return Err(Overflow::Processes);
                }
                proof {
                    lemma_entry_within_total(before, i as int);
                    lemma_table_lookup(before, i as int);
                }
                let entry = Entry { key, count: count + 1, memory_kb: memory_kb + rss_kb };
                self.entries.set(i, entry);
                self.total_kb = self.total_kb + rss_kb;
                proof {
                    lemma_memory_after_update(before, i as int, self.entries@[i as int]);
                    lemma_table_update(before, i as int, self.entries@[i as int]);
                }
                Ok(())
            },
            None => {
                let entry = Entry { key, count: 1, memory_kb: rss_kb };
                self.entries.push(entry);
                self.total_kb = self.total_kb + rss_kb;
                proof {
                    assert(self.entries@.drop_last() == before);
                    lemma_table_push(before, self.entries@.last());
                }
                Ok(())
            },
        }
    }
}

/// A count that has failed stays failed, with the same limit.
proof fn lemma_count_stays_failed(samples: Seq<(Seq<char>, u64)>, n: int)
    requires
        0 <= n <= samples.len(),
        count_outcome(samples.take(n)) is Err,
    ensures
        count_outcome(samples) == count_outcome(samples.take(n)),
    decreases samples.len() - n,
{
    if n < samples.len() {
        assert(samples.take(n + 1).drop_last() == samples.take(n));
        lemma_count_stays_failed(samples, n + 1);
    } else {
        assert(samples.take(n) == samples);
    }
}

/// An entry is found in the table under its key.
pub(crate) proof fn lemma_table_lookup(entries: Seq<Entry>, i: int)
    requires
        distinct_keys(entries),
        0 <= i < entries.len(),
    ensures
        table_of(entries).contains_key(entries[i].key@),
        table_of(entries)[entries[i].key@] == tally_of(entries[i]),
{
    let key = entries[i].key@;
    assert(holds(entries, i, key));
    let chosen = choose|j: int| holds(entries, j, key);
    assert(chosen == i);
}

/// An entry with a new key adds its key to the table.
pub(crate) proof fn lemma_table_push(entries: Seq<Entry>, entry: Entry)
    requires
        distinct_keys(entries),
        forall|i: int| !holds(entries, i, entry.key@),
    ensures
        distinct_keys(entries.push(entry)),
        table_of(entries.push(entry)) == table_of(entries).insert(entry.key@, tally_of(entry)),
{
    let after = entries.push(entry);
    assert forall|i: int, j: int| 0 <= i < j < after.len() implies after[i].key@
        != after[j].key@ by {
        if j == entries.len() {
            assert(!holds(entries, i, entry.key@));
        }
    }
    assert forall|key: Seq<char>| table_of(after).contains_key(key) == table_of(entries).insert(
        entry.key@,
        tally_of(entry),
    ).contains_key(key) by {
        if key == entry.key@ {
            assert(holds(after, entries.len() as int, key));
        } else if table_of(after).contains_key(key) {
            let j = choose|j: int| holds(after, j, key);
            assert(holds(entries, j, key));
        } else if table_of(entries).contains_key(key) {
            let j = choose|j: int| holds(entries, j, key);
            assert(holds(after, j, key));
        }
    }
    assert forall|key: Seq<char>| table_of(after).contains_key(key) implies table_of(after)[key]
        == table_of(entries).insert(entry.key@, tally_of(entry))[key] by {
        let j = choose|j: int| holds(after, j, key);
        lemma_table_lookup(after, j);
        if key != entry.key@ {
            assert(holds(entries, j, key));
            lemma_table_lookup(entries, j);
        } else {
            assert(j == entries.len()) by {
                if j < entries.len() {
                    assert(holds(entries, j, entry.key@));
                }
            }
        }
    }
}

/// A new entry in the place of one with the same key changes the table
/// under that key only.
pub(crate) proof fn lemma_table_update(entries: Seq<Entry>, i: int, entry: Entry)
    requires
        distinct_keys(entries),
        0 <= i < entries.len(),
        entry.key@ == entries[i].key@,
    ensures
        distinct_keys(entries.update(i, entry)),
        table_of(entries.update(i, entry)) == table_of(entries).insert(entry.key@, tally_of(entry)),
{
    let after = entries.update(i, entry);
    assert forall|key: Seq<char>, j: int| holds(after, j, key) == holds(entries, j, key) by {}
    assert forall|key: Seq<char>| table_of(after).contains_key(key) == table_of(entries).insert(
        entry.key@,
        tally_of(entry),
    ).contains_key(key) by {
        if key == entry.key@ {
            assert(holds(after, i, key));
        } else if table_of(after).contains_key(key) {
            let j = choose|j: int| holds(after, j, key);
            assert(holds(entries, j, key));
        } else if table_of(entries).contains_key(key) {
            let j = choose|j: int| holds(entries, j, key);
            assert(holds(after, j, key));
        }
    }
    assert forall|key: Seq<char>| table_of(after).contains_key(key) implies table_of(after)[key]
        == table_of(entries).insert(entry.key@, tally_of(entry))[key] by {
        let j = choose|j: int| holds(after, j, key);
        lemma_table_lookup(after, j);
        if key != entry.key@ {
            assert(holds(entries, j, key));
            lemma_table_lookup(entries, j);
        } else {
            assert(holds(after, i, key));
        }
    }
}

/// No entry holds more memory than all entries together.
pub(crate) proof fn lemma_entry_within_total(entries: Seq<Entry>, i: int)
    requires
        0 <= i < entries.len(),
    ensures
        entries[i].memory_kb <= memory_of_entries(entries),
    decreases entries.len(),
{
    if i < entries.len() - 1 {
        lemma_entry_within_total(entries.drop_last(), i);
    }
}

/// Replacing one entry changes the total by the difference of its memory.
pub(crate) proof fn lemma_memory_after_update(entries: Seq<Entry>, i: int, entry: Entry)
    requires
        0 <= i < entries.len(),
    ensures
        memory_of_entries(entries.update(i, entry)) == memory_of_entries(entries)
            - entries[i].memory_kb + entry.memory_kb,
    decreases entries.len(),
{
    if i < entries.len() - 1 {
        lemma_memory_after_update(entries.drop_last(), i, entry);
        assert(entries.update(i, entry).drop_last() == entries.drop_last().update(i, entry));
    } else {
        assert(entries.update(i, entry).drop_last() == entries.drop_last());
    }
}

} // verus!
