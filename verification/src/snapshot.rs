//! Monitor snapshots: what every module of the bus read and wrote.
//!
//! A snapshot maps module names to their metrics, and each module's metrics
//! map topic names to read or write counters. Names are keys: a snapshot
//! never holds a module twice, and a module never holds a topic twice on the
//! same side. Modules are kept in increasing order of name, as the bus's own
//! snapshots list them. Message rates, which the monitor may also report, are kept by
//! the application and do not enter this model.
use vstd::prelude::*;
use crate::text::{equals, lemma_text_lt_total, lemma_text_lt_trans, text_less, text_lt};

verus! {

/// Counters for one topic that a module reads.
#[derive(Debug, Clone, Copy, PartialEq, Eq, Structural)]
pub struct ReadMetrics {
    /// Messages read so far.
    pub count: u64,
    /// Messages waiting to be read, when reported.
    pub backlog: Option<u64>,
    /// How long the oldest waiting message has waited, in microseconds.
    pub pending_us: Option<u64>,
}

/// Counters for one topic that a module writes.
#[derive(Debug, Clone, Copy, PartialEq, Eq, Structural)]
pub struct WriteMetrics {
    /// Messages written so far.
    pub count: u64,
    /// How long the current write has been pending, in microseconds.
    pub pending_us: Option<u64>,
}

/// No two entries of `s` have the same key.
pub open spec fn keys_unique<V>(s: Seq<(String, V)>) -> bool {
    forall|i: int, j: int|
        0 <= i < s.len() && 0 <= j < s.len() && i != j ==> #[trigger] s[i].0@ != #[trigger] s[j].0@
}

/// Some entry of `s` has the key `k`.
pub open spec fn has_key<V>(s: Seq<(String, V)>, k: Seq<char>) -> bool {
    exists|i: int| 0 <= i < s.len() && #[trigger] s[i].0@ == k
}

/// The position of the entry with key `k` (meaningful when `has_key(s, k)`).
pub open spec fn key_index<V>(s: Seq<(String, V)>, k: Seq<char>) -> int {
    choose|i: int| 0 <= i < s.len() && #[trigger] s[i].0@ == k
}

/// The value stored under key `k`, if any.
pub open spec fn lookup<V>(s: Seq<(String, V)>, k: Seq<char>) -> Option<V> {
    if has_key(s, k) {
        Some(s[key_index(s, k)].1)
    } else {
        None
    }
}

/// The entries of `s` after `v` is stored under `k`: an existing entry with
/// that key takes the new value in place, otherwise the pair is appended.
pub open spec fn insert_key<V>(s: Seq<(String, V)>, k: String, v: V) -> Seq<(String, V)> {
    if has_key(s, k@) {
        s.update(key_index(s, k@), (k, v))
    } else {
        s.push((k, v))
    }
}

/// Sum of the read counters of `s`.
pub open spec fn sum_read_counts(s: Seq<(String, ReadMetrics)>) -> int
    decreases s.len(),
{
    if s.len() == 0 {
        0
    } else {
        sum_read_counts(s.drop_last()) + s.last().1.count
    }
}

/// Sum of the write counters of `s`.
pub open spec fn sum_write_counts(s: Seq<(String, WriteMetrics)>) -> int
    decreases s.len(),
{
    if s.len() == 0 {
        0
    } else {
        sum_write_counts(s.drop_last()) + s.last().1.count
    }
}

proof fn lemma_sum_read_prefix(s: Seq<(String, ReadMetrics)>, i: int)
    requires
        0 <= i <= s.len(),
    ensures
        0 <= sum_read_counts(s.take(i)) <= sum_read_counts(s),
    decreases s.len() - i,
{
    if i < s.len() {
        lemma_sum_read_prefix(s, i + 1);
        assert(s.take(i + 1).drop_last() =~= s.take(i));
    } else {
        assert(s.take(i) =~= s);
    }
    lemma_sum_read_nonneg(s.take(i));
}

pub(crate) proof fn lemma_sum_read_nonneg(s: Seq<(String, ReadMetrics)>)
    ensures
        sum_read_counts(s) >= 0,
    decreases s.len(),
{
    if s.len() > 0 {
        lemma_sum_read_nonneg(s.drop_last());
    }
}

pub(crate) proof fn lemma_sum_write_nonneg(s: Seq<(String, WriteMetrics)>)
    ensures
        sum_write_counts(s) >= 0,
    decreases s.len(),
{
    if s.len() > 0 {
        lemma_sum_write_nonneg(s.drop_last());
    }
}

proof fn lemma_sum_write_prefix(s: Seq<(String, WriteMetrics)>, i: int)
    requires
        0 <= i <= s.len(),
    ensures
        0 <= sum_write_counts(s.take(i)) <= sum_write_counts(s),
    decreases s.len() - i,
{
    if i < s.len() {
        lemma_sum_write_prefix(s, i + 1);
        assert(s.take(i + 1).drop_last() =~= s.take(i));
    } else {
        assert(s.take(i) =~= s);
    }
    lemma_sum_write_nonneg(s.take(i));
}

/// Finds the position of key `k` in `s`.
fn find_key<V>(s: &Vec<(String, V)>, k: &String) -> (r: Option<usize>)
    ensures
        match r {
            Some(i) => i < s@.len() && s@[i as int].0@ == k@,
            None => !has_key(s@, k@),
        },
{
    let mut i: usize = 0;
    while i < s.len()
        invariant
            i <= s@.len(),
            forall|j: int| 0 <= j < i ==> s@[j].0@ != k@,
        decreases s@.len() - i,
    {
        if s[i].0 == *k {
            return Some(i);
        }
        i = i + 1;
    }
    None
}

/// Stores `v` under `k` in a list of keyed entries.
fn insert_entry<V>(s: &mut Vec<(String, V)>, k: String, v: V)
    requires
        keys_unique(old(s)@),
    ensures
        final(s)@ == insert_key(old(s)@, k, v),
        keys_unique(final(s)@),
{
    match find_key(s, &k) {
        Some(i) => {
            proof {
                let j = key_index(s@, k@);
                assert(s@[j].0@ == k@);
                assert(j == i as int);
            }
            s.set(i, (k, v));
        },
        None => {
            s.push((k, v));
        },
    }
}

/// The keys of `s` come in strictly increasing order of text.
pub open spec fn keys_sorted<V>(s: Seq<(String, V)>) -> bool {
    forall|i: int, j: int| 0 <= i < j < s.len() ==> text_lt(#[trigger] s[i].0@, #[trigger] s[j].0@)
}

pub(crate) proof fn lemma_sorted_unique<V>(s: Seq<(String, V)>)
    requires
        keys_sorted(s),
    ensures
        keys_unique(s),
{
    assert forall|i: int, j: int| 0 <= i < s.len() && 0 <= j < s.len() && i != j implies #[trigger] s[i].0@
        != #[trigger] s[j].0@ by {
        lemma_text_lt_total(s[i].0@, s[j].0@);
        if i < j {
            assert(text_lt(s[i].0@, s[j].0@));
        } else {
            assert(text_lt(s[j].0@, s[i].0@));
        }
    }
}

pub(crate) proof fn lemma_lookup_at<V>(s: Seq<(String, V)>, i: int)
    requires
        keys_unique(s),
        0 <= i < s.len(),
    ensures
        lookup(s, s[i].0@) == Some(s[i].1),
{
    assert(has_key(s, s[i].0@));
    let j = key_index(s, s[i].0@);
    assert(s[j].0@ == s[i].0@);
}

proof fn lemma_insert_sorted<V>(before: Seq<(String, V)>, i: int, k: String, v: V)
    requires
        keys_sorted(before),
        0 <= i <= before.len(),
        forall|j: int| 0 <= j < i ==> text_lt(#[trigger] before[j].0@, k@),
        forall|j: int| i <= j < before.len() ==> text_lt(k@, #[trigger] before[j].0@),
    ensures
        ({
            let new = before.insert(i, (k, v));
            &&& keys_sorted(new)
            &&& !has_key(before, k@)
            &&& forall|q: Seq<char>| #[trigger] lookup(new, q) == if q == k@ {
                Some(v)
            } else {
                lookup(before, q)
            }
            &&& forall|b: int| 0 <= b < new.len() ==> #[trigger] new[b] == (k, v) || before.contains(new[b])
        }),
{
    let new = before.insert(i, (k, v));
    lemma_sorted_unique(before);
    assert forall|j: int| 0 <= j < before.len() implies #[trigger] before[j].0@ != k@ by {
        lemma_text_lt_total(k@, before[j].0@);
        if j < i {
            assert(text_lt(before[j].0@, k@));
        } else {
            assert(text_lt(k@, before[j].0@));
        }
    }
    assert forall|a: int, b: int| 0 <= a < b < new.len() implies text_lt(#[trigger] new[a].0@, #[trigger] new[b].0@) by {
        if b < i {
            assert(new[a] == before[a] && new[b] == before[b]);
        } else if b == i {
            assert(new[a] == before[a]);
        } else if a < i {
            assert(new[a] == before[a] && new[b] == before[b - 1]);
            assert(text_lt(before[a].0@, k@));
            assert(text_lt(k@, before[b - 1].0@));
            lemma_text_lt_trans(before[a].0@, k@, before[b - 1].0@);
        } else if a == i {
            assert(new[b] == before[b - 1]);
        } else {
            assert(new[a] == before[a - 1] && new[b] == before[b - 1]);
        }
    }
    lemma_sorted_unique(new);
    assert forall|b: int| 0 <= b < new.len() implies #[trigger] new[b] == (k, v) || before.contains(new[b]) by {
        if b < i {
            assert(new[b] == before[b]);
        } else if b > i {
            assert(new[b] == before[b - 1]);
        }
    }
    assert(new[i] == (k, v));
    lemma_lookup_at(new, i);
    assert forall|q: Seq<char>| #[trigger] lookup(new, q) == if q == k@ {
        Some(v)
    } else {
        lookup(before, q)
    } by {
        if q != k@ {
            if has_key(before, q) {
                let a = key_index(before, q);
                lemma_lookup_at(before, a);
                if a < i {
                    assert(new[a] == before[a]);
                    lemma_lookup_at(new, a);
                } else {
                    assert(new[a + 1] == before[a]);
                    lemma_lookup_at(new, a + 1);
                }
            } else if has_key(new, q) {
                let b = key_index(new, q);
                if b < i {
                    assert(new[b] == before[b]);
                } else if b > i {
                    assert(new[b] == before[b - 1]);
                }
            }
        }
    }
}

proof fn lemma_replace_sorted<V>(before: Seq<(String, V)>, i: int, k: String, v: V)
    requires
        keys_sorted(before),
        0 <= i < before.len(),
        before[i].0@ == k@,
    ensures
        ({
            let new = before.update(i, (k, v));
            &&& keys_sorted(new)
            &&& has_key(before, k@)
            &&& forall|q: Seq<char>| #[trigger] lookup(new, q) == if q == k@ {
                Some(v)
            } else {
                lookup(before, q)
            }
            &&& forall|b: int| 0 <= b < new.len() ==> #[trigger] new[b] == (k, v) || before.contains(new[b])
        }),
{
    let new = before.update(i, (k, v));
    lemma_sorted_unique(before);
    assert forall|a: int, b: int| 0 <= a < b < new.len() implies text_lt(#[trigger] new[a].0@, #[trigger] new[b].0@) by {
        assert(new[a].0@ == before[a].0@ && new[b].0@ == before[b].0@);
    }
    lemma_sorted_unique(new);
    assert forall|b: int| 0 <= b < new.len() implies #[trigger] new[b] == (k, v) || before.contains(new[b]) by {
        if b != i {
            assert(new[b] == before[b]);
        }
    }
    lemma_lookup_at(new, i);
    assert forall|q: Seq<char>| #[trigger] lookup(new, q) == if q == k@ {
        Some(v)
    } else {
        lookup(before, q)
    } by {
        if q != k@ {
            if has_key(before, q) {
                let a = key_index(before, q);
                lemma_lookup_at(before, a);
                assert(new[a] == before[a]);
                lemma_lookup_at(new, a);
            } else if has_key(new, q) {
                let b = key_index(new, q);
                assert(new[b] == before[b]);
            }
        }
    }
}

/// The metrics of one module: counters per topic it reads and writes.
pub struct ModuleMetrics {
    reads: Vec<(String, ReadMetrics)>,
    writes: Vec<(String, WriteMetrics)>,
}

impl ModuleMetrics {
    #[verifier::type_invariant]
    spec fn inv(self) -> bool {
        keys_unique(self.reads@) && keys_unique(self.writes@)
    }

    /// The read counters, keyed by topic, in order.
    pub closed spec fn reads_spec(self) -> Seq<(String, ReadMetrics)> {
        self.reads@
    }

    /// The write counters, keyed by topic, in order.
    pub closed spec fn writes_spec(self) -> Seq<(String, WriteMetrics)> {
        self.writes@
    }

    /// Metrics holding the given read and write counters, each list keyed
    /// by distinct topics.
    pub fn from_entries(reads: Vec<(String, ReadMetrics)>, writes: Vec<(String, WriteMetrics)>) -> (r: Self)
        requires
            keys_unique(reads@),
            keys_unique(writes@),
        ensures
            r.reads_spec() == reads@,
            r.writes_spec() == writes@,
    {
        ModuleMetrics { reads, writes }
    }

    /// Metrics with no topics.
    pub fn new() -> (r: Self)
        ensures
            r.reads_spec().len() == 0,
            r.writes_spec().len() == 0,
    {
        ModuleMetrics { reads: Vec::new(), writes: Vec::new() }
    }

    /// The read counters, keyed by topic.
    pub fn reads(&self) -> (r: &Vec<(String, ReadMetrics)>)
        ensures
            r@ == self.reads_spec(),
            keys_unique(r@),
    {
        proof {
            use_type_invariant(self);
        }
        &self.reads
    }

    /// The write counters, keyed by topic.
    pub fn writes(&self) -> (r: &Vec<(String, WriteMetrics)>)
        ensures
            r@ == self.writes_spec(),
            keys_unique(r@),
    {
        proof {
            use_type_invariant(self);
        }
        &self.writes
    }

    /// Records the read counters of `topic`, replacing earlier ones.
    pub fn insert_read(&mut self, topic: String, metrics: ReadMetrics)
        ensures
            final(self).reads_spec() == insert_key(old(self).reads_spec(), topic, metrics),
            final(self).writes_spec() == old(self).writes_spec(),
    {
        proof {
            use_type_invariant(&*self);
        }
        let mut reads: Vec<(String, ReadMetrics)> = Vec::new();
        std::mem::swap(&mut reads, &mut self.reads);
        insert_entry(&mut reads, topic, metrics);
        self.reads = reads;
    }

    /// Records the write counters of `topic`, replacing earlier ones.
    pub fn insert_write(&mut self, topic: String, metrics: WriteMetrics)
        ensures
            final(self).writes_spec() == insert_key(old(self).writes_spec(), topic, metrics),
            final(self).reads_spec() == old(self).reads_spec(),
    {
        proof {
            use_type_invariant(&*self);
        }
        let mut writes: Vec<(String, WriteMetrics)> = Vec::new();
        std::mem::swap(&mut writes, &mut self.writes);
        insert_entry(&mut writes, topic, metrics);
        self.writes = writes;
    }

    /// Total messages read over all topics.
    pub fn total_reads(&self) -> (r: u64)
        requires
            sum_read_counts(self.reads_spec()) <= u64::MAX,
        ensures
            r == sum_read_counts(self.reads_spec()),
    {
        let reads = self.reads();
        let mut total: u64 = 0;
        let mut i: usize = 0;
        while i < reads.len()
            invariant
                i <= reads@.len(),
                reads@ == self.reads_spec(),
                sum_read_counts(reads@) <= u64::MAX,
                total == sum_read_counts(reads@.take(i as int)),
            decreases reads@.len() - i,
        {
            proof {
                assert(reads@.take(i + 1).drop_last() =~= reads@.take(i as int));
                lemma_sum_read_prefix(reads@, i + 1);
            }
            total = total + reads[i].1.count;
            i = i + 1;
        }
        proof {
            assert(reads@.take(i as int) =~= reads@);
        }
        total
    }

    /// Total messages read over all topics, or none when the total does not
    /// fit in 64 bits.
    pub fn checked_total_reads(&self) -> (r: Option<u64>)
        ensures
            match r {
                Some(t) => t == sum_read_counts(self.reads_spec()),
                None => sum_read_counts(self.reads_spec()) > u64::MAX,
            },
    {
        let reads = self.reads();
        let mut total: u64 = 0;
        let mut i: usize = 0;
        while i < reads.len()
            invariant
                i <= reads@.len(),
                reads@ == self.reads_spec(),
                total == sum_read_counts(reads@.take(i as int)),
            decreases reads@.len() - i,
        {
            proof {
                assert(reads@.take(i + 1).drop_last() =~= reads@.take(i as int));
                lemma_sum_read_prefix(reads@, i + 1);
            }
            if reads[i].1.count > u64::MAX - total {
                return None;
            }
            total = total + reads[i].1.count;
            i = i + 1;
        }
        proof {
            assert(reads@.take(i as int) =~= reads@);
        }
        Some(total)
    }

    /// Total messages written over all topics, or none when the total does
    /// not fit in 64 bits.
    pub fn checked_total_writes(&self) -> (r: Option<u64>)
        ensures
            match r {
                Some(t) => t == sum_write_counts(self.writes_spec()),
                None => sum_write_counts(self.writes_spec()) > u64::MAX,
            },
    {
        let writes = self.writes();
        let mut total: u64 = 0;
        let mut i: usize = 0;
        while i < writes.len()
            invariant
                i <= writes@.len(),
                writes@ == self.writes_spec(),
                total == sum_write_counts(writes@.take(i as int)),
            decreases writes@.len() - i,
        {
            proof {
                assert(writes@.take(i + 1).drop_last() =~= writes@.take(i as int));
                lemma_sum_write_prefix(writes@, i + 1);
            }
            if writes[i].1.count > u64::MAX - total {
                return None;
            }
            total = total + writes[i].1.count;
            i = i + 1;
        }
        proof {
            assert(writes@.take(i as int) =~= writes@);
        }
        Some(total)
    }

    /// Total messages written over all topics.
    pub fn total_writes(&self) -> (r: u64)
        requires
            sum_write_counts(self.writes_spec()) <= u64::MAX,
        ensures
            r == sum_write_counts(self.writes_spec()),
    {
        let writes = self.writes();
        let mut total: u64 = 0;
        let mut i: usize = 0;
        while i < writes.len()
            invariant
                i <= writes@.len(),
                writes@ == self.writes_spec(),
                sum_write_counts(writes@) <= u64::MAX,
                total == sum_write_counts(writes@.take(i as int)),
            decreases writes@.len() - i,
        {
            proof {
                assert(writes@.take(i + 1).drop_last() =~= writes@.take(i as int));
                lemma_sum_write_prefix(writes@, i + 1);
            }
            total = total + writes[i].1.count;
            i = i + 1;
        }
        proof {
            assert(writes@.take(i as int) =~= writes@);
        }
        total
    }
}

/// A monitor snapshot: the metrics of every module at one moment.
pub struct Snapshot {
    timestamp_ms: u64,
    modules: Vec<(String, ModuleMetrics)>,
}

/// The counters of a module name each topic at most once, for reads and
/// for writes.
pub open spec fn metrics_valid(m: ModuleMetrics) -> bool {
    keys_unique(m.reads_spec()) && keys_unique(m.writes_spec())
}

impl Snapshot {
    #[verifier::type_invariant]
    spec fn inv(self) -> bool {
        &&& keys_unique(self.modules@)
        &&& keys_sorted(self.modules@)
        &&& forall|i: int| 0 <= i < self.modules@.len() ==> metrics_valid(#[trigger] self.modules@[i].1)
    }

    /// The modules, keyed by name, in order.
    pub closed spec fn modules_spec(self) -> Seq<(String, ModuleMetrics)> {
        self.modules@
    }

    /// When the snapshot was taken, in milliseconds.
    pub closed spec fn timestamp_spec(self) -> u64 {
        self.timestamp_ms
    }

    /// An empty snapshot taken at `timestamp_ms`.
    pub fn with_timestamp(timestamp_ms: u64) -> (r: Self)
        ensures
            r.timestamp_spec() == timestamp_ms,
            r.modules_spec().len() == 0,
    {
        Snapshot { timestamp_ms, modules: Vec::new() }
    }

    /// The snapshot taken at `timestamp_ms` of the given modules, in
    /// strictly increasing order of name.
    pub fn from_modules(timestamp_ms: u64, modules: Vec<(String, ModuleMetrics)>) -> (r: Self)
        requires
            keys_sorted(modules@),
            forall|i: int| 0 <= i < modules@.len() ==> metrics_valid(#[trigger] modules@[i].1),
        ensures
            r.timestamp_spec() == timestamp_ms,
            r.modules_spec() == modules@,
    {
        proof {
            lemma_sorted_unique(modules@);
        }
        Snapshot { timestamp_ms, modules }
    }

    /// When the snapshot was taken, in milliseconds.
    pub fn timestamp_ms(&self) -> (r: u64)
        ensures
            r == self.timestamp_spec(),
    {
        self.timestamp_ms
    }

    /// The modules, keyed by name.
    pub fn modules(&self) -> (r: &Vec<(String, ModuleMetrics)>)
        ensures
            r@ == self.modules_spec(),
            keys_unique(r@),
            keys_sorted(r@),
            forall|i: int| 0 <= i < r@.len() ==> metrics_valid(#[trigger] r@[i].1),
    {
        proof {
            use_type_invariant(self);
        }
        &self.modules
    }

    /// Number of modules.
    pub fn len(&self) -> (r: usize)
        ensures
            r == self.modules_spec().len(),
    {
        self.modules.len()
    }

    /// Records the metrics of module `name`, replacing earlier ones; the
    /// modules stay in increasing order of name.
    pub fn insert_module(&mut self, name: String, metrics: ModuleMetrics)
        ensures
            final(self).timestamp_spec() == old(self).timestamp_spec(),
            keys_sorted(final(self).modules_spec()),
            final(self).modules_spec().len() == old(self).modules_spec().len() + if has_key(
                old(self).modules_spec(),
                name@,
            ) {
                0int
            } else {
                1int
            },
            forall|q: Seq<char>| #[trigger] lookup(final(self).modules_spec(), q) == if q == name@ {
                Some(metrics)
            } else {
                lookup(old(self).modules_spec(), q)
            },
            forall|b: int|
                0 <= b < final(self).modules_spec().len() ==> #[trigger] final(self).modules_spec()[b] == (name, metrics)
                    || old(self).modules_spec().contains(final(self).modules_spec()[b]),
    {
        proof {
            use_type_invariant(&*self);
            use_type_invariant(&metrics);
        }
        let mut modules: Vec<(String, ModuleMetrics)> = Vec::new();
        std::mem::swap(&mut modules, &mut self.modules);
        let ghost before = modules@;
        let ghost entry = (name, metrics);
        let n = modules.len();
        let mut i: usize = 0;
        while i < n && text_less(modules[i].0.as_str(), name.as_str())
            invariant
                i <= n,
                n == modules@.len(),
                modules@ == before,
                forall|j: int| 0 <= j < i ==> text_lt(#[trigger] before[j].0@, name@),
            decreases n - i,
        {
            i = i + 1;
        }
        if i < n && equals(modules[i].0.as_str(), name.as_str()) {
            proof {
                lemma_replace_sorted(before, i as int, name, metrics);
            }
            modules.set(i, (name, metrics));
        } else {
            proof {
                assert forall|j: int| i <= j < before.len() implies text_lt(name@, #[trigger] before[j].0@) by {
                    lemma_text_lt_total(name@, before[i as int].0@);
                    if j > i {
                        assert(text_lt(before[i as int].0@, before[j].0@));
                        lemma_text_lt_trans(name@, before[i as int].0@, before[j].0@);
                    }
                }
                lemma_insert_sorted(before, i as int, name, metrics);
            }
            modules.insert(i, (name, metrics));
        }
        proof {
            lemma_sorted_unique(modules@);
            assert(metrics_valid(entry.1));
            assert forall|b: int| 0 <= b < modules@.len() implies metrics_valid(#[trigger] modules@[b].1) by {
                if modules@[b] != entry {
                    let a = choose|a: int| 0 <= a < before.len() && before[a] == modules@[b];
                }
            }
        }
        self.modules = modules;
    }
}

} // verus!
