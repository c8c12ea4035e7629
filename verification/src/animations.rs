//! Activity detection: which visual effects a new snapshot triggers.
//!
//! A module whose message total grew since the last snapshot fires. A burst
//! of more than 50 messages also spawns a pulse ring, at most 3 per module,
//! when rings are shown. Every connection that the firing module writes to
//! gets new particles: one per 50 messages of growth, between 1 and 5, with
//! at most 50 particles per connection and at most 5000 in flight across
//! all connections. The effects themselves (intensities, radii, positions)
//! are animated by the application; this module decides which effects to
//! start and keeps the counts that bound them.
use vstd::prelude::*;
use crate::snapshot::{
    has_key, insert_key, key_index, keys_unique, lookup, metrics_valid, sum_read_counts, sum_write_counts,
    ModuleMetrics, Snapshot,
};

verus! {

/// Maximum number of particles per connection.
pub const MAX_PARTICLES_PER_EDGE: usize = 50;

/// Maximum total number of particles in flight across all connections.
pub const MAX_TOTAL_PARTICLES: usize = 5000;

/// Maximum number of pulse rings per module.
pub const MAX_PULSE_RINGS_PER_NODE: usize = 3;

/// A connection between two modules through a topic: source, target, topic.
pub type EdgeKey = (String, String, String);

/// An effect that a snapshot starts.
#[derive(Debug, Clone)]
pub enum ActivityEvent {
    /// The module's total grew by `delta` messages.
    Fire { module: String, delta: u64 },
    /// A pulse ring starts around the module, for a burst of `delta`.
    Pulse { module: String, delta: u64 },
    /// `count` particles start along the connection, numbered from 0.
    Particles { source: String, target: String, topic: String, count: usize },
}

/// The text of an edge key.
pub open spec fn key3(k: EdgeKey) -> (Seq<char>, Seq<char>, Seq<char>) {
    (k.0@, k.1@, k.2@)
}

/// No two entries of `s` have the same edge key.
pub open spec fn keys3_unique<V>(s: Seq<(EdgeKey, V)>) -> bool {
    forall|i: int, j: int|
        0 <= i < s.len() && 0 <= j < s.len() && i != j ==> #[trigger] key3(s[i].0) != #[trigger] key3(
            s[j].0,
        )
}

/// Some entry of `s` has edge key `k`.
pub open spec fn has_key3<V>(s: Seq<(EdgeKey, V)>, k: (Seq<char>, Seq<char>, Seq<char>)) -> bool {
    exists|i: int| 0 <= i < s.len() && #[trigger] key3(s[i].0) == k
}

/// The position of the entry with edge key `k`.
pub open spec fn key3_index<V>(s: Seq<(EdgeKey, V)>, k: (Seq<char>, Seq<char>, Seq<char>)) -> int {
    choose|i: int| 0 <= i < s.len() && #[trigger] key3(s[i].0) == k
}

/// The count stored under edge key `k`, 0 when there is none.
pub open spec fn count3(s: Seq<(EdgeKey, usize)>, k: (Seq<char>, Seq<char>, Seq<char>)) -> int {
    if has_key3(s, k) {
        s[key3_index(s, k)].1 as int
    } else {
        0
    }
}

/// The entries after `v` is stored under edge key `k`.
pub open spec fn insert_key3<V>(s: Seq<(EdgeKey, V)>, k: EdgeKey, v: V) -> Seq<(EdgeKey, V)> {
    if has_key3(s, key3(k)) {
        s.update(key3_index(s, key3(k)), (k, v))
    } else {
        s.push((k, v))
    }
}

/// The count stored under key `k`, 0 when there is none.
pub open spec fn count_of(s: Seq<(String, usize)>, k: Seq<char>) -> int {
    match lookup(s, k) {
        Some(v) => v as int,
        None => 0,
    }
}

/// The last total stored for module `k`, 0 when there is none.
pub open spec fn last_of(s: Seq<(String, u64)>, k: Seq<char>) -> int {
    match lookup(s, k) {
        Some(v) => v as int,
        None => 0,
    }
}

/// Sum of the counts of `s`.
pub open spec fn sum_counts(s: Seq<(EdgeKey, usize)>) -> int
    decreases s.len(),
{
    if s.len() == 0 {
        0
    } else {
        sum_counts(s.drop_last()) + s.last().1
    }
}

/// Particles to spawn on a connection holding `current` particles, for a
/// growth of `delta` messages, while `in_flight` particles are in flight:
/// one per 50 messages, between 1 and 5, within both limits.
pub open spec fn spawn_count(delta: u64, current: int, in_flight: int) -> int {
    let wanted = if delta / 50 < 1 {
        1
    } else if delta / 50 > 5 {
        5
    } else {
        (delta / 50) as int
    };
    let per_edge = if wanted > 50 - current {
        50 - current
    } else {
        wanted
    };
    if per_edge > 5000 - in_flight {
        5000 - in_flight
    } else {
        per_edge
    }
}

/// Total messages of a module.
pub open spec fn module_total(m: ModuleMetrics) -> int {
    sum_read_counts(m.reads_spec()) + sum_write_counts(m.writes_spec())
}

/// Particle state: counts per connection, particles in flight, effects so far.
pub type ParticleState = (Seq<(EdgeKey, usize)>, int, Seq<ActivityEvent>);

/// The effect of producer `i`'s written topic `w`, grown by `delta`, on the
/// connection to module `o`.
pub open spec fn edge_step(
    st: ParticleState,
    mods: Seq<(String, ModuleMetrics)>,
    i: int,
    w: int,
    o: int,
    delta: u64,
) -> ParticleState {
    let topic = mods[i].1.writes_spec()[w].0;
    let key: EdgeKey = (mods[i].0, mods[o].0, topic);
    let cnt = count3(st.0, key3(key));
    if !has_key(mods[o].1.reads_spec(), topic@) || st.1 >= 5000 || cnt >= 50 {
        st
    } else {
        let n = spawn_count(delta, cnt, st.1);
        (
            insert_key3(st.0, key, (cnt + n) as usize),
            st.1 + n,
            st.2.push(ActivityEvent::Particles { source: key.0, target: key.1, topic: key.2, count: n as usize }),
        )
    }
}

/// The effects of producer `i`'s written topic `w` on the connections to
/// modules `0..upto`.
pub open spec fn consumers_fold(
    st: ParticleState,
    mods: Seq<(String, ModuleMetrics)>,
    i: int,
    w: int,
    delta: u64,
    upto: int,
) -> ParticleState
    decreases upto,
{
    if upto <= 0 {
        st
    } else {
        edge_step(consumers_fold(st, mods, i, w, delta, upto - 1), mods, i, w, upto - 1, delta)
    }
}

/// The effects of producer `i`'s written topics `0..upto`.
pub open spec fn writes_fold(
    st: ParticleState,
    mods: Seq<(String, ModuleMetrics)>,
    i: int,
    delta: u64,
    upto: int,
) -> ParticleState
    decreases upto,
{
    if upto <= 0 {
        st
    } else {
        consumers_fold(writes_fold(st, mods, i, delta, upto - 1), mods, i, upto - 1, delta, mods.len() as int)
    }
}

/// Full state: last totals, ring counts, and the particle state.
pub type ActivityState = (Seq<(String, u64)>, Seq<(String, usize)>, ParticleState);

/// The effects of module `i` of the snapshot.
pub open spec fn module_step(st: ActivityState, mods: Seq<(String, ModuleMetrics)>, i: int, show_rings: bool) -> ActivityState {
    let name = mods[i].0;
    let total = module_total(mods[i].1);
    let prev = last_of(st.0, name@);
    let last = insert_key(st.0, name, total as u64);
    if total > prev {
        let delta = (total - prev) as u64;
        let fired = (st.2.0, st.2.1, st.2.2.push(ActivityEvent::Fire { module: name, delta }));
        let rings = count_of(st.1, name@);
        let ring = show_rings && delta > 50 && rings < 3;
        let after_rings: ActivityState = if ring {
            (
                last,
                insert_key(st.1, name, (rings + 1) as usize),
                (fired.0, fired.1, fired.2.push(ActivityEvent::Pulse { module: name, delta })),
            )
        } else {
            (last, st.1, fired)
        };
        (
            after_rings.0,
            after_rings.1,
            writes_fold(after_rings.2, mods, i, delta, mods[i].1.writes_spec().len() as int),
        )
    } else {
        (last, st.1, st.2)
    }
}

/// The effects of modules `0..upto` of the snapshot.
pub open spec fn modules_fold(st: ActivityState, mods: Seq<(String, ModuleMetrics)>, upto: int, show_rings: bool) -> ActivityState
    decreases upto,
{
    if upto <= 0 {
        st
    } else {
        module_step(modules_fold(st, mods, upto - 1, show_rings), mods, upto - 1, show_rings)
    }
}

/// The counts that bound the effects: the last message total seen per
/// module, the pulse rings per module and the particles per connection.
pub struct ActivityCounts {
    last_counts: Vec<(String, u64)>,
    ring_counts: Vec<(String, usize)>,
    particle_counts: Vec<(EdgeKey, usize)>,
}

/// Finds the position of edge key `k` in `s`.
fn find_key3<V>(s: &Vec<(EdgeKey, V)>, k: &EdgeKey) -> (r: Option<usize>)
    ensures
        match r {
            Some(i) => i < s@.len() && key3(s@[i as int].0) == key3(*k),
            None => !has_key3(s@, key3(*k)),
        },
{
    let mut i: usize = 0;
    while i < s.len()
        invariant
            i <= s@.len(),
            forall|j: int| 0 <= j < i ==> key3(s@[j].0) != key3(*k),
        decreases s@.len() - i,
    {
        if s[i].0.0 == k.0 && s[i].0.1 == k.1 && s[i].0.2 == k.2 {
            assert(key3(s@[i as int].0) == key3(*k));
            return Some(i);
        }
        i = i + 1;
    }
    None
}

/// Stores `v` under edge key `k`.
fn insert_entry3<V>(s: &mut Vec<(EdgeKey, V)>, k: EdgeKey, v: V)
    requires
        keys3_unique(old(s)@),
    ensures
        final(s)@ == insert_key3(old(s)@, k, v),
        keys3_unique(final(s)@),
{
    match find_key3(s, &k) {
        Some(i) => {
            proof {
                let j = key3_index(s@, key3(k));
                assert(key3(s@[j].0) == key3(k));
                assert(j == i as int);
            }
            s.set(i, (k, v));
        },
        None => {
            s.push((k, v));
        },
    }
}

/// The value stored under key `k` of a String-keyed list, if any.
fn find_value<V: Copy>(s: &Vec<(String, V)>, k: &String) -> (r: Option<V>)
    requires
        keys_unique(s@),
    ensures
        r == lookup(s@, k@),
{
    let mut i: usize = 0;
    while i < s.len()
        invariant
            i <= s@.len(),
            keys_unique(s@),
            forall|j: int| 0 <= j < i ==> s@[j].0@ != k@,
        decreases s@.len() - i,
    {
        if s[i].0 == *k {
            proof {
                assert(s@[i as int].0@ == k@);
                let j = key_index(s@, k@);
                assert(s@[j].0@ == k@);
                assert(j == i as int);
            }
            return Some(s[i].1);
        }
        i = i + 1;
    }
    None
}

/// Stores `v` under key `k` of a String-keyed list.
fn store_value<V>(s: &mut Vec<(String, V)>, k: String, v: V)
    requires
        keys_unique(old(s)@),
    ensures
        final(s)@ == insert_key(old(s)@, k, v),
        keys_unique(final(s)@),
{
    let mut i: usize = 0;
    while i < s.len()
        invariant
            i <= s@.len(),
            s@ == old(s)@,
            keys_unique(s@),
            forall|j: int| 0 <= j < i ==> s@[j].0@ != k@,
        decreases s@.len() - i,
    {
        if s[i].0 == k {
            proof {
                assert(s@[i as int].0@ == k@);
                let j = key_index(s@, k@);
                assert(s@[j].0@ == k@);
                assert(j == i as int);
            }
            s.set(i, (k, v));
            return;
        }
        i = i + 1;
    }
    s.push((k, v));
}

impl ActivityCounts {
    #[verifier::type_invariant]
    spec fn inv(self) -> bool {
        &&& keys_unique(self.last_counts@)
        &&& keys_unique(self.ring_counts@)
        &&& keys3_unique(self.particle_counts@)
    }

    /// Last message total seen per module.
    pub closed spec fn last_spec(self) -> Seq<(String, u64)> {
        self.last_counts@
    }

    /// Pulse rings per module.
    pub closed spec fn rings_spec(self) -> Seq<(String, usize)> {
        self.ring_counts@
    }

    /// Particles per connection.
    pub closed spec fn particles_spec(self) -> Seq<(EdgeKey, usize)> {
        self.particle_counts@
    }

    /// No counts at all.
    pub fn new() -> (r: Self)
        ensures
            r.last_spec().len() == 0,
            r.rings_spec().len() == 0,
            r.particles_spec().len() == 0,
    {
        ActivityCounts { last_counts: Vec::new(), ring_counts: Vec::new(), particle_counts: Vec::new() }
    }

    /// Records the last message total seen for `module`.
    pub fn set_last_count(&mut self, module: String, total: u64)
        ensures
            final(self).last_spec() == insert_key(old(self).last_spec(), module, total),
            final(self).rings_spec() == old(self).rings_spec(),
            final(self).particles_spec() == old(self).particles_spec(),
    {
        proof {
            use_type_invariant(&*self);
        }
        let mut v: Vec<(String, u64)> = Vec::new();
        std::mem::swap(&mut v, &mut self.last_counts);
        store_value(&mut v, module, total);
        self.last_counts = v;
    }

    /// Records the number of pulse rings around `module`.
    pub fn set_ring_count(&mut self, module: String, count: usize)
        ensures
            final(self).rings_spec() == insert_key(old(self).rings_spec(), module, count),
            final(self).last_spec() == old(self).last_spec(),
            final(self).particles_spec() == old(self).particles_spec(),
    {
        proof {
            use_type_invariant(&*self);
        }
        let mut v: Vec<(String, usize)> = Vec::new();
        std::mem::swap(&mut v, &mut self.ring_counts);
        store_value(&mut v, module, count);
        self.ring_counts = v;
    }

    /// Records the number of particles along a connection.
    pub fn set_particle_count(&mut self, key: EdgeKey, count: usize)
        ensures
            final(self).particles_spec() == insert_key3(old(self).particles_spec(), key, count),
            final(self).last_spec() == old(self).last_spec(),
            final(self).rings_spec() == old(self).rings_spec(),
    {
        proof {
            use_type_invariant(&*self);
        }
        let mut v: Vec<(EdgeKey, usize)> = Vec::new();
        std::mem::swap(&mut v, &mut self.particle_counts);
        insert_entry3(&mut v, key, count);
        self.particle_counts = v;
    }

    /// Last message total seen for `module` (0 when never seen).
    pub fn last_count(&self, module: &String) -> (r: u64)
        ensures
            r == last_of(self.last_spec(), module@),
    {
        proof {
            use_type_invariant(self);
        }
        match find_value(&self.last_counts, module) {
            Some(v) => v,
            None => 0,
        }
    }

    /// Number of pulse rings around `module` (0 when none).
    pub fn ring_count(&self, module: &String) -> (r: usize)
        ensures
            r == count_of(self.rings_spec(), module@),
    {
        proof {
            use_type_invariant(self);
        }
        match find_value(&self.ring_counts, module) {
            Some(v) => v,
            None => 0,
        }
    }

    /// Number of particles along a connection (0 when none).
    pub fn particle_count(&self, key: &EdgeKey) -> (r: usize)
        ensures
            r == count3(self.particles_spec(), key3(*key)),
    {
        proof {
            use_type_invariant(self);
        }
        match find_key3(&self.particle_counts, key) {
            Some(i) => {
                proof {
                    let j = key3_index(self.particle_counts@, key3(*key));
                    assert(key3(self.particle_counts@[j].0) == key3(*key));
                    assert(j == i as int);
                }
                self.particle_counts[i].1
            },
            None => 0,
        }
    }
}

/// The particle counts of a list of connections, summed.
fn total_particles(s: &Vec<(EdgeKey, usize)>) -> (r: usize)
    requires
        sum_counts(s@) <= usize::MAX,
    ensures
        r == sum_counts(s@),
{
    let mut total: usize = 0;
    let mut i: usize = 0;
    while i < s.len()
        invariant
            i <= s@.len(),
            sum_counts(s@) <= usize::MAX,
            total == sum_counts(s@.take(i as int)),
        decreases s@.len() - i,
    {
        proof {
            assert(s@.take(i + 1).drop_last() =~= s@.take(i as int));
            lemma_sum_counts_prefix(s@, i + 1);
        }
        total = total + s[i].1;
        i = i + 1;
    }
    assert(s@.take(i as int) =~= s@);
    total
}

proof fn lemma_sum_counts_prefix(s: Seq<(EdgeKey, usize)>, i: int)
    requires
        0 <= i <= s.len(),
    ensures
        0 <= sum_counts(s.take(i)) <= sum_counts(s),
    decreases s.len() - i,
{
    if i < s.len() {
        lemma_sum_counts_prefix(s, i + 1);
        assert(s.take(i + 1).drop_last() =~= s.take(i));
    } else {
        assert(s.take(i) =~= s);
    }
    lemma_sum_counts_nonneg(s.take(i));
}

proof fn lemma_sum_counts_nonneg(s: Seq<(EdgeKey, usize)>)
    ensures
        sum_counts(s) >= 0,
    decreases s.len(),
{
    if s.len() > 0 {
        lemma_sum_counts_nonneg(s.drop_last());
    }
}

/// Whether a list of read counters has an entry for `topic`.
fn reads_topic(reads: &Vec<(String, crate::snapshot::ReadMetrics)>, topic: &String) -> (r: bool)
    requires
        keys_unique(reads@),
    ensures
        r == has_key(reads@, topic@),
{
    let found = find_value(reads, topic);
    found.is_some()
}

/// The message totals of every module of the snapshot fit in 64 bits.
pub open spec fn totals_fit(s: Snapshot) -> bool {
    forall|i: int|
        0 <= i < s.modules_spec().len() ==> {
            &&& sum_read_counts(#[trigger] s.modules_spec()[i].1.reads_spec()) <= u64::MAX
            &&& sum_write_counts(s.modules_spec()[i].1.writes_spec()) <= u64::MAX
            &&& module_total(s.modules_spec()[i].1) <= u64::MAX
        }
}

/// The state that detection starts from: the recorded counts, the particles
/// in flight, and no effects yet.
pub open spec fn initial_state(c: ActivityCounts) -> ActivityState {
    (c.last_spec(), c.rings_spec(), (c.particles_spec(), sum_counts(c.particles_spec()), Seq::empty()))
}

/// Whether a module named `name` whose total is now `total` starts a pulse
/// ring, given the last totals and ring counts seen before: rings are
/// shown, the total grew by more than 50 messages and the module has fewer
/// than 3 rings.
pub open spec fn starts_ring(
    last: Seq<(String, u64)>,
    rings: Seq<(String, usize)>,
    name: Seq<char>,
    total: int,
    show_rings: bool,
) -> bool {
    &&& show_rings
    &&& total > last_of(last, name)
    &&& total - last_of(last, name) > 50
    &&& count_of(rings, name) < 3
}

proof fn lemma_lookup_insert<V>(s: Seq<(String, V)>, k: String, v: V)
    requires
        keys_unique(s),
    ensures
        keys_unique(insert_key(s, k, v)),
        lookup(insert_key(s, k, v), k@) == Some(v),
        forall|q: Seq<char>| q != k@ ==> #[trigger] lookup(insert_key(s, k, v), q) == lookup(s, q),
{
    let t = insert_key(s, k, v);
    if has_key(s, k@) {
        let j = key_index(s, k@);
        assert(t == s.update(j, (k, v)));
        assert forall|a: int, b: int| 0 <= a < t.len() && 0 <= b < t.len() && a != b implies #[trigger] t[a].0@
            != #[trigger] t[b].0@ by {
            assert(t[a].0@ == s[a].0@ && t[b].0@ == s[b].0@);
        }
        assert(t[j].0@ == k@);
        let i = key_index(t, k@);
        assert(t[i].0@ == k@);
        assert(i == j);
        assert forall|q: Seq<char>| q != k@ implies #[trigger] lookup(t, q) == lookup(s, q) by {
            if has_key(s, q) {
                let a = key_index(s, q);
                assert(t[a] == s[a]);
                let b = key_index(t, q);
                assert(t[b].0@ == q);
            } else if has_key(t, q) {
                let b = key_index(t, q);
                assert(t[b] == s[b]);
            }
        }
    } else {
        assert(t == s.push((k, v)));
        assert forall|a: int, b: int| 0 <= a < t.len() && 0 <= b < t.len() && a != b implies #[trigger] t[a].0@
            != #[trigger] t[b].0@ by {
            if a < s.len() && b < s.len() {
                assert(t[a] == s[a] && t[b] == s[b]);
            } else if a < s.len() {
                assert(t[a] == s[a]);
            } else {
                assert(t[b] == s[b]);
            }
        }
        assert(t[s.len() as int].0@ == k@);
        let i = key_index(t, k@);
        assert(t[i].0@ == k@);
        assert(i == s.len());
        assert forall|q: Seq<char>| q != k@ implies #[trigger] lookup(t, q) == lookup(s, q) by {
            if has_key(s, q) {
                let a = key_index(s, q);
                assert(t[a] == s[a]);
                let b = key_index(t, q);
                assert(t[b].0@ == q);
            } else if has_key(t, q) {
                let b = key_index(t, q);
                assert(t[b] == s[b]);
            }
        }
    }
}

proof fn lemma_modules_fold_counts(
    st: ActivityState,
    mods: Seq<(String, ModuleMetrics)>,
    upto: int,
    show_rings: bool,
)
    requires
        0 <= upto <= mods.len(),
        keys_unique(mods),
        keys_unique(st.0),
        keys_unique(st.1),
        forall|i: int| 0 <= i < mods.len() ==> module_total(#[trigger] mods[i].1) <= u64::MAX,
    ensures
        ({
            let r = modules_fold(st, mods, upto, show_rings);
            &&& keys_unique(r.0)
            &&& keys_unique(r.1)
            &&& forall|i: int|
                0 <= i < upto ==> last_of(r.0, #[trigger] mods[i].0@) == module_total(mods[i].1)
            &&& forall|i: int|
                0 <= i < upto ==> count_of(r.1, #[trigger] mods[i].0@) == count_of(st.1, mods[i].0@) + if starts_ring(
                    st.0,
                    st.1,
                    mods[i].0@,
                    module_total(mods[i].1),
                    show_rings,
                ) {
                    1int
                } else {
                    0int
                }
            &&& forall|q: Seq<char>|
                (forall|i: int| 0 <= i < upto ==> mods[i].0@ != q) ==> #[trigger] lookup(r.0, q) == lookup(
                    st.0,
                    q,
                ) && lookup(r.1, q) == lookup(st.1, q)
        }),
    decreases upto,
{
    if upto > 0 {
        let m = upto - 1;
        lemma_modules_fold_counts(st, mods, m, show_rings);
        let prev = modules_fold(st, mods, m, show_rings);
        let r = modules_fold(st, mods, upto, show_rings);
        let name = mods[m].0;
        let total = module_total(mods[m].1);
        crate::snapshot::lemma_sum_read_nonneg(mods[m].1.reads_spec());
        crate::snapshot::lemma_sum_write_nonneg(mods[m].1.writes_spec());
        assert(0 <= total <= u64::MAX);
        assert forall|i: int| 0 <= i < m implies mods[i].0@ != name@ by {
            assert(mods[i].0@ != mods[m].0@);
        }
        assert(lookup(prev.0, name@) == lookup(st.0, name@));
        assert(lookup(prev.1, name@) == lookup(st.1, name@));
        lemma_lookup_insert(prev.0, name, total as u64);
        assert(r.0 == insert_key(prev.0, name, total as u64));
        let prev_last = last_of(prev.0, name@);
        let rings = count_of(prev.1, name@);
        if total > prev_last && show_rings && total - prev_last > 50 && rings < 3 {
            lemma_lookup_insert(prev.1, name, (rings + 1) as usize);
            assert(r.1 == insert_key(prev.1, name, (rings + 1) as usize));
        } else {
            assert(r.1 == prev.1);
        }
        assert forall|i: int| 0 <= i < upto implies last_of(r.0, #[trigger] mods[i].0@) == module_total(
            mods[i].1,
        ) by {
            if i < m {
                assert(mods[i].0@ != name@);
            }
        }
        assert forall|i: int| 0 <= i < upto implies count_of(r.1, #[trigger] mods[i].0@) == count_of(
            st.1,
            mods[i].0@,
        ) + if starts_ring(st.0, st.1, mods[i].0@, module_total(mods[i].1), show_rings) {
            1int
        } else {
            0int
        } by {
            if i < m {
                assert(mods[i].0@ != name@);
            }
        }
        assert forall|q: Seq<char>| (forall|i: int| 0 <= i < upto ==> mods[i].0@ != q) implies #[trigger] lookup(
            r.0,
            q,
        ) == lookup(st.0, q) && lookup(r.1, q) == lookup(st.1, q) by {
            assert(mods[m].0@ != q);
            assert(lookup(prev.0, q) == lookup(st.0, q));
        }
    }
}

/// Whether every module's read total, write total and their sum fit in 64
/// bits, as activity detection and the graph update require.
pub fn totals_in_range(snapshot: &Snapshot) -> (r: bool)
    ensures
        r == totals_fit(*snapshot),
{
    let mods = snapshot.modules();
    let mut i: usize = 0;
    while i < mods.len()
        invariant
            i <= mods@.len(),
            mods@ == snapshot.modules_spec(),
            forall|j: int|
                0 <= j < i ==> {
                    &&& sum_read_counts(#[trigger] mods@[j].1.reads_spec()) <= u64::MAX
                    &&& sum_write_counts(mods@[j].1.writes_spec()) <= u64::MAX
                    &&& module_total(mods@[j].1) <= u64::MAX
                },
        decreases mods@.len() - i,
    {
        let m = &mods[i].1;
        match (m.checked_total_reads(), m.checked_total_writes()) {
            (Some(reads), Some(writes)) => {
                if reads > u64::MAX - writes {
                    assert(!(module_total(snapshot.modules_spec()[i as int].1) <= u64::MAX));
                    return false;
                }
            },
            _ => {
                assert(!(sum_read_counts(snapshot.modules_spec()[i as int].1.reads_spec()) <= u64::MAX
                    && sum_write_counts(snapshot.modules_spec()[i as int].1.writes_spec()) <= u64::MAX));
                return false;
            },
        }
        i = i + 1;
    }
    true
}

/// Detect message activity changes and decide which visual effects start.
///
/// Compares the snapshot's totals with the last totals in `counts`, updates
/// `counts` and returns the effects in the order they start.
///
/// Afterwards every module of the snapshot has its current total as last
/// total, and gained a pulse ring exactly when `starts_ring` says so; other
/// modules keep their counts. Every connection from a module that grew
/// through one of its written topics to a module that reads it gains
/// `edge_gain` particles, unless the total of 5000 is reached on the way
/// (the exact outcome, which then depends on the order of the modules, is
/// the fold in the first clause); every other connection keeps its count.
pub fn detect_activity(snapshot: &Snapshot, counts: &mut ActivityCounts, show_pulse_rings: bool) -> (events:
    Vec<ActivityEvent>)
    requires
        totals_fit(*snapshot),
        sum_counts(old(counts).particles_spec()) <= usize::MAX,
    ensures
        ({
            let st = modules_fold(
                initial_state(*old(counts)),
                snapshot.modules_spec(),
                snapshot.modules_spec().len() as int,
                show_pulse_rings,
            );
            &&& final(counts).last_spec() == st.0
            &&& final(counts).rings_spec() == st.1
            &&& final(counts).particles_spec() == st.2.0
            &&& events@ == st.2.2
        }),
        forall|i: int|
            0 <= i < snapshot.modules_spec().len() ==> last_of(
                final(counts).last_spec(),
                #[trigger] snapshot.modules_spec()[i].0@,
            ) == module_total(snapshot.modules_spec()[i].1),
        forall|i: int|
            0 <= i < snapshot.modules_spec().len() ==> count_of(
                final(counts).rings_spec(),
                #[trigger] snapshot.modules_spec()[i].0@,
            ) == count_of(old(counts).rings_spec(), snapshot.modules_spec()[i].0@) + if starts_ring(
                old(counts).last_spec(),
                old(counts).rings_spec(),
                snapshot.modules_spec()[i].0@,
                module_total(snapshot.modules_spec()[i].1),
                show_pulse_rings,
            ) {
                1int
            } else {
                0int
            },
        forall|q: Seq<char>|
            !has_key(snapshot.modules_spec(), q) ==> #[trigger] lookup(final(counts).last_spec(), q)
                == lookup(old(counts).last_spec(), q) && lookup(final(counts).rings_spec(), q) == lookup(
                old(counts).rings_spec(),
                q,
            ),
        forall|i: int|
            0 <= i < snapshot.modules_spec().len() ==> pulses_for(events@, #[trigger] snapshot.modules_spec()[i].0@)
                == count_of(final(counts).rings_spec(), snapshot.modules_spec()[i].0@) - count_of(
                old(counts).rings_spec(),
                snapshot.modules_spec()[i].0@,
            ),
        forall|q: Seq<char>| !has_key(snapshot.modules_spec(), q) ==> #[trigger] pulses_for(events@, q) == 0,
        forall|i: int|
            0 <= i < snapshot.modules_spec().len() ==> #[trigger] fires_for(events@, snapshot.modules_spec()[i].0@)
                == if module_total(snapshot.modules_spec()[i].1) > last_of(
                old(counts).last_spec(),
                snapshot.modules_spec()[i].0@,
            ) {
                1int
            } else {
                0int
            },
        forall|i: int|
            0 <= i < snapshot.modules_spec().len() ==> #[trigger] fired_for(events@, snapshot.modules_spec()[i].0@)
                == if module_total(snapshot.modules_spec()[i].1) > last_of(
                old(counts).last_spec(),
                snapshot.modules_spec()[i].0@,
            ) {
                module_total(snapshot.modules_spec()[i].1) - last_of(old(counts).last_spec(), snapshot.modules_spec()[i].0@)
            } else {
                0int
            },
        forall|q: Seq<char>|
            !has_key(snapshot.modules_spec(), q) ==> #[trigger] fires_for(events@, q) == 0 && fired_for(events@, q) == 0,
        forall|q: (Seq<char>, Seq<char>, Seq<char>)|
            #[trigger] spawned_for(events@, q) == count3(final(counts).particles_spec(), q) - count3(
                old(counts).particles_spec(),
                q,
            ),
        sum_counts(final(counts).particles_spec()) < 5000 ==> forall|i: int, w: int, o: int|
            0 <= i < snapshot.modules_spec().len() && 0 <= w < snapshot.modules_spec()[i].1.writes_spec().len()
                && 0 <= o < snapshot.modules_spec().len() ==> count3(
                final(counts).particles_spec(),
                #[trigger] link_key(snapshot.modules_spec(), i, w, o),
            ) == count3(old(counts).particles_spec(), link_key(snapshot.modules_spec(), i, w, o)) + if growth(
                old(counts).last_spec(),
                snapshot.modules_spec(),
                i,
            ) > 0 {
                gain_at(
                    snapshot.modules_spec(),
                    i,
                    w,
                    o,
                    growth(old(counts).last_spec(), snapshot.modules_spec(), i) as u64,
                    old(counts).particles_spec(),
                )
            } else {
                0
            },
        forall|q: (Seq<char>, Seq<char>, Seq<char>)|
            (forall|i: int, w: int, o: int|
                0 <= i < snapshot.modules_spec().len() && 0 <= w < snapshot.modules_spec()[i].1.writes_spec().len()
                    && 0 <= o < snapshot.modules_spec().len() ==> q != #[trigger] link_key(
                    snapshot.modules_spec(),
                    i,
                    w,
                    o,
                )) ==> #[trigger] count3(final(counts).particles_spec(), q) == count3(
                old(counts).particles_spec(),
                q,
            ),
{
    let mods = snapshot.modules();
    let n = mods.len();
    let ghost st0 = initial_state(*counts);
    proof {
        use_type_invariant(&*counts);
    }
    let mut in_flight = total_particles(&counts.particle_counts);
    let mut events: Vec<ActivityEvent> = Vec::new();
    let mut i: usize = 0;
    while i < n
        invariant
            n == mods@.len(),
            mods@ == snapshot.modules_spec(),
            i <= n,
            totals_fit(*snapshot),
            (counts.last_spec(), counts.rings_spec(), (counts.particles_spec(), in_flight as int, events@))
                == modules_fold(st0, mods@, i as int, show_pulse_rings),
        decreases n - i,
    {
        let name = &mods[i].0;
        let metrics = &mods[i].1;
        let ghost before: ActivityState = (
            counts.last_spec(),
            counts.rings_spec(),
            (counts.particles_spec(), in_flight as int, events@),
        );
        let total = metrics.total_reads() + metrics.total_writes();
        let prev = counts.last_count(name);
        if total > prev {
            let delta = total - prev;
            events.push(ActivityEvent::Fire { module: name.clone(), delta });
            let rings = counts.ring_count(name);
            if show_pulse_rings && delta > 50 && rings < MAX_PULSE_RINGS_PER_NODE {
                counts.set_ring_count(name.clone(), rings + 1);
                events.push(ActivityEvent::Pulse { module: name.clone(), delta });
            }
            let ghost start: ParticleState = (counts.particles_spec(), in_flight as int, events@);
            let ghost rings_after = counts.rings_spec();
            let writes = metrics.writes();
            let mut w: usize = 0;
            while w < writes.len()
                invariant
                    n == mods@.len(),
                    mods@ == snapshot.modules_spec(),
                    i < n,
                    *name == mods@[i as int].0,
                    writes@ == mods@[i as int].1.writes_spec(),
                    w <= writes@.len(),
                    (counts.particles_spec(), in_flight as int, events@) == writes_fold(
                        start,
                        mods@,
                        i as int,
                        delta,
                        w as int,
                    ),
                    counts.last_spec() == before.0,
                    counts.rings_spec() == rings_after,
                    in_flight <= 5000 || in_flight == before.2.1,
                decreases writes@.len() - w,
            {
                let topic = &writes[w].0;
                let ghost wstart: ParticleState = (counts.particles_spec(), in_flight as int, events@);
                let mut o: usize = 0;
                while o < n
                    invariant
                        n == mods@.len(),
                        mods@ == snapshot.modules_spec(),
                        i < n,
                        w < writes@.len(),
                        *name == mods@[i as int].0,
                        writes@ == mods@[i as int].1.writes_spec(),
                        *topic == writes@[w as int].0,
                        o <= n,
                        (counts.particles_spec(), in_flight as int, events@) == consumers_fold(
                            wstart,
                            mods@,
                            i as int,
                            w as int,
                            delta,
                            o as int,
                        ),
                        counts.last_spec() == before.0,
                        counts.rings_spec() == rings_after,
                        in_flight <= 5000 || in_flight == before.2.1,
                    decreases n - o,
                {
                    let ghost ostart: ParticleState = (counts.particles_spec(), in_flight as int, events@);
                    if reads_topic(mods[o].1.reads(), topic) && in_flight < MAX_TOTAL_PARTICLES {
                        let key: EdgeKey = (name.clone(), mods[o].0.clone(), topic.clone());
                        let cnt = counts.particle_count(&key);
                        if cnt < MAX_PARTICLES_PER_EDGE {
                            let wanted: usize = if delta / 50 < 1 {
                                1
                            } else if delta / 50 > 5 {
                                5
                            } else {
                                (delta / 50) as usize
                            };
                            let per_edge = if wanted > MAX_PARTICLES_PER_EDGE - cnt {
                                MAX_PARTICLES_PER_EDGE - cnt
                            } else {
                                wanted
                            };
                            let spawn = if per_edge > MAX_TOTAL_PARTICLES - in_flight {
                                MAX_TOTAL_PARTICLES - in_flight
                            } else {
                                per_edge
                            };
                            let source = key.0.clone();
                            let target = key.1.clone();
                            let topic_name = key.2.clone();
                            counts.set_particle_count(key, cnt + spawn);
                            in_flight = in_flight + spawn;
                            events.push(ActivityEvent::Particles { source, target, topic: topic_name, count: spawn });
                        }
                    }
                    proof {
                        assert((counts.particles_spec(), in_flight as int, events@) == edge_step(
                            ostart,
                            mods@,
                            i as int,
                            w as int,
                            o as int,
                            delta,
                        ));
                    }
                    o = o + 1;
                }
                w = w + 1;
            }
        }
        counts.set_last_count(name.clone(), total);
        proof {
            assert((counts.last_spec(), counts.rings_spec(), (counts.particles_spec(), in_flight as int, events@))
                == module_step(before, mods@, i as int, show_pulse_rings));
        }
        i = i + 1;
    }
    proof {
        assert forall|j: int| 0 <= j < mods@.len() implies module_total(#[trigger] mods@[j].1) <= u64::MAX by {
            assert(sum_read_counts(mods@[j].1.reads_spec()) <= u64::MAX);
        }
        lemma_modules_fold_counts(st0, mods@, n as int, show_pulse_rings);
        assert forall|j: int| 0 <= j < mods@.len() implies module_total(#[trigger] mods@[j].1) <= u64::MAX
            && keys_unique(mods@[j].1.writes_spec()) by {
            assert(metrics_valid(mods@[j].1));
        }
        lemma_modules_fold_particles(st0, mods@, n as int, show_pulse_rings);
        lemma_pulses_match_rings(*old(counts), mods@, show_pulse_rings);
        lemma_fires_match_growth(*old(counts), mods@, show_pulse_rings);
        lemma_particle_events_match_counts(*old(counts), mods@, show_pulse_rings);
        assert forall|q: Seq<char>| !has_key(mods@, q) implies (forall|j: int| 0 <= j < n ==> mods@[j].0@ != q) by {
            assert forall|j: int| 0 <= j < n implies mods@[j].0@ != q by {
                if mods@[j].0@ == q {
                    assert(has_key(mods@, q));
                }
            }
        }
    }
    events
}

/// Every connection holds at most 50 particles.
pub open spec fn particles_bounded(s: Seq<(EdgeKey, usize)>) -> bool {
    forall|k: int| 0 <= k < s.len() ==> #[trigger] s[k].1 <= 50
}

/// Every module has at most 3 pulse rings.
pub open spec fn rings_bounded(s: Seq<(String, usize)>) -> bool {
    forall|k: int| 0 <= k < s.len() ==> #[trigger] s[k].1 <= 3
}

/// The larger of two integers.
pub open spec fn max_int(a: int, b: int) -> int {
    if a >= b {
        a
    } else {
        b
    }
}

proof fn lemma_sum_counts_update(s: Seq<(EdgeKey, usize)>, j: int, x: (EdgeKey, usize))
    requires
        0 <= j < s.len(),
    ensures
        sum_counts(s.update(j, x)) == sum_counts(s) - s[j].1 + x.1,
    decreases s.len(),
{
    if j < s.len() - 1 {
        assert(s.update(j, x).drop_last() =~= s.drop_last().update(j, x));
        lemma_sum_counts_update(s.drop_last(), j, x);
    } else {
        assert(s.update(j, x).drop_last() =~= s.drop_last());
    }
}

proof fn lemma_edge_step_bounded(st: ParticleState, mods: Seq<(String, ModuleMetrics)>, i: int, w: int, o: int, delta: u64)
    requires
        particles_bounded(st.0),
        st.1 == sum_counts(st.0),
    ensures
        edge_step(st, mods, i, w, o, delta).1 == sum_counts(edge_step(st, mods, i, w, o, delta).0),
        particles_bounded(edge_step(st, mods, i, w, o, delta).0),
        edge_step(st, mods, i, w, o, delta).1 <= max_int(st.1, 5000),
        edge_step(st, mods, i, w, o, delta).1 >= st.1,
{
    let topic = mods[i].1.writes_spec()[w].0;
    let key: EdgeKey = (mods[i].0, mods[o].0, topic);
    let cnt = count3(st.0, key3(key));
    if has_key3(st.0, key3(key)) {
        let j = key3_index(st.0, key3(key));
        assert(st.0[j].1 <= 50);
        let n = spawn_count(delta, cnt, st.1);
        lemma_sum_counts_update(st.0, j, (key, (cnt + n) as usize));
    } else {
        let n = spawn_count(delta, cnt, st.1);
        assert(st.0.push((key, (cnt + n) as usize)).drop_last() =~= st.0);
    }
    assert(cnt >= 0);
}

proof fn lemma_consumers_fold_bounded(st: ParticleState, mods: Seq<(String, ModuleMetrics)>, i: int, w: int, delta: u64, upto: int)
    requires
        particles_bounded(st.0),
        st.1 == sum_counts(st.0),
    ensures
        consumers_fold(st, mods, i, w, delta, upto).1 == sum_counts(consumers_fold(st, mods, i, w, delta, upto).0),
        particles_bounded(consumers_fold(st, mods, i, w, delta, upto).0),
        consumers_fold(st, mods, i, w, delta, upto).1 <= max_int(st.1, 5000),
        consumers_fold(st, mods, i, w, delta, upto).1 >= st.1,
    decreases upto,
{
    if upto > 0 {
        lemma_consumers_fold_bounded(st, mods, i, w, delta, upto - 1);
        lemma_edge_step_bounded(consumers_fold(st, mods, i, w, delta, upto - 1), mods, i, w, upto - 1, delta);
    }
}

proof fn lemma_writes_fold_bounded(st: ParticleState, mods: Seq<(String, ModuleMetrics)>, i: int, delta: u64, upto: int)
    requires
        particles_bounded(st.0),
        st.1 == sum_counts(st.0),
    ensures
        writes_fold(st, mods, i, delta, upto).1 == sum_counts(writes_fold(st, mods, i, delta, upto).0),
        particles_bounded(writes_fold(st, mods, i, delta, upto).0),
        writes_fold(st, mods, i, delta, upto).1 <= max_int(st.1, 5000),
        writes_fold(st, mods, i, delta, upto).1 >= st.1,
    decreases upto,
{
    if upto > 0 {
        lemma_writes_fold_bounded(st, mods, i, delta, upto - 1);
        lemma_consumers_fold_bounded(writes_fold(st, mods, i, delta, upto - 1), mods, i, upto - 1, delta, mods.len() as int);
    }
}

proof fn lemma_module_step_bounded(st: ActivityState, mods: Seq<(String, ModuleMetrics)>, i: int, show_rings: bool)
    requires
        particles_bounded(st.2.0),
        rings_bounded(st.1),
        st.2.1 == sum_counts(st.2.0),
    ensures
        module_step(st, mods, i, show_rings).2.1 == sum_counts(module_step(st, mods, i, show_rings).2.0),
        particles_bounded(module_step(st, mods, i, show_rings).2.0),
        rings_bounded(module_step(st, mods, i, show_rings).1),
        module_step(st, mods, i, show_rings).2.1 <= max_int(st.2.1, 5000),
{
    let name = mods[i].0;
    let total = module_total(mods[i].1);
    let prev = last_of(st.0, name@);
    if total > prev {
        let delta = (total - prev) as u64;
        let rings = count_of(st.1, name@);
        if has_key(st.1, name@) {
            let j = key_index(st.1, name@);
            assert(st.1[j].1 <= 3);
        }
        let fired: ParticleState = (st.2.0, st.2.1, st.2.2.push(ActivityEvent::Fire { module: name, delta }));
        let pulse: ParticleState = (fired.0, fired.1, fired.2.push(ActivityEvent::Pulse { module: name, delta }));
        lemma_writes_fold_bounded(fired, mods, i, delta, mods[i].1.writes_spec().len() as int);
        lemma_writes_fold_bounded(pulse, mods, i, delta, mods[i].1.writes_spec().len() as int);
    }
}

proof fn lemma_modules_fold_bounded(st: ActivityState, mods: Seq<(String, ModuleMetrics)>, upto: int, show_rings: bool)
    requires
        particles_bounded(st.2.0),
        rings_bounded(st.1),
        st.2.1 == sum_counts(st.2.0),
    ensures
        modules_fold(st, mods, upto, show_rings).2.1 == sum_counts(modules_fold(st, mods, upto, show_rings).2.0),
        particles_bounded(modules_fold(st, mods, upto, show_rings).2.0),
        rings_bounded(modules_fold(st, mods, upto, show_rings).1),
        modules_fold(st, mods, upto, show_rings).2.1 <= max_int(st.2.1, 5000),
    decreases upto,
{
    if upto > 0 {
        lemma_modules_fold_bounded(st, mods, upto - 1, show_rings);
        lemma_module_step_bounded(modules_fold(st, mods, upto - 1, show_rings), mods, upto - 1, show_rings);
    }
}

/// The key of the connection from producer `i` through its written topic
/// number `w` to module `o`, as text.
pub open spec fn link_key(mods: Seq<(String, ModuleMetrics)>, i: int, w: int, o: int) -> (
    Seq<char>,
    Seq<char>,
    Seq<char>,
) {
    (mods[i].0@, mods[o].0@, mods[i].1.writes_spec()[w].0@)
}

/// Particles that a connection holding `current` gains for a growth of
/// `delta` while the total limit is not reached: one per 50 messages,
/// between 1 and 5, up to 50 on the connection.
pub open spec fn edge_gain(delta: u64, current: int) -> int {
    if current >= 50 {
        0
    } else {
        spawn_count(delta, current, 0)
    }
}

/// What the connection from producer `i` through written topic `w` to
/// module `o` gains for a growth of `delta`, starting from the counts `s`:
/// nothing when `o` does not read the topic.
pub open spec fn gain_at(mods: Seq<(String, ModuleMetrics)>, i: int, w: int, o: int, delta: u64, s: Seq<(EdgeKey, usize)>) -> int {
    if has_key(mods[o].1.reads_spec(), mods[i].1.writes_spec()[w].0@) {
        edge_gain(delta, count3(s, link_key(mods, i, w, o)))
    } else {
        0
    }
}

proof fn lemma_count3_insert(s: Seq<(EdgeKey, usize)>, k: EdgeKey, v: usize)
    requires
        keys3_unique(s),
    ensures
        keys3_unique(insert_key3(s, k, v)),
        count3(insert_key3(s, k, v), key3(k)) == v,
        sum_counts(insert_key3(s, k, v)) == sum_counts(s) - count3(s, key3(k)) + v,
        forall|q: (Seq<char>, Seq<char>, Seq<char>)| q != key3(k) ==> #[trigger] count3(insert_key3(s, k, v), q)
            == count3(s, q),
{
    let t = insert_key3(s, k, v);
    if has_key3(s, key3(k)) {
        let j = key3_index(s, key3(k));
        assert(t == s.update(j, (k, v)));
        lemma_sum_counts_update(s, j, (k, v));
        assert forall|a: int, b: int| 0 <= a < t.len() && 0 <= b < t.len() && a != b implies #[trigger] key3(t[a].0)
            != #[trigger] key3(t[b].0) by {
            assert(key3(t[a].0) == key3(s[a].0) && key3(t[b].0) == key3(s[b].0));
        }
        assert(key3(t[j].0) == key3(k));
        let i = key3_index(t, key3(k));
        assert(key3(t[i].0) == key3(k));
        assert(i == j);
        assert forall|q: (Seq<char>, Seq<char>, Seq<char>)| q != key3(k) implies #[trigger] count3(t, q) == count3(s, q) by {
            if has_key3(s, q) {
                let a = key3_index(s, q);
                assert(t[a] == s[a]);
                let b = key3_index(t, q);
                assert(key3(t[b].0) == q);
            } else if has_key3(t, q) {
                let b = key3_index(t, q);
                assert(t[b] == s[b]);
            }
        }
    } else {
        assert(t == s.push((k, v)));
        assert(t.drop_last() =~= s);
        assert forall|a: int, b: int| 0 <= a < t.len() && 0 <= b < t.len() && a != b implies #[trigger] key3(t[a].0)
            != #[trigger] key3(t[b].0) by {
            if a < s.len() && b < s.len() {
                assert(t[a] == s[a] && t[b] == s[b]);
            } else if a < s.len() {
                assert(t[a] == s[a]);
            } else {
                assert(t[b] == s[b]);
            }
        }
        assert(key3(t[s.len() as int].0) == key3(k));
        let i = key3_index(t, key3(k));
        assert(key3(t[i].0) == key3(k));
        assert(i == s.len());
        assert forall|q: (Seq<char>, Seq<char>, Seq<char>)| q != key3(k) implies #[trigger] count3(t, q) == count3(s, q) by {
            if has_key3(s, q) {
                let a = key3_index(s, q);
                assert(t[a] == s[a]);
                let b = key3_index(t, q);
                assert(key3(t[b].0) == q);
            } else if has_key3(t, q) {
                let b = key3_index(t, q);
                assert(t[b] == s[b]);
            }
        }
    }
}

proof fn lemma_edge_step_counts(st: ParticleState, mods: Seq<(String, ModuleMetrics)>, i: int, w: int, o: int, delta: u64)
    requires
        keys3_unique(st.0),
        st.1 == sum_counts(st.0),
        0 <= i < mods.len(),
        0 <= o < mods.len(),
        0 <= w < mods[i].1.writes_spec().len(),
    ensures
        ({
            let r = edge_step(st, mods, i, w, o, delta);
            &&& keys3_unique(r.0)
            &&& r.1 == sum_counts(r.0)
            &&& r.1 >= st.1
            &&& r.1 < 5000 ==> count3(r.0, link_key(mods, i, w, o)) == count3(st.0, link_key(mods, i, w, o))
                + gain_at(mods, i, w, o, delta, st.0)
            &&& forall|q: (Seq<char>, Seq<char>, Seq<char>)|
                q != link_key(mods, i, w, o) ==> #[trigger] count3(r.0, q) == count3(st.0, q)
        }),
{
    let topic = mods[i].1.writes_spec()[w].0;
    let key: EdgeKey = (mods[i].0, mods[o].0, topic);
    assert(key3(key) == link_key(mods, i, w, o));
    let cnt = count3(st.0, key3(key));
    if has_key3(st.0, key3(key)) {
        let j = key3_index(st.0, key3(key));
        assert(st.0[j].1 >= 0);
    }
    assert(cnt >= 0);
    if !has_key(mods[o].1.reads_spec(), topic@) || st.1 >= 5000 || cnt >= 50 {
    } else {
        let n = spawn_count(delta, cnt, st.1);
        lemma_count3_insert(st.0, key, (cnt + n) as usize);
    }
}

proof fn lemma_consumers_fold_counts(
    st: ParticleState,
    mods: Seq<(String, ModuleMetrics)>,
    i: int,
    w: int,
    delta: u64,
    upto: int,
)
    requires
        keys3_unique(st.0),
        st.1 == sum_counts(st.0),
        keys_unique(mods),
        0 <= i < mods.len(),
        0 <= w < mods[i].1.writes_spec().len(),
        0 <= upto <= mods.len(),
    ensures
        ({
            let r = consumers_fold(st, mods, i, w, delta, upto);
            &&& keys3_unique(r.0)
            &&& r.1 == sum_counts(r.0)
            &&& r.1 >= st.1
            &&& r.1 < 5000 ==> forall|o: int|
                0 <= o < upto ==> count3(r.0, #[trigger] link_key(mods, i, w, o)) == count3(
                    st.0,
                    link_key(mods, i, w, o),
                ) + gain_at(mods, i, w, o, delta, st.0)
            &&& forall|q: (Seq<char>, Seq<char>, Seq<char>)|
                (forall|o: int| 0 <= o < upto ==> q != #[trigger] link_key(mods, i, w, o)) ==> #[trigger] count3(
                    r.0,
                    q,
                ) == count3(st.0, q)
        }),
    decreases upto,
{
    if upto > 0 {
        let c = upto - 1;
        lemma_consumers_fold_counts(st, mods, i, w, delta, c);
        let prev = consumers_fold(st, mods, i, w, delta, c);
        lemma_edge_step_counts(prev, mods, i, w, c, delta);
        let r = consumers_fold(st, mods, i, w, delta, upto);
        assert forall|o: int| 0 <= o < c implies link_key(mods, i, w, c) != #[trigger] link_key(mods, i, w, o) by {
            assert(mods[o].0@ != mods[c].0@);
        }
        assert(count3(prev.0, link_key(mods, i, w, c)) == count3(st.0, link_key(mods, i, w, c)));
        if r.1 < 5000 {
            assert forall|o: int| 0 <= o < upto implies count3(r.0, #[trigger] link_key(mods, i, w, o)) == count3(
                st.0,
                link_key(mods, i, w, o),
            ) + gain_at(mods, i, w, o, delta, st.0) by {
                if o < c {
                    assert(link_key(mods, i, w, c) != link_key(mods, i, w, o));
                }
            }
        }
        assert forall|q: (Seq<char>, Seq<char>, Seq<char>)|
            (forall|o: int| 0 <= o < upto ==> q != #[trigger] link_key(mods, i, w, o)) implies #[trigger] count3(
                r.0,
                q,
            ) == count3(st.0, q) by {
            assert(q != link_key(mods, i, w, c));
        }
    }
}

proof fn lemma_writes_fold_counts(
    st: ParticleState,
    mods: Seq<(String, ModuleMetrics)>,
    i: int,
    delta: u64,
    upto: int,
)
    requires
        keys3_unique(st.0),
        st.1 == sum_counts(st.0),
        keys_unique(mods),
        0 <= i < mods.len(),
        keys_unique(mods[i].1.writes_spec()),
        0 <= upto <= mods[i].1.writes_spec().len(),
    ensures
        ({
            let r = writes_fold(st, mods, i, delta, upto);
            &&& keys3_unique(r.0)
            &&& r.1 == sum_counts(r.0)
            &&& r.1 >= st.1
            &&& r.1 < 5000 ==> forall|w: int, o: int|
                0 <= w < upto && 0 <= o < mods.len() ==> count3(r.0, #[trigger] link_key(mods, i, w, o))
                    == count3(st.0, link_key(mods, i, w, o)) + gain_at(mods, i, w, o, delta, st.0)
            &&& forall|q: (Seq<char>, Seq<char>, Seq<char>)|
                (forall|w: int, o: int|
                    0 <= w < upto && 0 <= o < mods.len() ==> q != #[trigger] link_key(mods, i, w, o))
                    ==> #[trigger] count3(r.0, q) == count3(st.0, q)
        }),
    decreases upto,
{
    if upto > 0 {
        let v = upto - 1;
        let n = mods.len() as int;
        lemma_writes_fold_counts(st, mods, i, delta, v);
        let prev = writes_fold(st, mods, i, delta, v);
        lemma_consumers_fold_counts(prev, mods, i, v, delta, n);
        let r = writes_fold(st, mods, i, delta, upto);
        assert(r == consumers_fold(prev, mods, i, v, delta, n));
        assert forall|w: int, o: int, o2: int| 0 <= w < v && 0 <= o < n && 0 <= o2 < n implies #[trigger] link_key(
            mods,
            i,
            v,
            o2,
        ) != #[trigger] link_key(mods, i, w, o) by {
            assert(mods[i].1.writes_spec()[w].0@ != mods[i].1.writes_spec()[v].0@);
        }
        assert forall|o2: int| 0 <= o2 < n implies count3(prev.0, #[trigger] link_key(mods, i, v, o2)) == count3(
            st.0,
            link_key(mods, i, v, o2),
        ) by {
            assert forall|w: int, o: int| 0 <= w < v && 0 <= o < n implies link_key(mods, i, v, o2) != #[trigger] link_key(
                mods,
                i,
                w,
                o,
            ) by {
                assert(link_key(mods, i, v, o2) != link_key(mods, i, w, o));
            }
        }
        if r.1 < 5000 {
            assert forall|w: int, o: int| 0 <= w < upto && 0 <= o < n implies count3(
                r.0,
                #[trigger] link_key(mods, i, w, o),
            ) == count3(st.0, link_key(mods, i, w, o)) + gain_at(mods, i, w, o, delta, st.0) by {
                if w < v {
                    assert forall|o2: int| 0 <= o2 < n implies link_key(mods, i, w, o) != #[trigger] link_key(
                        mods,
                        i,
                        v,
                        o2,
                    ) by {
                        assert(link_key(mods, i, v, o2) != link_key(mods, i, w, o));
                    }
                } else {
                    assert(count3(prev.0, link_key(mods, i, v, o)) == count3(st.0, link_key(mods, i, v, o)));
                }
            }
        }
        assert forall|q: (Seq<char>, Seq<char>, Seq<char>)|
            (forall|w: int, o: int|
                0 <= w < upto && 0 <= o < n ==> q != #[trigger] link_key(mods, i, w, o)) implies #[trigger] count3(
            r.0,
            q,
        ) == count3(st.0, q) by {
            assert forall|o: int| 0 <= o < n implies q != #[trigger] link_key(mods, i, v, o) by {
                assert(q != link_key(mods, i, v, o));
            }
            assert forall|w: int, o: int| 0 <= w < v && 0 <= o < n implies q != #[trigger] link_key(mods, i, w, o) by {
                assert(q != link_key(mods, i, w, o));
            }
        }
    }
}

/// The growth of module `i` since the last totals `last`, when it grew.
pub open spec fn growth(last: Seq<(String, u64)>, mods: Seq<(String, ModuleMetrics)>, i: int) -> int {
    module_total(mods[i].1) - last_of(last, mods[i].0@)
}

proof fn lemma_modules_fold_particles(
    st: ActivityState,
    mods: Seq<(String, ModuleMetrics)>,
    upto: int,
    show_rings: bool,
)
    requires
        0 <= upto <= mods.len(),
        keys_unique(mods),
        keys_unique(st.0),
        keys_unique(st.1),
        keys3_unique(st.2.0),
        st.2.1 == sum_counts(st.2.0),
        forall|i: int|
            0 <= i < mods.len() ==> module_total(#[trigger] mods[i].1) <= u64::MAX && keys_unique(
                mods[i].1.writes_spec(),
            ),
    ensures
        ({
            let r = modules_fold(st, mods, upto, show_rings);
            &&& keys3_unique(r.2.0)
            &&& r.2.1 == sum_counts(r.2.0)
            &&& r.2.1 >= st.2.1
            &&& r.2.1 < 5000 ==> forall|i: int, w: int, o: int|
                0 <= i < upto && 0 <= w < mods[i].1.writes_spec().len() && 0 <= o < mods.len() ==> count3(
                    r.2.0,
                    #[trigger] link_key(mods, i, w, o),
                ) == count3(st.2.0, link_key(mods, i, w, o)) + if growth(st.0, mods, i) > 0 {
                    gain_at(mods, i, w, o, growth(st.0, mods, i) as u64, st.2.0)
                } else {
                    0
                }
            &&& forall|q: (Seq<char>, Seq<char>, Seq<char>)|
                (forall|i: int, w: int, o: int|
                    0 <= i < upto && 0 <= w < mods[i].1.writes_spec().len() && 0 <= o < mods.len() ==> q
                        != #[trigger] link_key(mods, i, w, o)) ==> #[trigger] count3(r.2.0, q) == count3(st.2.0, q)
        }),
    decreases upto,
{
    if upto > 0 {
        let m = upto - 1;
        let n = mods.len() as int;
        lemma_modules_fold_particles(st, mods, m, show_rings);
        lemma_modules_fold_counts(st, mods, m, show_rings);
        let prev = modules_fold(st, mods, m, show_rings);
        let r = modules_fold(st, mods, upto, show_rings);
        let name = mods[m].0;
        assert forall|i: int| 0 <= i < m implies mods[i].0@ != name@ by {
            assert(mods[i].0@ != mods[m].0@);
        }
        assert(lookup(prev.0, name@) == lookup(st.0, name@));
        let total = module_total(mods[m].1);
        let prev_last = last_of(prev.0, name@);
        assert(prev_last == last_of(st.0, name@));
        let wl = mods[m].1.writes_spec().len() as int;
        assert forall|i: int, w: int, o: int, w2: int, o2: int|
            0 <= i < m && 0 <= w < mods[i].1.writes_spec().len() && 0 <= o < n && 0 <= w2 < wl && 0 <= o2
                < n implies #[trigger] link_key(mods, m, w2, o2) != #[trigger] link_key(mods, i, w, o) by {
            assert(mods[i].0@ != name@);
        }
        assert forall|w2: int, o2: int| 0 <= w2 < wl && 0 <= o2 < n implies count3(
            prev.2.0,
            #[trigger] link_key(mods, m, w2, o2),
        ) == count3(st.2.0, link_key(mods, m, w2, o2)) by {
            assert forall|i: int, w: int, o: int|
                0 <= i < m && 0 <= w < mods[i].1.writes_spec().len() && 0 <= o < n implies link_key(mods, m, w2, o2)
                != #[trigger] link_key(mods, i, w, o) by {
                assert(mods[i].0@ != name@);
            }
        }
        if total > prev_last {
            let delta = (total - prev_last) as u64;
            let fired: ParticleState = (prev.2.0, prev.2.1, prev.2.2.push(ActivityEvent::Fire { module: name, delta }));
            let pulse: ParticleState = (fired.0, fired.1, fired.2.push(ActivityEvent::Pulse { module: name, delta }));
            lemma_writes_fold_counts(fired, mods, m, delta, wl);
            lemma_writes_fold_counts(pulse, mods, m, delta, wl);
            assert(r.2 == writes_fold(fired, mods, m, delta, wl) || r.2 == writes_fold(pulse, mods, m, delta, wl));
            assert forall|w2: int, o2: int| 0 <= w2 < wl && 0 <= o2 < n implies gain_at(mods, m, w2, o2, delta, prev.2.0)
                == gain_at(mods, m, w2, o2, delta, st.2.0) by {
                assert(count3(prev.2.0, link_key(mods, m, w2, o2)) == count3(st.2.0, link_key(mods, m, w2, o2)));
            }
        } else {
            assert(r.2 == prev.2);
        }
        if r.2.1 < 5000 {
            assert forall|i: int, w: int, o: int|
                0 <= i < upto && 0 <= w < mods[i].1.writes_spec().len() && 0 <= o < n implies count3(
                r.2.0,
                #[trigger] link_key(mods, i, w, o),
            ) == count3(st.2.0, link_key(mods, i, w, o)) + if growth(st.0, mods, i) > 0 {
                gain_at(mods, i, w, o, growth(st.0, mods, i) as u64, st.2.0)
            } else {
                0
            } by {
                if i < m {
                    assert forall|w2: int, o2: int| 0 <= w2 < wl && 0 <= o2 < n implies link_key(mods, i, w, o)
                        != #[trigger] link_key(mods, m, w2, o2) by {
                        assert(link_key(mods, m, w2, o2) != link_key(mods, i, w, o));
                    }
                } else {
                    assert(count3(prev.2.0, link_key(mods, m, w, o)) == count3(st.2.0, link_key(mods, m, w, o)));
                }
            }
        }
        assert forall|q: (Seq<char>, Seq<char>, Seq<char>)|
            (forall|i: int, w: int, o: int|
                0 <= i < upto && 0 <= w < mods[i].1.writes_spec().len() && 0 <= o < n ==> q
                    != #[trigger] link_key(mods, i, w, o)) implies #[trigger] count3(r.2.0, q) == count3(st.2.0, q) by {
            assert forall|w2: int, o2: int| 0 <= w2 < wl && 0 <= o2 < n implies q != #[trigger] link_key(mods, m, w2, o2) by {
                assert(q != link_key(mods, m, w2, o2));
            }
            assert forall|i: int, w: int, o: int|
                0 <= i < m && 0 <= w < mods[i].1.writes_spec().len() && 0 <= o < n implies q
                != #[trigger] link_key(mods, i, w, o) by {
                assert(q != link_key(mods, i, w, o));
            }
        }
    }
}

/// Number of pulse-ring events among `evs` for the module named `name`.
pub open spec fn pulses_for(evs: Seq<ActivityEvent>, name: Seq<char>) -> int
    decreases evs.len(),
{
    if evs.len() == 0 {
        0
    } else {
        pulses_for(evs.drop_last(), name) + match evs.last() {
            ActivityEvent::Pulse { module, delta: _ } => if module@ == name {
                1int
            } else {
                0int
            },
            _ => 0int,
        }
    }
}

proof fn lemma_pulses_push(evs: Seq<ActivityEvent>, e: ActivityEvent)
    ensures
        forall|q: Seq<char>| #[trigger] pulses_for(evs.push(e), q) == pulses_for(evs, q) + match e {
            ActivityEvent::Pulse { module, delta: _ } => if module@ == q {
                1int
            } else {
                0int
            },
            _ => 0int,
        },
{
    assert(evs.push(e).drop_last() =~= evs);
}

proof fn lemma_particles_keep_pulses(st: ParticleState, mods: Seq<(String, ModuleMetrics)>, i: int, delta: u64, upto: int)
    ensures
        forall|q: Seq<char>| #[trigger] pulses_for(writes_fold(st, mods, i, delta, upto).2, q) == pulses_for(st.2, q),
    decreases upto,
{
    if upto > 0 {
        lemma_particles_keep_pulses(st, mods, i, delta, upto - 1);
        lemma_consumers_keep_pulses(writes_fold(st, mods, i, delta, upto - 1), mods, i, upto - 1, delta, mods.len() as int);
    }
}

proof fn lemma_consumers_keep_pulses(st: ParticleState, mods: Seq<(String, ModuleMetrics)>, i: int, w: int, delta: u64, upto: int)
    ensures
        forall|q: Seq<char>| #[trigger] pulses_for(consumers_fold(st, mods, i, w, delta, upto).2, q) == pulses_for(st.2, q),
    decreases upto,
{
    if upto > 0 {
        lemma_consumers_keep_pulses(st, mods, i, w, delta, upto - 1);
        let prev = consumers_fold(st, mods, i, w, delta, upto - 1);
        let topic = mods[i].1.writes_spec()[w].0;
        let key: EdgeKey = (mods[i].0, mods[upto - 1].0, topic);
        let cnt = count3(prev.0, key3(key));
        let n = spawn_count(delta, cnt, prev.1);
        lemma_pulses_push(prev.2, ActivityEvent::Particles { source: key.0, target: key.1, topic: key.2, count: n as usize });
    }
}

proof fn lemma_modules_fold_pulses(st: ActivityState, mods: Seq<(String, ModuleMetrics)>, upto: int, show_rings: bool)
    requires
        0 <= upto <= mods.len(),
        keys_unique(mods),
        keys_unique(st.0),
        keys_unique(st.1),
        forall|i: int| 0 <= i < mods.len() ==> module_total(#[trigger] mods[i].1) <= u64::MAX,
    ensures
        ({
            let r = modules_fold(st, mods, upto, show_rings);
            &&& forall|i: int|
                0 <= i < upto ==> pulses_for(r.2.2, #[trigger] mods[i].0@) == pulses_for(st.2.2, mods[i].0@) + if starts_ring(
                    st.0,
                    st.1,
                    mods[i].0@,
                    module_total(mods[i].1),
                    show_rings,
                ) {
                    1int
                } else {
                    0int
                }
            &&& forall|q: Seq<char>|
                (forall|i: int| 0 <= i < upto ==> mods[i].0@ != q) ==> #[trigger] pulses_for(r.2.2, q) == pulses_for(
                    st.2.2,
                    q,
                )
        }),
    decreases upto,
{
    if upto > 0 {
        let m = upto - 1;
        lemma_modules_fold_pulses(st, mods, m, show_rings);
        lemma_modules_fold_counts(st, mods, m, show_rings);
        let prev = modules_fold(st, mods, m, show_rings);
        let r = modules_fold(st, mods, upto, show_rings);
        let name = mods[m].0;
        let total = module_total(mods[m].1);
        crate::snapshot::lemma_sum_read_nonneg(mods[m].1.reads_spec());
        crate::snapshot::lemma_sum_write_nonneg(mods[m].1.writes_spec());
        assert forall|i: int| 0 <= i < m implies mods[i].0@ != name@ by {
            assert(mods[i].0@ != mods[m].0@);
        }
        assert(lookup(prev.0, name@) == lookup(st.0, name@));
        assert(lookup(prev.1, name@) == lookup(st.1, name@));
        let prev_last = last_of(prev.0, name@);
        if total > prev_last {
            let delta = (total - prev_last) as u64;
            let rings = count_of(prev.1, name@);
            let fired: ParticleState = (prev.2.0, prev.2.1, prev.2.2.push(ActivityEvent::Fire { module: name, delta }));
            let pulse: ParticleState = (fired.0, fired.1, fired.2.push(ActivityEvent::Pulse { module: name, delta }));
            lemma_pulses_push(prev.2.2, ActivityEvent::Fire { module: name, delta });
            lemma_pulses_push(fired.2, ActivityEvent::Pulse { module: name, delta });
            let wl = mods[m].1.writes_spec().len() as int;
            lemma_particles_keep_pulses(fired, mods, m, delta, wl);
            lemma_particles_keep_pulses(pulse, mods, m, delta, wl);
            if show_rings && delta > 50 && rings < 3 {
                assert(r.2 == writes_fold(pulse, mods, m, delta, wl));
            } else {
                assert(r.2 == writes_fold(fired, mods, m, delta, wl));
            }
        } else {
            assert(r.2 == prev.2);
        }
        assert forall|i: int| 0 <= i < upto implies pulses_for(r.2.2, #[trigger] mods[i].0@) == pulses_for(
            st.2.2,
            mods[i].0@,
        ) + if starts_ring(st.0, st.1, mods[i].0@, module_total(mods[i].1), show_rings) {
            1int
        } else {
            0int
        } by {
            if i < m {
                assert(mods[i].0@ != name@);
            }
        }
        assert forall|q: Seq<char>| (forall|i: int| 0 <= i < upto ==> mods[i].0@ != q) implies #[trigger] pulses_for(
            r.2.2,
            q,
        ) == pulses_for(st.2.2, q) by {
            assert(mods[m].0@ != q);
        }
    }
}

/// Every pulse-ring event is a ring that the counts record: for each module
/// of the snapshot, the events start as many pulse rings as its ring count
/// grows, which is one exactly when rings are shown, it grew by more than
/// 50 messages and it had fewer than 3 rings, and none otherwise; modules
/// that the snapshot does not list get no pulse rings.
pub proof fn lemma_pulses_match_rings(c: ActivityCounts, mods: Seq<(String, ModuleMetrics)>, show_rings: bool)
    requires
        keys_unique(mods),
        keys_unique(c.last_spec()),
        keys_unique(c.rings_spec()),
        forall|i: int| 0 <= i < mods.len() ==> module_total(#[trigger] mods[i].1) <= u64::MAX,
    ensures
        ({
            let r = modules_fold(initial_state(c), mods, mods.len() as int, show_rings);
            &&& forall|i: int|
                0 <= i < mods.len() ==> pulses_for(r.2.2, #[trigger] mods[i].0@) == count_of(r.1, mods[i].0@)
                    - count_of(c.rings_spec(), mods[i].0@)
            &&& forall|i: int|
                0 <= i < mods.len() ==> (pulses_for(r.2.2, #[trigger] mods[i].0@) == 1 <==> show_rings
                    && module_total(mods[i].1) - last_of(c.last_spec(), mods[i].0@) > 50 && count_of(
                    c.rings_spec(),
                    mods[i].0@,
                ) < 3)
            &&& forall|i: int| 0 <= i < mods.len() ==> 0 <= #[trigger] pulses_for(r.2.2, mods[i].0@) <= 1
            &&& forall|q: Seq<char>| !has_key(mods, q) ==> #[trigger] pulses_for(r.2.2, q) == 0
        }),
{
    let st = initial_state(c);
    lemma_modules_fold_pulses(st, mods, mods.len() as int, show_rings);
    lemma_modules_fold_counts(st, mods, mods.len() as int, show_rings);
    assert forall|q: Seq<char>| !has_key(mods, q) implies (forall|j: int| 0 <= j < mods.len() ==> mods[j].0@ != q) by {
        assert forall|j: int| 0 <= j < mods.len() implies mods[j].0@ != q by {
            if mods[j].0@ == q {
                assert(has_key(mods, q));
            }
        }
    }
}

/// Number of fire events among `evs` for the module named `name`.
pub open spec fn fires_for(evs: Seq<ActivityEvent>, name: Seq<char>) -> int
    decreases evs.len(),
{
    if evs.len() == 0 {
        0
    } else {
        fires_for(evs.drop_last(), name) + match evs.last() {
            ActivityEvent::Fire { module, delta: _ } => if module@ == name {
                1int
            } else {
                0int
            },
            _ => 0int,
        }
    }
}

/// Sum of the deltas of the fire events among `evs` for the module named
/// `name`.
pub open spec fn fired_for(evs: Seq<ActivityEvent>, name: Seq<char>) -> int
    decreases evs.len(),
{
    if evs.len() == 0 {
        0
    } else {
        fired_for(evs.drop_last(), name) + match evs.last() {
            ActivityEvent::Fire { module, delta } => if module@ == name {
                delta as int
            } else {
                0int
            },
            _ => 0int,
        }
    }
}

proof fn lemma_fires_push(evs: Seq<ActivityEvent>, e: ActivityEvent)
    ensures
        forall|q: Seq<char>| #[trigger] fires_for(evs.push(e), q) == fires_for(evs, q) + match e {
            ActivityEvent::Fire { module, delta: _ } => if module@ == q {
                1int
            } else {
                0int
            },
            _ => 0int,
        },
        forall|q: Seq<char>| #[trigger] fired_for(evs.push(e), q) == fired_for(evs, q) + match e {
            ActivityEvent::Fire { module, delta } => if module@ == q {
                delta as int
            } else {
                0int
            },
            _ => 0int,
        },
{
    assert(evs.push(e).drop_last() =~= evs);
}

proof fn lemma_particles_keep_fires(st: ParticleState, mods: Seq<(String, ModuleMetrics)>, i: int, delta: u64, upto: int)
    ensures
        forall|q: Seq<char>| #[trigger] fires_for(writes_fold(st, mods, i, delta, upto).2, q) == fires_for(st.2, q),
        forall|q: Seq<char>| #[trigger] fired_for(writes_fold(st, mods, i, delta, upto).2, q) == fired_for(st.2, q),
    decreases upto,
{
    if upto > 0 {
        lemma_particles_keep_fires(st, mods, i, delta, upto - 1);
        lemma_consumers_keep_fires(writes_fold(st, mods, i, delta, upto - 1), mods, i, upto - 1, delta, mods.len() as int);
    }
}

proof fn lemma_consumers_keep_fires(st: ParticleState, mods: Seq<(String, ModuleMetrics)>, i: int, w: int, delta: u64, upto: int)
    ensures
        forall|q: Seq<char>| #[trigger] fires_for(consumers_fold(st, mods, i, w, delta, upto).2, q) == fires_for(st.2, q),
        forall|q: Seq<char>| #[trigger] fired_for(consumers_fold(st, mods, i, w, delta, upto).2, q) == fired_for(st.2, q),
    decreases upto,
{
    if upto > 0 {
        lemma_consumers_keep_fires(st, mods, i, w, delta, upto - 1);
        let prev = consumers_fold(st, mods, i, w, delta, upto - 1);
        let topic = mods[i].1.writes_spec()[w].0;
        let key: EdgeKey = (mods[i].0, mods[upto - 1].0, topic);
        let cnt = count3(prev.0, key3(key));
        let n = spawn_count(delta, cnt, prev.1);
        lemma_fires_push(prev.2, ActivityEvent::Particles { source: key.0, target: key.1, topic: key.2, count: n as usize });
    }
}

proof fn lemma_modules_fold_fires(st: ActivityState, mods: Seq<(String, ModuleMetrics)>, upto: int, show_rings: bool)
    requires
        0 <= upto <= mods.len(),
        keys_unique(mods),
        keys_unique(st.0),
        keys_unique(st.1),
        forall|i: int| 0 <= i < mods.len() ==> module_total(#[trigger] mods[i].1) <= u64::MAX,
    ensures
        ({
            let r = modules_fold(st, mods, upto, show_rings);
            &&& forall|i: int|
                0 <= i < upto ==> fires_for(r.2.2, #[trigger] mods[i].0@) == fires_for(st.2.2, mods[i].0@) + if growth(
                    st.0,
                    mods,
                    i,
                ) > 0 {
                    1int
                } else {
                    0int
                }
            &&& forall|i: int|
                0 <= i < upto ==> fired_for(r.2.2, #[trigger] mods[i].0@) == fired_for(st.2.2, mods[i].0@) + if growth(
                    st.0,
                    mods,
                    i,
                ) > 0 {
                    growth(st.0, mods, i)
                } else {
                    0int
                }
            &&& forall|q: Seq<char>|
                (forall|i: int| 0 <= i < upto ==> mods[i].0@ != q) ==> #[trigger] fires_for(r.2.2, q) == fires_for(
                    st.2.2,
                    q,
                ) && fired_for(r.2.2, q) == fired_for(st.2.2, q)
        }),
    decreases upto,
{
    if upto > 0 {
        let m = upto - 1;
        lemma_modules_fold_fires(st, mods, m, show_rings);
        lemma_modules_fold_counts(st, mods, m, show_rings);
        let prev = modules_fold(st, mods, m, show_rings);
        let r = modules_fold(st, mods, upto, show_rings);
        let name = mods[m].0;
        let total = module_total(mods[m].1);
        crate::snapshot::lemma_sum_read_nonneg(mods[m].1.reads_spec());
        crate::snapshot::lemma_sum_write_nonneg(mods[m].1.writes_spec());
        assert forall|i: int| 0 <= i < m implies mods[i].0@ != name@ by {
            assert(mods[i].0@ != mods[m].0@);
        }
        assert(lookup(prev.0, name@) == lookup(st.0, name@));
        let prev_last = last_of(prev.0, name@);
        if total > prev_last {
            let delta = (total - prev_last) as u64;
            let rings = count_of(prev.1, name@);
            let fired: ParticleState = (prev.2.0, prev.2.1, prev.2.2.push(ActivityEvent::Fire { module: name, delta }));
            let pulse: ParticleState = (fired.0, fired.1, fired.2.push(ActivityEvent::Pulse { module: name, delta }));
            lemma_fires_push(prev.2.2, ActivityEvent::Fire { module: name, delta });
            lemma_fires_push(fired.2, ActivityEvent::Pulse { module: name, delta });
            let wl = mods[m].1.writes_spec().len() as int;
            lemma_particles_keep_fires(fired, mods, m, delta, wl);
            lemma_particles_keep_fires(pulse, mods, m, delta, wl);
            if show_rings && delta > 50 && rings < 3 {
                assert(r.2 == writes_fold(pulse, mods, m, delta, wl));
            } else {
                assert(r.2 == writes_fold(fired, mods, m, delta, wl));
            }
        } else {
            assert(r.2 == prev.2);
        }
        assert forall|i: int| 0 <= i < upto implies fires_for(r.2.2, #[trigger] mods[i].0@) == fires_for(
            st.2.2,
            mods[i].0@,
        ) + if growth(st.0, mods, i) > 0 {
            1int
        } else {
            0int
        } by {
            if i < m {
                assert(mods[i].0@ != name@);
            }
        }
        assert forall|i: int| 0 <= i < upto implies fired_for(r.2.2, #[trigger] mods[i].0@) == fired_for(
            st.2.2,
            mods[i].0@,
        ) + if growth(st.0, mods, i) > 0 {
            growth(st.0, mods, i)
        } else {
            0int
        } by {
            if i < m {
                assert(mods[i].0@ != name@);
            }
        }
        assert forall|q: Seq<char>| (forall|i: int| 0 <= i < upto ==> mods[i].0@ != q) implies #[trigger] fires_for(
            r.2.2,
            q,
        ) == fires_for(st.2.2, q) && fired_for(r.2.2, q) == fired_for(st.2.2, q) by {
            assert(mods[m].0@ != q);
        }
    }
}

/// Every module whose message total grew since the last snapshot fires
/// exactly once, with the growth as its delta; a module whose total did not
/// grow, and a module that the snapshot does not list, does not fire.
pub proof fn lemma_fires_match_growth(c: ActivityCounts, mods: Seq<(String, ModuleMetrics)>, show_rings: bool)
    requires
        keys_unique(mods),
        keys_unique(c.last_spec()),
        keys_unique(c.rings_spec()),
        forall|i: int| 0 <= i < mods.len() ==> module_total(#[trigger] mods[i].1) <= u64::MAX,
    ensures
        ({
            let r = modules_fold(initial_state(c), mods, mods.len() as int, show_rings);
            &&& forall|i: int|
                0 <= i < mods.len() ==> #[trigger] fires_for(r.2.2, mods[i].0@) == if module_total(mods[i].1)
                    > last_of(c.last_spec(), mods[i].0@) {
                    1int
                } else {
                    0int
                }
            &&& forall|i: int|
                0 <= i < mods.len() ==> #[trigger] fired_for(r.2.2, mods[i].0@) == if module_total(mods[i].1)
                    > last_of(c.last_spec(), mods[i].0@) {
                    module_total(mods[i].1) - last_of(c.last_spec(), mods[i].0@)
                } else {
                    0int
                }
            &&& forall|q: Seq<char>|
                !has_key(mods, q) ==> #[trigger] fires_for(r.2.2, q) == 0 && fired_for(r.2.2, q) == 0
        }),
{
    let st = initial_state(c);
    lemma_modules_fold_fires(st, mods, mods.len() as int, show_rings);
    assert forall|q: Seq<char>| !has_key(mods, q) implies (forall|j: int| 0 <= j < mods.len() ==> mods[j].0@ != q) by {
        assert forall|j: int| 0 <= j < mods.len() implies mods[j].0@ != q by {
            if mods[j].0@ == q {
                assert(has_key(mods, q));
            }
        }
    }
}

/// Number of particles that the particle events among `evs` start on the
/// connection `k` (source, target, topic).
pub open spec fn spawned_for(evs: Seq<ActivityEvent>, k: (Seq<char>, Seq<char>, Seq<char>)) -> int
    decreases evs.len(),
{
    if evs.len() == 0 {
        0
    } else {
        spawned_for(evs.drop_last(), k) + match evs.last() {
            ActivityEvent::Particles { source, target, topic, count } => if (source@, target@, topic@) == k {
                count as int
            } else {
                0int
            },
            _ => 0int,
        }
    }
}

proof fn lemma_spawned_push(evs: Seq<ActivityEvent>, e: ActivityEvent)
    ensures
        forall|q: (Seq<char>, Seq<char>, Seq<char>)| #[trigger] spawned_for(evs.push(e), q) == spawned_for(evs, q)
            + match e {
            ActivityEvent::Particles { source, target, topic, count } => if (source@, target@, topic@) == q {
                count as int
            } else {
                0int
            },
            _ => 0int,
        },
{
    assert(evs.push(e).drop_last() =~= evs);
}

proof fn lemma_consumers_fold_spawned(
    st: ParticleState,
    mods: Seq<(String, ModuleMetrics)>,
    i: int,
    w: int,
    delta: u64,
    upto: int,
)
    requires
        keys3_unique(st.0),
        st.1 == sum_counts(st.0),
        0 <= i < mods.len(),
        0 <= w < mods[i].1.writes_spec().len(),
        0 <= upto <= mods.len(),
    ensures
        ({
            let r = consumers_fold(st, mods, i, w, delta, upto);
            &&& keys3_unique(r.0)
            &&& r.1 == sum_counts(r.0)
            &&& forall|q: (Seq<char>, Seq<char>, Seq<char>)|
                #[trigger] spawned_for(r.2, q) - count3(r.0, q) == spawned_for(st.2, q) - count3(st.0, q)
        }),
    decreases upto,
{
    if upto > 0 {
        lemma_consumers_fold_spawned(st, mods, i, w, delta, upto - 1);
        let prev = consumers_fold(st, mods, i, w, delta, upto - 1);
        let o = upto - 1;
        lemma_edge_step_counts(prev, mods, i, w, o, delta);
        let topic = mods[i].1.writes_spec()[w].0;
        let key: EdgeKey = (mods[i].0, mods[o].0, topic);
        let cnt = count3(prev.0, key3(key));
        if has_key3(prev.0, key3(key)) {
            let j = key3_index(prev.0, key3(key));
            assert(prev.0[j].1 >= 0);
        }
        if !has_key(mods[o].1.reads_spec(), topic@) || prev.1 >= 5000 || cnt >= 50 {
        } else {
            let n = spawn_count(delta, cnt, prev.1);
            lemma_count3_insert(prev.0, key, (cnt + n) as usize);
            lemma_spawned_push(
                prev.2,
                ActivityEvent::Particles { source: key.0, target: key.1, topic: key.2, count: n as usize },
            );
        }
    }
}

proof fn lemma_writes_fold_spawned(st: ParticleState, mods: Seq<(String, ModuleMetrics)>, i: int, delta: u64, upto: int)
    requires
        keys3_unique(st.0),
        st.1 == sum_counts(st.0),
        0 <= i < mods.len(),
        0 <= upto <= mods[i].1.writes_spec().len(),
    ensures
        ({
            let r = writes_fold(st, mods, i, delta, upto);
            &&& keys3_unique(r.0)
            &&& r.1 == sum_counts(r.0)
            &&& forall|q: (Seq<char>, Seq<char>, Seq<char>)|
                #[trigger] spawned_for(r.2, q) - count3(r.0, q) == spawned_for(st.2, q) - count3(st.0, q)
        }),
    decreases upto,
{
    if upto > 0 {
        lemma_writes_fold_spawned(st, mods, i, delta, upto - 1);
        lemma_consumers_fold_spawned(writes_fold(st, mods, i, delta, upto - 1), mods, i, upto - 1, delta, mods.len() as int);
    }
}

proof fn lemma_modules_fold_spawned(st: ActivityState, mods: Seq<(String, ModuleMetrics)>, upto: int, show_rings: bool)
    requires
        keys3_unique(st.2.0),
        st.2.1 == sum_counts(st.2.0),
        0 <= upto <= mods.len(),
    ensures
        ({
            let r = modules_fold(st, mods, upto, show_rings);
            &&& keys3_unique(r.2.0)
            &&& r.2.1 == sum_counts(r.2.0)
            &&& forall|q: (Seq<char>, Seq<char>, Seq<char>)|
                #[trigger] spawned_for(r.2.2, q) - count3(r.2.0, q) == spawned_for(st.2.2, q) - count3(st.2.0, q)
        }),
    decreases upto,
{
    if upto > 0 {
        let m = upto - 1;
        lemma_modules_fold_spawned(st, mods, m, show_rings);
        let prev = modules_fold(st, mods, m, show_rings);
        let r = modules_fold(st, mods, upto, show_rings);
        let name = mods[m].0;
        let total = module_total(mods[m].1);
        let prev_last = last_of(prev.0, name@);
        if total > prev_last {
            let delta = (total - prev_last) as u64;
            let rings = count_of(prev.1, name@);
            let fired: ParticleState = (prev.2.0, prev.2.1, prev.2.2.push(ActivityEvent::Fire { module: name, delta }));
            let pulse: ParticleState = (fired.0, fired.1, fired.2.push(ActivityEvent::Pulse { module: name, delta }));
            lemma_spawned_push(prev.2.2, ActivityEvent::Fire { module: name, delta });
            lemma_spawned_push(fired.2, ActivityEvent::Pulse { module: name, delta });
            let wl = mods[m].1.writes_spec().len() as int;
            lemma_writes_fold_spawned(fired, mods, m, delta, wl);
            lemma_writes_fold_spawned(pulse, mods, m, delta, wl);
            if show_rings && delta > 50 && rings < 3 {
                assert(r.2 == writes_fold(pulse, mods, m, delta, wl));
            } else {
                assert(r.2 == writes_fold(fired, mods, m, delta, wl));
            }
        } else {
            assert(r.2 == prev.2);
        }
    }
}

/// Every particle event is counted: on each connection, the particle events
/// start exactly as many particles as the connection's particle count grows.
pub proof fn lemma_particle_events_match_counts(c: ActivityCounts, mods: Seq<(String, ModuleMetrics)>, show_rings: bool)
    requires
        keys3_unique(c.particles_spec()),
    ensures
        ({
            let r = modules_fold(initial_state(c), mods, mods.len() as int, show_rings);
            forall|q: (Seq<char>, Seq<char>, Seq<char>)|
                #[trigger] spawned_for(r.2.2, q) == count3(r.2.0, q) - count3(c.particles_spec(), q)
        }),
{
    lemma_modules_fold_spawned(initial_state(c), mods, mods.len() as int, show_rings);
}

/// Detection keeps the effect limits: no connection ends up with more than
/// 50 particles, no module with more than 3 pulse rings and no more than
/// 5000 particles are in flight, when these limits held before (a total
/// already above 5000 does not grow).
pub proof fn lemma_detect_activity_keeps_limits(c: ActivityCounts, mods: Seq<(String, ModuleMetrics)>, show_rings: bool)
    requires
        particles_bounded(c.particles_spec()),
        rings_bounded(c.rings_spec()),
    ensures
        particles_bounded(modules_fold(initial_state(c), mods, mods.len() as int, show_rings).2.0),
        rings_bounded(modules_fold(initial_state(c), mods, mods.len() as int, show_rings).1),
        sum_counts(modules_fold(initial_state(c), mods, mods.len() as int, show_rings).2.0) <= max_int(
            sum_counts(c.particles_spec()),
            5000,
        ),
{
    lemma_modules_fold_bounded(initial_state(c), mods, mods.len() as int, show_rings);
}

} // verus!
