//! The message flow graph: modules as nodes, topic connections as edges.
//!
//! Each snapshot replaces the whole graph: one node per module of the
//! snapshot, and one edge for every module that writes a topic and every
//! module that reads it, unless the topic is ignored.
use vstd::prelude::*;
use crate::digraph::{
    flow_edges, flow_nodes, graph_add_edge, graph_add_node, graph_edge, graph_edge_count, graph_new,
    graph_node, graph_node_count, graph_sccs, index_limit, is_scc_decomposition, nested_view,
    node_listed, on_cycle, strongly_connected,
};
use crate::health::{
    compute_edge_health, edge_health, read_is_critical, read_is_warning, write_is_critical,
    write_is_warning, HealthConfig, HealthStatus,
};
use crate::snapshot::{
    has_key, key_index, keys_unique, lookup, metrics_valid, sum_read_counts, sum_write_counts, ModuleMetrics, ReadMetrics, Snapshot, WriteMetrics,
};
use crate::text;
use petgraph::graph::DiGraph;


verus! {

/// A module node in the message flow graph.
#[derive(Debug, Clone)]
pub struct ModuleNode {
    /// Module name.
    pub name: String,
    /// Total messages read by this module.
    pub total_reads: u64,
    /// Total messages written by this module.
    pub total_writes: u64,
    /// Current health status.
    pub health: HealthStatus,
    /// Topics this module reads from.
    pub read_topics: Vec<String>,
    /// Topics this module writes to.
    pub write_topics: Vec<String>,
}

impl ModuleNode {
    /// Total throughput (reads + writes).
    pub fn throughput(&self) -> (r: u64)
        requires
            self.total_reads + self.total_writes <= u64::MAX,
        ensures
            r == self.total_reads + self.total_writes,
    {
        self.total_reads + self.total_writes
    }
}

/// An edge representing a topic connection between two modules.
#[derive(Debug, Clone)]
pub struct TopicEdge {
    /// Topic name.
    pub topic: String,
    /// Message count on this topic.
    pub message_count: u64,
    /// Backlog (unread messages), if reported.
    pub backlog: Option<u64>,
    /// Waiting time of the oldest message in microseconds, if reported.
    pub pending_us: Option<u64>,
    /// Health status of this connection.
    pub health: HealthStatus,
}

/// The text of each string in a sequence.
pub open spec fn texts(s: Seq<String>) -> Seq<Seq<char>> {
    s.map_values(|x: String| x@)
}

/// The keys of a list of keyed entries, as text.
pub open spec fn key_texts<V>(s: Seq<(String, V)>) -> Seq<Seq<char>> {
    s.map_values(|x: (String, V)| x.0@)
}

/// `topic` starts with one of the ignored prefixes.
pub open spec fn is_ignored(prefixes: Seq<Seq<char>>, topic: Seq<char>) -> bool {
    exists|k: int| 0 <= k < prefixes.len() && #[trigger] prefixes[k].is_prefix_of(topic)
}

/// The topics that are not ignored, in order.
pub open spec fn kept_topics(topics: Seq<Seq<char>>, prefixes: Seq<Seq<char>>) -> Seq<Seq<char>> {
    topics.filter(|t: Seq<char>| !is_ignored(prefixes, t))
}

/// Some topic that is not ignored has counters that make the module critical.
pub open spec fn module_any_critical(cfg: HealthConfig, prefixes: Seq<Seq<char>>, m: ModuleMetrics) -> bool {
    ||| exists|i: int|
        0 <= i < m.reads_spec().len() && !is_ignored(prefixes, m.reads_spec()[i].0@)
            && #[trigger] read_is_critical(cfg, m.reads_spec()[i].1)
    ||| exists|j: int|
        0 <= j < m.writes_spec().len() && !is_ignored(prefixes, m.writes_spec()[j].0@)
            && #[trigger] write_is_critical(cfg, m.writes_spec()[j].1)
}

/// Some topic that is not ignored has counters that make the module at
/// least a warning.
pub open spec fn module_any_warning(cfg: HealthConfig, prefixes: Seq<Seq<char>>, m: ModuleMetrics) -> bool {
    ||| exists|i: int|
        0 <= i < m.reads_spec().len() && !is_ignored(prefixes, m.reads_spec()[i].0@)
            && #[trigger] read_is_warning(cfg, m.reads_spec()[i].1)
    ||| exists|j: int|
        0 <= j < m.writes_spec().len() && !is_ignored(prefixes, m.writes_spec()[j].0@)
            && #[trigger] write_is_warning(cfg, m.writes_spec()[j].1)
}

/// The health of a module: the worst status that any of its topics that is
/// not ignored calls for.
pub open spec fn module_health(cfg: HealthConfig, prefixes: Seq<Seq<char>>, m: ModuleMetrics) -> HealthStatus {
    if module_any_critical(cfg, prefixes, m) {
        HealthStatus::Critical
    } else if module_any_warning(cfg, prefixes, m) {
        HealthStatus::Warning
    } else {
        HealthStatus::Healthy
    }
}

/// The read and write totals of every module fit in 64 bits.
pub open spec fn counts_fit(s: Snapshot) -> bool {
    forall|i: int|
        0 <= i < s.modules_spec().len() ==> {
            &&& sum_read_counts(#[trigger] s.modules_spec()[i].1.reads_spec()) <= u64::MAX
            &&& sum_write_counts(s.modules_spec()[i].1.writes_spec()) <= u64::MAX
        }
}

/// `node` is the node that the graph holds for module `name` with metrics `m`.
pub open spec fn is_module_node(
    node: ModuleNode,
    cfg: HealthConfig,
    prefixes: Seq<Seq<char>>,
    name: String,
    m: ModuleMetrics,
) -> bool {
    &&& node.name == name
    &&& node.total_reads == sum_read_counts(m.reads_spec())
    &&& node.total_writes == sum_write_counts(m.writes_spec())
    &&& node.health == module_health(cfg, prefixes, m)
    &&& texts(node.read_topics@) == kept_topics(key_texts(m.reads_spec()), prefixes)
    &&& texts(node.write_topics@) == kept_topics(key_texts(m.writes_spec()), prefixes)
}

/// The larger of two counts.
pub open spec fn max_u64(a: u64, b: u64) -> u64 {
    if a >= b {
        a
    } else {
        b
    }
}

/// The edge weight for a topic written with counters `w` and read with
/// counters `r`.
pub open spec fn link_edge(cfg: HealthConfig, topic: String, w: WriteMetrics, r: ReadMetrics) -> TopicEdge {
    TopicEdge {
        topic,
        message_count: max_u64(w.count, r.count),
        backlog: r.backlog,
        pending_us: r.pending_us,
        health: edge_health(cfg, r.backlog, r.pending_us),
    }
}

/// Edges from producer `p` on `topic` (written with counters `w`) to each of
/// the modules `0..upto` that read the topic, in module order.
pub open spec fn topic_links(
    cfg: HealthConfig,
    mods: Seq<(String, ModuleMetrics)>,
    p: int,
    topic: String,
    w: WriteMetrics,
    upto: int,
) -> Seq<(usize, usize, TopicEdge)>
    decreases upto,
{
    if upto <= 0 {
        Seq::empty()
    } else {
        let prev = topic_links(cfg, mods, p, topic, w, upto - 1);
        let c = upto - 1;
        match lookup(mods[c].1.reads_spec(), topic@) {
            Some(r) => prev.push((p as usize, c as usize, link_edge(cfg, topic, w, r))),
            None => prev,
        }
    }
}

/// Edges that producer `p` contributes through its first `upto` written
/// topics, skipping ignored topics.
pub open spec fn producer_links(
    cfg: HealthConfig,
    prefixes: Seq<Seq<char>>,
    mods: Seq<(String, ModuleMetrics)>,
    p: int,
    upto: int,
) -> Seq<(usize, usize, TopicEdge)>
    decreases upto,
{
    if upto <= 0 {
        Seq::empty()
    } else {
        let prev = producer_links(cfg, prefixes, mods, p, upto - 1);
        let entry = mods[p].1.writes_spec()[upto - 1];
        if is_ignored(prefixes, entry.0@) {
            prev
        } else {
            prev + topic_links(cfg, mods, p, entry.0, entry.1, mods.len() as int)
        }
    }
}

/// Edges contributed by the producers `0..upto`, producer by producer.
pub open spec fn all_links(
    cfg: HealthConfig,
    prefixes: Seq<Seq<char>>,
    mods: Seq<(String, ModuleMetrics)>,
    upto: int,
) -> Seq<(usize, usize, TopicEdge)>
    decreases upto,
{
    if upto <= 0 {
        Seq::empty()
    } else {
        all_links(cfg, prefixes, mods, upto - 1) + producer_links(
            cfg,
            prefixes,
            mods,
            upto - 1,
            mods[upto - 1].1.writes_spec().len() as int,
        )
    }
}

/// The edges of the graph built from a snapshot's modules.
pub open spec fn snapshot_links(
    cfg: HealthConfig,
    prefixes: Seq<Seq<char>>,
    mods: Seq<(String, ModuleMetrics)>,
) -> Seq<(usize, usize, TopicEdge)> {
    all_links(cfg, prefixes, mods, mods.len() as int)
}

/// The message flow graph.
pub struct MessageFlowGraph {
    /// The underlying graph.
    pub graph: DiGraph<ModuleNode, TopicEdge>,
    /// Health configuration.
    pub health_config: HealthConfig,
    /// Timestamp of the last snapshot, in milliseconds.
    pub last_update_ms: u64,
    /// Topic prefixes to ignore.
    pub ignored_topic_prefixes: Vec<String>,
}

impl MessageFlowGraph {
    /// The modules, in node index order.
    pub open spec fn nodes(&self) -> Seq<ModuleNode> {
        flow_nodes(self.graph)
    }

    /// The connections, in edge index order.
    pub open spec fn edges(&self) -> Seq<(usize, usize, TopicEdge)> {
        flow_edges(self.graph)
    }

    /// The ignored prefixes, as text.
    pub open spec fn prefixes(&self) -> Seq<Seq<char>> {
        texts(self.ignored_topic_prefixes@)
    }

    /// The graph's internal invariant: node and edge counts fit `u32`
    /// indices, every edge joins existing nodes and module names are
    /// distinct.
    pub open spec fn wf(&self) -> bool {
        &&& self.nodes().len() < index_limit()
        &&& self.edges().len() < index_limit()
        &&& forall|e: int|
            0 <= e < self.edges().len() ==> #[trigger] self.edges()[e].0 < self.nodes().len()
                && self.edges()[e].1 < self.nodes().len()
        &&& forall|i: int, j: int|
            0 <= i < self.nodes().len() && 0 <= j < self.nodes().len() && i != j
                ==> #[trigger] self.nodes()[i].name@ != #[trigger] self.nodes()[j].name@
    }

    /// Create a new empty graph that ignores the noisy query topics.
    pub fn new() -> (r: Self)
        ensures
            r.wf(),
            r.nodes().len() == 0,
            r.edges().len() == 0,
            r.health_config == (HealthConfig {
                backlog_warning: 100,
                backlog_critical: 1000,
                pending_warning_us: 500_000,
                pending_critical_us: 2_000_000,
            }),
            r.last_update_ms == 0,
            r.prefixes() == seq!["cardano.query."@],
    {
        let prefix = "cardano.query.".to_string();
        proof {
            broadcast use vstd::string::to_string_from_display_ensures_for_str;
        }
        let prefixes = vec![prefix];
        assert(texts(prefixes@) =~= seq!["cardano.query."@]);
        MessageFlowGraph {
            graph: graph_new(),
            health_config: HealthConfig::default(),
            last_update_ms: 0,
            ignored_topic_prefixes: prefixes,
        }
    }

    /// Create a graph with custom health thresholds and ignored topics.
    pub fn new_with_config(health_config: HealthConfig, ignored_topic_prefixes: Vec<String>) -> (r: Self)
        ensures
            r.wf(),
            r.nodes().len() == 0,
            r.edges().len() == 0,
            r.health_config == health_config,
            r.last_update_ms == 0,
            r.ignored_topic_prefixes == ignored_topic_prefixes,
    {
        MessageFlowGraph {
            graph: graph_new(),
            health_config,
            last_update_ms: 0,
            ignored_topic_prefixes,
        }
    }

    /// Create a graph with custom health thresholds that ignores no topic.
    pub fn with_config(health_config: HealthConfig) -> (r: Self)
        ensures
            r.wf(),
            r.nodes().len() == 0,
            r.edges().len() == 0,
            r.health_config == health_config,
            r.last_update_ms == 0,
            r.ignored_topic_prefixes@.len() == 0,
    {
        Self::new_with_config(health_config, Vec::new())
    }

    /// Get the number of modules.
    pub fn module_count(&self) -> (r: usize)
        ensures
            r == self.nodes().len(),
    {
        graph_node_count(&self.graph)
    }

    /// Get the number of topic connections.
    pub fn edge_count(&self) -> (r: usize)
        ensures
            r == self.edges().len(),
    {
        graph_edge_count(&self.graph)
    }

    /// The module at node index `i`.
    pub fn node(&self, i: usize) -> (r: &ModuleNode)
        requires
            i < self.nodes().len(),
        ensures
            *r == self.nodes()[i as int],
    {
        graph_node(&self.graph, i)
    }

    /// The connection at edge index `e`: source index, target index, weight.
    pub fn edge(&self, e: usize) -> (r: (usize, usize, &TopicEdge))
        requires
            e < self.edges().len(),
        ensures
            r.0 == self.edges()[e as int].0,
            r.1 == self.edges()[e as int].1,
            *r.2 == self.edges()[e as int].2,
    {
        graph_edge(&self.graph, e)
    }

    /// The node index of the module called `name`, if the graph holds one.
    pub fn module_index(&self, name: &str) -> (r: Option<usize>)
        requires
            self.wf(),
        ensures
            match r {
                Some(i) => i < self.nodes().len() && self.nodes()[i as int].name@ == name@,
                None => forall|i: int| 0 <= i < self.nodes().len() ==> #[trigger] self.nodes()[i].name@ != name@,
            },
    {
        let n = graph_node_count(&self.graph);
        let mut i: usize = 0;
        while i < n
            invariant
                n == self.nodes().len(),
                i <= n,
                forall|j: int| 0 <= j < i ==> #[trigger] self.nodes()[j].name@ != name@,
            decreases n - i,
        {
            let node = graph_node(&self.graph, i);
            if text::equals(node.name.as_str(), name) {
                return Some(i);
            }
            i = i + 1;
        }
        None
    }

    /// The module called `name`, if the graph holds one.
    pub fn module(&self, name: &str) -> (r: Option<&ModuleNode>)
        requires
            self.wf(),
        ensures
            match r {
                Some(node) => exists|i: int|
                    0 <= i < self.nodes().len() && *node == #[trigger] self.nodes()[i] && node.name@
                        == name@,
                None => forall|i: int| 0 <= i < self.nodes().len() ==> #[trigger] self.nodes()[i].name@ != name@,
            },
    {
        match self.module_index(name) {
            Some(i) => Some(graph_node(&self.graph, i)),
            None => None,
        }
    }
}

proof fn lemma_topic_links_mono(
    cfg: HealthConfig,
    mods: Seq<(String, ModuleMetrics)>,
    p: int,
    topic: String,
    w: WriteMetrics,
    a: int,
    b: int,
)
    requires
        0 <= a <= b,
    ensures
        topic_links(cfg, mods, p, topic, w, a).len() <= topic_links(cfg, mods, p, topic, w, b).len(),
    decreases b - a,
{
    if a < b {
        lemma_topic_links_mono(cfg, mods, p, topic, w, a, b - 1);
    }
}

proof fn lemma_producer_links_mono(
    cfg: HealthConfig,
    prefixes: Seq<Seq<char>>,
    mods: Seq<(String, ModuleMetrics)>,
    p: int,
    a: int,
    b: int,
)
    requires
        0 <= a <= b,
    ensures
        producer_links(cfg, prefixes, mods, p, a).len() <= producer_links(cfg, prefixes, mods, p, b).len(),
    decreases b - a,
{
    if a < b {
        lemma_producer_links_mono(cfg, prefixes, mods, p, a, b - 1);
    }
}

proof fn lemma_all_links_mono(
    cfg: HealthConfig,
    prefixes: Seq<Seq<char>>,
    mods: Seq<(String, ModuleMetrics)>,
    a: int,
    b: int,
)
    requires
        0 <= a <= b,
    ensures
        all_links(cfg, prefixes, mods, a).len() <= all_links(cfg, prefixes, mods, b).len(),
    decreases b - a,
{
    if a < b {
        lemma_all_links_mono(cfg, prefixes, mods, a, b - 1);
    }
}

/// The read counters stored under `topic` in a module's reads.
fn find_read(reads: &Vec<(String, ReadMetrics)>, topic: &String) -> (r: Option<ReadMetrics>)
    requires
        keys_unique(reads@),
    ensures
        r == lookup(reads@, topic@),
{
    let mut i: usize = 0;
    while i < reads.len()
        invariant
            i <= reads@.len(),
            keys_unique(reads@),
            forall|j: int| 0 <= j < i ==> reads@[j].0@ != topic@,
        decreases reads@.len() - i,
    {
        if reads[i].0 == *topic {
            proof {
                assert(reads@[i as int].0@ == topic@);
                let k = key_index(reads@, topic@);
                assert(reads@[k].0@ == topic@);
                assert(k == i as int);
            }
            return Some(reads[i].1);
        }
        i = i + 1;
    }
    None
}

impl MessageFlowGraph {
    /// Check if a topic should be ignored.
    fn should_ignore_topic(&self, topic: &str) -> (r: bool)
        ensures
            r == is_ignored(self.prefixes(), topic@),
    {
        let n = self.ignored_topic_prefixes.len();
        let mut k: usize = 0;
        while k < n
            invariant
                n == self.prefixes().len(),
                k <= n,
                forall|j: int| 0 <= j < k ==> !(#[trigger] self.prefixes()[j]).is_prefix_of(topic@),
            decreases n - k,
        {
            if text::starts_with(topic, self.ignored_topic_prefixes[k].as_str()) {
                assert(self.prefixes()[k as int].is_prefix_of(topic@));
                return true;
            }
            k = k + 1;
        }
        false
    }

    /// The topics of `entries` that are not ignored, in order.
    fn kept_topic_names<V>(&self, entries: &Vec<(String, V)>) -> (r: Vec<String>)
        ensures
            texts(r@) == kept_topics(key_texts(entries@), self.prefixes()),
    {
        let ghost keys = key_texts(entries@);
        let ghost pred = |t: Seq<char>| !is_ignored(self.prefixes(), t);
        let mut r: Vec<String> = Vec::new();
        let mut i: usize = 0;
        while i < entries.len()
            invariant
                i <= entries@.len(),
                keys == key_texts(entries@),
                pred == (|t: Seq<char>| !is_ignored(self.prefixes(), t)),
                texts(r@) == keys.take(i as int).filter(pred),
            decreases entries@.len() - i,
        {
            proof {
                assert(keys.take(i + 1).drop_last() =~= keys.take(i as int));
                reveal_with_fuel(Seq::filter, 1);
            }
            if !self.should_ignore_topic(entries[i].0.as_str()) {
                r.push(entries[i].0.clone());
                assert(texts(r@) =~= keys.take(i + 1).filter(pred));
            } else {
                assert(texts(r@) =~= keys.take(i + 1).filter(pred));
            }
            i = i + 1;
        }
        assert(keys.take(i as int) =~= keys);
        r
    }

    /// Compute health status for a module based on its metrics.
    fn compute_module_health(&self, metrics: &ModuleMetrics) -> (r: HealthStatus)
        ensures
            r == module_health(self.health_config, self.prefixes(), *metrics),
    {
        let cfg = self.health_config;
        let reads = metrics.reads();
        let writes = metrics.writes();
        let mut worst = HealthStatus::Healthy;
        let mut i: usize = 0;
        while i < reads.len()
            invariant
                i <= reads@.len(),
                cfg == self.health_config,
                reads@ == metrics.reads_spec(),
                worst == HealthStatus::Healthy || worst == HealthStatus::Warning,
                forall|j: int|
                    0 <= j < i && !is_ignored(self.prefixes(), reads@[j].0@) ==> !#[trigger] read_is_critical(
                        cfg,
                        reads@[j].1,
                    ),
                (worst == HealthStatus::Warning) <==> exists|j: int|
                    0 <= j < i && !is_ignored(self.prefixes(), reads@[j].0@)
                        && #[trigger] read_is_warning(cfg, reads@[j].1),
            decreases reads@.len() - i,
        {
            let ghost before = worst;
            if !self.should_ignore_topic(reads[i].0.as_str()) {
                let m = reads[i].1;
                if let Some(backlog) = m.backlog {
                    if backlog >= cfg.backlog_critical {
                        assert(read_is_critical(cfg, reads@[i as int].1));
                        return HealthStatus::Critical;
                    } else if backlog >= cfg.backlog_warning {
                        worst = HealthStatus::Warning;
                    }
                }
                if let Some(pending) = m.pending_us {
                    if pending >= cfg.pending_critical_us {
                        assert(read_is_critical(cfg, reads@[i as int].1));
                        return HealthStatus::Critical;
                    } else if pending >= cfg.pending_warning_us {
                        worst = HealthStatus::Warning;
                    }
                }
                assert(read_is_warning(cfg, reads@[i as int].1) ==> worst == HealthStatus::Warning);
                assert(worst == HealthStatus::Warning ==> before == HealthStatus::Warning || read_is_warning(cfg, reads@[i as int].1));
            }
            i = i + 1;
        }
        let mut j: usize = 0;
        while j < writes.len()
            invariant
                j <= writes@.len(),
                i == reads@.len(),
                cfg == self.health_config,
                reads@ == metrics.reads_spec(),
                writes@ == metrics.writes_spec(),
                worst == HealthStatus::Healthy || worst == HealthStatus::Warning,
                forall|k: int|
                    0 <= k < reads@.len() && !is_ignored(self.prefixes(), reads@[k].0@) ==> !#[trigger] read_is_critical(
                        cfg,
                        reads@[k].1,
                    ),
                forall|k: int|
                    0 <= k < j && !is_ignored(self.prefixes(), writes@[k].0@) ==> !#[trigger] write_is_critical(
                        cfg,
                        writes@[k].1,
                    ),
                (worst == HealthStatus::Warning) <==> (exists|k: int|
                    0 <= k < reads@.len() && !is_ignored(self.prefixes(), reads@[k].0@)
                        && #[trigger] read_is_warning(cfg, reads@[k].1)) || (exists|k: int|
                    0 <= k < j && !is_ignored(self.prefixes(), writes@[k].0@)
                        && #[trigger] write_is_warning(cfg, writes@[k].1)),
            decreases writes@.len() - j,
        {
            let ghost before = worst;
            if !self.should_ignore_topic(writes[j].0.as_str()) {
                if let Some(pending) = writes[j].1.pending_us {
                    if pending >= cfg.pending_critical_us {
                        assert(write_is_critical(cfg, writes@[j as int].1));
                        return HealthStatus::Critical;
                    } else if pending >= cfg.pending_warning_us {
                        worst = HealthStatus::Warning;
                    }
                }
                assert(write_is_warning(cfg, writes@[j as int].1) ==> worst == HealthStatus::Warning);
                assert(worst == HealthStatus::Warning ==> before == HealthStatus::Warning || write_is_warning(cfg, writes@[j as int].1));
            }
            j = j + 1;
        }
        worst
    }

    /// The node for module `name` with metrics `metrics`.
    fn build_module_node(&self, name: &String, metrics: &ModuleMetrics) -> (r: ModuleNode)
        requires
            sum_read_counts(metrics.reads_spec()) <= u64::MAX,
            sum_write_counts(metrics.writes_spec()) <= u64::MAX,
        ensures
            is_module_node(r, self.health_config, self.prefixes(), *name, *metrics),
    {
        let health = self.compute_module_health(metrics);
        let read_topics = self.kept_topic_names(metrics.reads());
        let write_topics = self.kept_topic_names(metrics.writes());
        ModuleNode {
            name: name.clone(),
            total_reads: metrics.total_reads(),
            total_writes: metrics.total_writes(),
            health,
            read_topics,
            write_topics,
        }
    }

    /// Update the graph from a snapshot.
    ///
    /// The graph is rebuilt: one node per module of the snapshot, in the
    /// snapshot's order, and the edges that `snapshot_links` lists.
    #[verifier::spinoff_prover]
    pub fn update_from_snapshot(&mut self, snapshot: &Snapshot)
        requires
            old(self).wf(),
            counts_fit(*snapshot),
            snapshot.modules_spec().len() < index_limit(),
            snapshot_links(old(self).health_config, old(self).prefixes(), snapshot.modules_spec()).len()
                < index_limit(),
        ensures
            final(self).wf(),
            final(self).health_config == old(self).health_config,
            final(self).ignored_topic_prefixes == old(self).ignored_topic_prefixes,
            final(self).last_update_ms == snapshot.timestamp_spec(),
            final(self).nodes().len() == snapshot.modules_spec().len(),
            forall|i: int|
                0 <= i < snapshot.modules_spec().len() ==> is_module_node(
                    #[trigger] final(self).nodes()[i],
                    old(self).health_config,
                    old(self).prefixes(),
                    snapshot.modules_spec()[i].0,
                    snapshot.modules_spec()[i].1,
                ),
            final(self).edges() == snapshot_links(
                old(self).health_config,
                old(self).prefixes(),
                snapshot.modules_spec(),
            ),
            final(self).edges().len() == link_count(
                old(self).prefixes(),
                snapshot.modules_spec(),
                snapshot.modules_spec().len() as int,
            ),
            forall|k1: int, k2: int|
                0 <= k1 < final(self).edges().len() && 0 <= k2 < final(self).edges().len() && k1 != k2
                    ==> edge_triple(#[trigger] final(self).edges()[k1]) != edge_triple(
                    #[trigger] final(self).edges()[k2],
                ),
    {
        let cfg = self.health_config;
        let ghost prefixes = self.prefixes();
        let mods = snapshot.modules();
        let n = mods.len();
        let mut graph = graph_new();
        // First pass: one node per module.
        let mut i: usize = 0;
        while i < n
            invariant
                n == mods@.len(),
                mods@ == snapshot.modules_spec(),
                n < index_limit(),
                i <= n,
                cfg == self.health_config,
                prefixes == self.prefixes(),
                counts_fit(*snapshot),
                flow_nodes(graph).len() == i,
                flow_edges(graph).len() == 0,
                forall|j: int|
                    0 <= j < i ==> is_module_node(#[trigger] flow_nodes(graph)[j], cfg, prefixes, mods@[j].0, mods@[j].1),
            decreases n - i,
        {
            let node = self.build_module_node(&mods[i].0, &mods[i].1);
            graph_add_node(&mut graph, node);
            i = i + 1;
        }
        let ghost nodes = flow_nodes(graph);
        let ghost total = snapshot_links(cfg, prefixes, mods@);
        // Second pass: connect every producer of a topic to its consumers.
        let mut p: usize = 0;
        while p < n
            invariant
                n == mods@.len(),
                mods@ == snapshot.modules_spec(),
                p <= n,
                cfg == self.health_config,
                prefixes == self.prefixes(),
                keys_unique(mods@),
                flow_nodes(graph) == nodes,
                nodes.len() == n,
                total == snapshot_links(cfg, prefixes, mods@),
                total.len() < index_limit(),
                flow_edges(graph) == all_links(cfg, prefixes, mods@, p as int),
                forall|e: int|
                    0 <= e < flow_edges(graph).len() ==> #[trigger] flow_edges(graph)[e].0 < n
                        && flow_edges(graph)[e].1 < n,
            decreases n - p,
        {
            let writes = mods[p].1.writes();
            let mut w: usize = 0;
            while w < writes.len()
                invariant
                    n == mods@.len(),
                    mods@ == snapshot.modules_spec(),
                    p < n,
                    w <= writes@.len(),
                    writes@ == mods@[p as int].1.writes_spec(),
                    cfg == self.health_config,
                    prefixes == self.prefixes(),
                    keys_unique(mods@),
                    flow_nodes(graph) == nodes,
                    nodes.len() == n,
                    total == snapshot_links(cfg, prefixes, mods@),
                    total.len() < index_limit(),
                    flow_edges(graph) == all_links(cfg, prefixes, mods@, p as int) + producer_links(
                        cfg,
                        prefixes,
                        mods@,
                        p as int,
                        w as int,
                    ),
                    forall|e: int|
                        0 <= e < flow_edges(graph).len() ==> #[trigger] flow_edges(graph)[e].0 < n
                            && flow_edges(graph)[e].1 < n,
                decreases writes@.len() - w,
            {
                let topic = &writes[w].0;
                let wm = writes[w].1;
                let ghost base = all_links(cfg, prefixes, mods@, p as int) + producer_links(
                    cfg,
                    prefixes,
                    mods@,
                    p as int,
                    w as int,
                );
                if !self.should_ignore_topic(topic.as_str()) {
                    let mut c: usize = 0;
                    while c < n
                        invariant
                            n == mods@.len(),
                            mods@ == snapshot.modules_spec(),
                            p < n,
                            c <= n,
                            w < writes@.len(),
                            writes@ == mods@[p as int].1.writes_spec(),
                            *topic == writes@[w as int].0,
                            wm == writes@[w as int].1,
                            !is_ignored(prefixes, topic@),
                            cfg == self.health_config,
                            prefixes == self.prefixes(),
                            keys_unique(mods@),
                            flow_nodes(graph) == nodes,
                            nodes.len() == n,
                            total == snapshot_links(cfg, prefixes, mods@),
                            total.len() < index_limit(),
                            base == all_links(cfg, prefixes, mods@, p as int) + producer_links(
                                cfg,
                                prefixes,
                                mods@,
                                p as int,
                                w as int,
                            ),
                            flow_edges(graph) == base + topic_links(cfg, mods@, p as int, *topic, wm, c as int),
                            forall|e: int|
                                0 <= e < flow_edges(graph).len() ==> #[trigger] flow_edges(graph)[e].0 < n
                                    && flow_edges(graph)[e].1 < n,
                        decreases n - c,
                    {
                        let consumer_reads = mods[c].1.reads();
                        match find_read(consumer_reads, topic) {
                            Some(rm) => {
                                proof {
                                    lemma_topic_links_mono(cfg, mods@, p as int, *topic, wm, c + 1, n as int);
                                    assert(producer_links(cfg, prefixes, mods@, p as int, w + 1)
                                        == producer_links(cfg, prefixes, mods@, p as int, w as int)
                                        + topic_links(cfg, mods@, p as int, *topic, wm, n as int));
                                    lemma_producer_links_mono(
                                        cfg,
                                        prefixes,
                                        mods@,
                                        p as int,
                                        w + 1,
                                        writes@.len() as int,
                                    );
                                    lemma_all_links_mono(cfg, prefixes, mods@, p + 1, n as int);
                                    assert(all_links(cfg, prefixes, mods@, p + 1)
                                        == all_links(cfg, prefixes, mods@, p as int) + producer_links(
                                        cfg,
                                        prefixes,
                                        mods@,
                                        p as int,
                                        writes@.len() as int,
                                    ));
                                }
                                let edge = TopicEdge {
                                    topic: topic.clone(),
                                    message_count: if wm.count >= rm.count {
                                        wm.count
                                    } else {
                                        rm.count
                                    },
                                    backlog: rm.backlog,
                                    pending_us: rm.pending_us,
                                    health: compute_edge_health(&cfg, rm.backlog, rm.pending_us),
                                };
                                graph_add_edge(&mut graph, p, c, edge);
                                proof {
                                    assert(flow_edges(graph) =~= base + topic_links(
                                        cfg,
                                        mods@,
                                        p as int,
                                        *topic,
                                        wm,
                                        c + 1,
                                    ));
                                }
                            },
                            None => {
                                proof {
                                    assert(flow_edges(graph) =~= base + topic_links(
                                        cfg,
                                        mods@,
                                        p as int,
                                        *topic,
                                        wm,
                                        c + 1,
                                    ));
                                }
                            },
                        }
                        c = c + 1;
                    }
                    proof {
                        assert(producer_links(cfg, prefixes, mods@, p as int, w + 1)
                            == producer_links(cfg, prefixes, mods@, p as int, w as int)
                            + topic_links(cfg, mods@, p as int, *topic, wm, n as int));
                        assert(flow_edges(graph) =~= all_links(cfg, prefixes, mods@, p as int) + producer_links(
                            cfg,
                            prefixes,
                            mods@,
                            p as int,
                            w + 1,
                        ));
                    }
                } else {
                    proof {
                        assert(producer_links(cfg, prefixes, mods@, p as int, w + 1)
                            == producer_links(cfg, prefixes, mods@, p as int, w as int));
                    }
                }
                w = w + 1;
            }
            proof {
                assert(flow_edges(graph) =~= all_links(cfg, prefixes, mods@, p + 1));
            }
            p = p + 1;
        }
        proof {
            assert forall|a: int, b: int|
                0 <= a < nodes.len() && 0 <= b < nodes.len() && a != b implies #[trigger] nodes[a].name@
                != #[trigger] nodes[b].name@ by {
                assert(nodes[a].name == mods@[a].0);
                assert(nodes[b].name == mods@[b].0);
            }
        }
        proof {
            assert forall|i: int| 0 <= i < mods@.len() implies keys_unique(
                #[trigger] mods@[i].1.writes_spec(),
            ) by {
                assert(metrics_valid(mods@[i].1));
            }
            lemma_snapshot_links_count(cfg, prefixes, mods@);
        }
        self.graph = graph;
        self.last_update_ms = snapshot.timestamp_ms();
    }
}

/// The names of the nodes of each component with more than one node, in
/// the order of the components.
pub open spec fn cycle_names(nodes: Seq<ModuleNode>, comps: Seq<Seq<usize>>) -> Seq<Seq<Seq<char>>> {
    comps.filter(|c: Seq<usize>| c.len() > 1).map_values(
        |c: Seq<usize>| c.map_values(|i: usize| nodes[i as int].name@),
    )
}

/// `r` lists the cycles of the graph: for some decomposition of the graph
/// into strongly connected components, `r` holds the module names of each
/// component with more than one module.
pub open spec fn lists_cycles(
    nodes: Seq<ModuleNode>,
    edges: Seq<(usize, usize, TopicEdge)>,
    r: Seq<Seq<Seq<char>>>,
) -> bool {
    exists|comps: Seq<Seq<usize>>|
        #[trigger] is_scc_decomposition(nodes.len(), edges, comps) && r == cycle_names(nodes, comps)
}

/// The text of the names in a result of `detect_cycles`.
pub open spec fn names_view(r: Seq<Vec<String>>) -> Seq<Seq<Seq<char>>> {
    r.map_values(|c: Vec<String>| texts(c@))
}

/// Edge `e` runs inside a cycle: its endpoints reach each other, and its
/// source lies on a cycle through another module.
pub open spec fn is_cycle_edge(n: nat, edges: Seq<(usize, usize, TopicEdge)>, e: (usize, usize, TopicEdge)) -> bool {
    strongly_connected(edges, e.0 as int, e.1 as int) && on_cycle(n, edges, e.0 as int)
}

/// Source name, target name and topic of each edge that runs inside a
/// cycle, in edge order.
pub open spec fn cycle_edge_keys(nodes: Seq<ModuleNode>, edges: Seq<(usize, usize, TopicEdge)>) -> Seq<
    (Seq<char>, Seq<char>, Seq<char>),
> {
    edges.filter(|e: (usize, usize, TopicEdge)| is_cycle_edge(nodes.len(), edges, e)).map_values(
        |e: (usize, usize, TopicEdge)| (nodes[e.0 as int].name@, nodes[e.1 as int].name@, e.2.topic@),
    )
}

/// The text of the triples in a result of `cycle_edges`.
pub open spec fn triples_view(r: Seq<(String, String, String)>) -> Seq<(Seq<char>, Seq<char>, Seq<char>)> {
    r.map_values(|t: (String, String, String)| (t.0@, t.1@, t.2@))
}

/// Node `i` is in component `comp[i]` of `comps`.
pub open spec fn is_component_map(n: nat, comps: Seq<Seq<usize>>, comp: Seq<usize>) -> bool {
    &&& comp.len() == n
    &&& forall|i: int|
        0 <= i < n ==> #[trigger] comp[i] < comps.len() && comps[comp[i] as int].contains(i as usize)
}

/// A node is on a cycle exactly when its component has more than one node.
proof fn lemma_component_size(
    n: nat,
    edges: Seq<(usize, usize, TopicEdge)>,
    comps: Seq<Seq<usize>>,
    k: int,
    m: int,
)
    requires
        is_scc_decomposition(n, edges, comps),
        0 <= k < comps.len(),
        0 <= m < comps[k].len(),
    ensures
        comps[k].len() > 1 <==> on_cycle(n, edges, comps[k][m] as int),
{
    let i = comps[k][m] as int;
    if comps[k].len() > 1 {
        let m2 = if m == 0 {
            1int
        } else {
            0int
        };
        let b = comps[k][m2] as int;
        assert(comps[k][m] == comps[k][m2] ==> m == m2);
        assert(strongly_connected(edges, comps[k][m] as int, comps[k][m2] as int));
        assert(0 <= b < n);
        assert(b != i);
    }
    if on_cycle(n, edges, i) {
        let b = choose|b: int| 0 <= b < n && b != i && #[trigger] strongly_connected(edges, i, b);
        assert(node_listed(comps, b));
        let (k2, m2) = choose|k2: int, m2: int|
            0 <= k2 < comps.len() && 0 <= m2 < comps[k2].len() && #[trigger] comps[k2][m2] == b;
        assert(strongly_connected(edges, comps[k][m] as int, comps[k2][m2] as int));
        assert(k == k2);
        if comps[k].len() <= 1 {
            assert(m == 0 && m2 == 0);
        }
    }
}

impl MessageFlowGraph {
    /// The component index of every node.
    fn component_map(&self, comps: &Vec<Vec<usize>>) -> (r: Vec<usize>)
        requires
            self.wf(),
            is_scc_decomposition(self.nodes().len(), self.edges(), nested_view(comps@)),
        ensures
            is_component_map(self.nodes().len(), nested_view(comps@), r@),
    {
        let n = graph_node_count(&self.graph);
        let ghost cv = nested_view(comps@);
        let mut r: Vec<usize> = Vec::new();
        let mut i: usize = 0;
        while i < n
            invariant
                i <= n,
                r@.len() == i,
            decreases n - i,
        {
            r.push(0);
            i = i + 1;
        }
        let mut k: usize = 0;
        while k < comps.len()
            invariant
                n == self.nodes().len(),
                cv == nested_view(comps@),
                is_scc_decomposition(self.nodes().len(), self.edges(), cv),
                r@.len() == n,
                k <= comps@.len(),
                forall|k2: int, m2: int|
                    0 <= k2 < k && 0 <= m2 < cv[k2].len() ==> r@[#[trigger] cv[k2][m2] as int] == k2,
            decreases comps@.len() - k,
        {
            let comp = &comps[k];
            assert(comp@ == cv[k as int]);
            let mut m: usize = 0;
            while m < comp.len()
                invariant
                    n == self.nodes().len(),
                    cv == nested_view(comps@),
                    is_scc_decomposition(self.nodes().len(), self.edges(), cv),
                    k < comps@.len(),
                    comp@ == cv[k as int],
                    r@.len() == n,
                    m <= comp@.len(),
                    forall|k2: int, m2: int|
                        0 <= k2 < k && 0 <= m2 < cv[k2].len() ==> r@[#[trigger] cv[k2][m2] as int] == k2,
                    forall|m2: int| 0 <= m2 < m ==> r@[#[trigger] cv[k as int][m2] as int] == k,
                decreases comp@.len() - m,
            {
                let x = comp[m];
                assert(x == cv[k as int][m as int]);
                assert(x < n);
                r.set(x, k);
                assert forall|k2: int, m2: int|
                    0 <= k2 < k && 0 <= m2 < cv[k2].len() implies r@[#[trigger] cv[k2][m2] as int] == k2 by {
                    if cv[k2][m2] == cv[k as int][m as int] {
                        assert(k2 == k as int);
                    }
                }
                assert forall|m2: int| 0 <= m2 < m + 1 implies r@[#[trigger] cv[k as int][m2] as int] == k by {
                    if m2 < m && cv[k as int][m2] == cv[k as int][m as int] {
                        assert(m2 == m as int);
                    }
                }
                m = m + 1;
            }
            k = k + 1;
        }
        assert forall|i: int| 0 <= i < n implies #[trigger] r@[i] < cv.len() && cv[r@[i] as int].contains(
            i as usize,
        ) by {
            assert(node_listed(cv, i));
            let (k2, m2) = choose|k2: int, m2: int|
                0 <= k2 < cv.len() && 0 <= m2 < cv[k2].len() && #[trigger] cv[k2][m2] == i;
            assert(r@[cv[k2][m2] as int] == k2);
            assert(cv[k2][m2] == i as usize);
        }
        r
    }

    /// Detect all cycles in the message flow graph.
    ///
    /// Returns the module names of every strongly connected component with
    /// more than one module.
    pub fn detect_cycles(&self) -> (r: Vec<Vec<String>>)
        requires
            self.wf(),
        ensures
            lists_cycles(self.nodes(), self.edges(), names_view(r@)),
    {
        let comps = graph_sccs(&self.graph);
        let ghost cv = nested_view(comps@);
        let ghost pred = |c: Seq<usize>| c.len() > 1;
        let ghost g = |i: usize| self.nodes()[i as int].name@;
        let ghost f = |c: Seq<usize>| c.map_values(g);
        let mut result: Vec<Vec<String>> = Vec::new();
        let mut k: usize = 0;
        while k < comps.len()
            invariant
                cv == nested_view(comps@),
                is_scc_decomposition(self.nodes().len(), self.edges(), cv),
                k <= comps@.len(),
                pred == (|c: Seq<usize>| c.len() > 1),
                g == (|i: usize| self.nodes()[i as int].name@),
                f == (|c: Seq<usize>| c.map_values(g)),
                names_view(result@) == cv.take(k as int).filter(pred).map_values(f),
            decreases comps@.len() - k,
        {
            proof {
                assert(cv.take(k + 1).drop_last() =~= cv.take(k as int));
                reveal_with_fuel(Seq::filter, 1);
            }
            let comp = &comps[k];
            assert(comp@ == cv[k as int]);
            if comp.len() > 1 {
                let mut names: Vec<String> = Vec::new();
                let mut m: usize = 0;
                while m < comp.len()
                    invariant
                        cv == nested_view(comps@),
                        is_scc_decomposition(self.nodes().len(), self.edges(), cv),
                        k < comps@.len(),
                        comp@ == cv[k as int],
                        m <= comp@.len(),
                        g == (|i: usize| self.nodes()[i as int].name@),
                        names@.len() == m,
                        texts(names@) == comp@.take(m as int).map_values(g),
                    decreases comp@.len() - m,
                {
                    assert(comp@[m as int] == cv[k as int][m as int]);
                    let node = graph_node(&self.graph, comp[m]);
                    let name = node.name.clone();
                    let ghost old_names = names@;
                    names.push(name);
                    proof {
                        assert(name@ == self.nodes()[comp@[m as int] as int].name@);
                        assert(g(comp@[m as int]) == name@);
                        assert(texts(names@).len() == m + 1);
                        assert(texts(names@)[m as int] == name@);
                        assert(comp@.take(m + 1).map_values(g)[m as int] == g(comp@[m as int]));
                        assert(texts(old_names) == texts(names@).take(m as int));
                        assert(comp@.take(m + 1).map_values(g).take(m as int) =~= comp@.take(m as int).map_values(g));
                    }
                    assert forall|j: int| 0 <= j < m + 1 implies #[trigger] texts(names@)[j] == comp@.take(m + 1).map_values(g)[j] by {
                        if j < m {
                            assert(texts(names@)[j] == texts(old_names)[j]);
                            assert(comp@.take(m + 1).map_values(g)[j] == comp@.take(m as int).map_values(g)[j]);
                        }
                    }
                    assert(texts(names@) =~= comp@.take(m + 1).map_values(g));
                    m = m + 1;
                }
                assert(comp@.take(m as int) =~= comp@);
                let ghost before = names_view(result@);
                result.push(names);
                proof {
                    assert(names_view(result@) =~= before.push(f(cv[k as int])));
                    assert(cv.take(k + 1).filter(pred) == cv.take(k as int).filter(pred).push(cv[k as int]));
                    assert(names_view(result@) =~= cv.take(k + 1).filter(pred).map_values(f));
                }
            } else {
                proof {
                    assert(cv.take(k + 1).filter(pred) == cv.take(k as int).filter(pred));
                }
            }
            k = k + 1;
        }
        proof {
            assert(cv.take(k as int) =~= cv);
            assert(f == (|c: Seq<usize>| c.map_values(|i: usize| self.nodes()[i as int].name@)));
            assert(names_view(result@) == cycle_names(self.nodes(), cv));
        }
        result
    }
}

/// Some module called `name` lies on a cycle through another module.
pub open spec fn module_in_cycle(
    nodes: Seq<ModuleNode>,
    edges: Seq<(usize, usize, TopicEdge)>,
    name: Seq<char>,
) -> bool {
    exists|i: int| 0 <= i < nodes.len() && nodes[i].name@ == name && #[trigger] on_cycle(nodes.len(), edges, i)
}

/// `name` occurs in one of the listed cycles.
pub open spec fn listed_in(r: Seq<Seq<Seq<char>>>, name: Seq<char>) -> bool {
    exists|q: int, m: int| 0 <= q < r.len() && 0 <= m < r[q].len() && #[trigger] r[q][m] == name
}

/// A module name occurs in the cycles that `detect_cycles` lists exactly
/// when a module of that name lies on a cycle through another module.
pub proof fn lemma_listed_iff_in_cycle(
    nodes: Seq<ModuleNode>,
    edges: Seq<(usize, usize, TopicEdge)>,
    r: Seq<Seq<Seq<char>>>,
    name: Seq<char>,
)
    requires
        lists_cycles(nodes, edges, r),
    ensures
        listed_in(r, name) <==> module_in_cycle(nodes, edges, name),
{
    let comps = choose|comps: Seq<Seq<usize>>|
        #[trigger] is_scc_decomposition(nodes.len(), edges, comps) && r == cycle_names(nodes, comps);
    let pred = |c: Seq<usize>| c.len() > 1;
    let g = |i: usize| nodes[i as int].name@;
    let f = |c: Seq<usize>| c.map_values(g);
    let filtered = comps.filter(pred);
    assert(r == filtered.map_values(f));
    if listed_in(r, name) {
        let (q, m) = choose|q: int, m: int| 0 <= q < r.len() && 0 <= m < r[q].len() && #[trigger] r[q][m] == name;
        let c = filtered[q];
        assert(filtered.contains(c));
        comps.lemma_filter_contains_rev(pred, c);
        comps.lemma_filter_pred(pred, q);
        let k = choose|k: int| 0 <= k < comps.len() && comps[k] == c;
        assert(r[q] == f(c));
        assert(r[q][m] == g(c[m]));
        lemma_component_size(nodes.len(), edges, comps, k, m);
        let i = c[m] as int;
        assert(on_cycle(nodes.len(), edges, i));
        assert(0 <= i < nodes.len());
    }
    if module_in_cycle(nodes, edges, name) {
        let i = choose|i: int| 0 <= i < nodes.len() && nodes[i].name@ == name && #[trigger] on_cycle(nodes.len(), edges, i);
        assert(node_listed(comps, i));
        let (k, m) = choose|k: int, m: int| 0 <= k < comps.len() && 0 <= m < comps[k].len() && #[trigger] comps[k][m] == i;
        lemma_component_size(nodes.len(), edges, comps, k, m);
        comps.lemma_filter_contains(pred, k);
        let q = choose|q: int| 0 <= q < filtered.len() && filtered[q] == comps[k];
        assert(r[q] == f(comps[k]));
        assert(r[q][m] == g(comps[k][m]));
        assert(r[q][m] == name);
    }
}

impl MessageFlowGraph {
    /// Check if a module participates in any cycle.
    pub fn is_in_cycle(&self, module_name: &str) -> (r: bool)
        requires
            self.wf(),
        ensures
            r == module_in_cycle(self.nodes(), self.edges(), module_name@),
    {
        let cycles = self.detect_cycles();
        let ghost cv = names_view(cycles@);
        let mut q: usize = 0;
        while q < cycles.len()
            invariant
                cv == names_view(cycles@),
                lists_cycles(self.nodes(), self.edges(), cv),
                q <= cycles@.len(),
                forall|q2: int, m2: int|
                    0 <= q2 < q && 0 <= m2 < cv[q2].len() ==> #[trigger] cv[q2][m2] != module_name@,
            decreases cycles@.len() - q,
        {
            let cycle = &cycles[q];
            assert(texts(cycle@) == cv[q as int]);
            let mut m: usize = 0;
            while m < cycle.len()
                invariant
                    cv == names_view(cycles@),
                    lists_cycles(self.nodes(), self.edges(), cv),
                    q < cycles@.len(),
                    texts(cycle@) == cv[q as int],
                    m <= cycle@.len(),
                    forall|q2: int, m2: int|
                        0 <= q2 < q && 0 <= m2 < cv[q2].len() ==> #[trigger] cv[q2][m2] != module_name@,
                    forall|m2: int| 0 <= m2 < m ==> #[trigger] cv[q as int][m2] != module_name@,
                decreases cycle@.len() - m,
            {
                if text::equals(cycle[m].as_str(), module_name) {
                    proof {
                        assert(cv[q as int][m as int] == module_name@);
                        lemma_listed_iff_in_cycle(self.nodes(), self.edges(), cv, module_name@);
                    }
                    return true;
                }
                assert(cv[q as int][m as int] == cycle@[m as int]@);
                m = m + 1;
            }
            q = q + 1;
        }
        proof {
            lemma_listed_iff_in_cycle(self.nodes(), self.edges(), cv, module_name@);
        }
        false
    }

    /// Get edges that form part of a cycle.
    ///
    /// Returns (source, target, topic) for every edge whose endpoints lie in
    /// one strongly connected component with more than one module, in edge
    /// order.
    pub fn cycle_edges(&self) -> (r: Vec<(String, String, String)>)
        requires
            self.wf(),
        ensures
            triples_view(r@) == cycle_edge_keys(self.nodes(), self.edges()),
    {
        let comps = graph_sccs(&self.graph);
        let ghost cv = nested_view(comps@);
        let comp = self.component_map(&comps);
        let ghost n = self.nodes().len();
        let ghost pred = |e: (usize, usize, TopicEdge)| is_cycle_edge(n, self.edges(), e);
        let ghost key = |e: (usize, usize, TopicEdge)|
            (self.nodes()[e.0 as int].name@, self.nodes()[e.1 as int].name@, e.2.topic@);
        let num_edges = graph_edge_count(&self.graph);
        let mut result: Vec<(String, String, String)> = Vec::new();
        let mut e: usize = 0;
        while e < num_edges
            invariant
                self.wf(),
                n == self.nodes().len(),
                num_edges == self.edges().len(),
                cv == nested_view(comps@),
                is_scc_decomposition(n, self.edges(), cv),
                is_component_map(n, cv, comp@),
                e <= num_edges,
                pred == (|e: (usize, usize, TopicEdge)| is_cycle_edge(n, self.edges(), e)),
                key == (|e: (usize, usize, TopicEdge)|
                    (self.nodes()[e.0 as int].name@, self.nodes()[e.1 as int].name@, e.2.topic@)),
                triples_view(result@) == self.edges().take(e as int).filter(pred).map_values(key),
            decreases num_edges - e,
        {
            let (source, target, weight) = graph_edge(&self.graph, e);
            let ghost edge = self.edges()[e as int];
            assert(source < n && target < n);
            let cs = comp[source];
            let ct = comp[target];
            let in_cycle = cs == ct && comps[cs].len() > 1;
            proof {
                let ms = choose|ms: int| 0 <= ms < cv[cs as int].len() && cv[cs as int][ms] == source;
                let mt = choose|mt: int| 0 <= mt < cv[ct as int].len() && cv[ct as int][mt] == target;
                assert(cv[cs as int][ms] == source);
                assert(cv[ct as int][mt] == target);
                assert((cs == ct) <==> strongly_connected(self.edges(), source as int, target as int));
                lemma_component_size(n, self.edges(), cv, cs as int, ms);
                assert(comps@[cs as int]@ == cv[cs as int]);
                assert(in_cycle == pred(edge));
                assert(self.edges().take(e + 1).drop_last() =~= self.edges().take(e as int));
                reveal_with_fuel(Seq::filter, 1);
            }
            if in_cycle {
                let s_name = graph_node(&self.graph, source).name.clone();
                let t_name = graph_node(&self.graph, target).name.clone();
                let ghost before = triples_view(result@);
                result.push((s_name, t_name, weight.topic.clone()));
                proof {
                    assert(triples_view(result@) =~= before.push(key(edge)));
                    assert(self.edges().take(e + 1).filter(pred) == self.edges().take(e as int).filter(pred).push(edge));
                    assert(triples_view(result@) =~= self.edges().take(e + 1).filter(pred).map_values(key));
                }
            } else {
                proof {
                    assert(self.edges().take(e + 1).filter(pred) == self.edges().take(e as int).filter(pred));
                }
            }
            e = e + 1;
        }
        proof {
            assert(self.edges().take(e as int) =~= self.edges());
        }
        result
    }
}

/// `e` joins producer `e.0` to consumer `e.1` through a topic that `e.0`
/// writes, `e.1` reads and that is not ignored, and carries the weight that
/// their counters call for.
pub open spec fn is_link(
    cfg: HealthConfig,
    prefixes: Seq<Seq<char>>,
    mods: Seq<(String, ModuleMetrics)>,
    e: (usize, usize, TopicEdge),
) -> bool {
    &&& e.0 < mods.len()
    &&& e.1 < mods.len()
    &&& exists|w: int|
        0 <= w < mods[e.0 as int].1.writes_spec().len() && #[trigger] link_through(
            cfg,
            prefixes,
            mods,
            e,
            w,
        )
}

/// `e` is the link of producer `e.0`'s written topic number `w` to consumer
/// `e.1`.
pub open spec fn link_through(
    cfg: HealthConfig,
    prefixes: Seq<Seq<char>>,
    mods: Seq<(String, ModuleMetrics)>,
    e: (usize, usize, TopicEdge),
    w: int,
) -> bool {
    let entry = mods[e.0 as int].1.writes_spec()[w];
    &&& !is_ignored(prefixes, entry.0@)
    &&& lookup(mods[e.1 as int].1.reads_spec(), entry.0@) is Some
    &&& e.2 == link_edge(cfg, entry.0, entry.1, lookup(mods[e.1 as int].1.reads_spec(), entry.0@)->Some_0)
}

proof fn lemma_topic_links_members(
    cfg: HealthConfig,
    prefixes: Seq<Seq<char>>,
    mods: Seq<(String, ModuleMetrics)>,
    p: int,
    w: int,
    upto: int,
)
    requires
        0 <= p < mods.len(),
        0 <= w < mods[p].1.writes_spec().len(),
        !is_ignored(prefixes, mods[p].1.writes_spec()[w].0@),
        0 <= upto <= mods.len(),
        mods.len() <= usize::MAX,
    ensures
        ({
            let links = topic_links(cfg, mods, p, mods[p].1.writes_spec()[w].0, mods[p].1.writes_spec()[w].1, upto);
            &&& forall|k: int| 0 <= k < links.len() ==> links[k].0 == p && links[k].1 < upto && link_through(cfg, prefixes, mods, #[trigger] links[k], w)
            &&& forall|c: int| 0 <= c < upto && #[trigger] lookup(mods[c].1.reads_spec(), mods[p].1.writes_spec()[w].0@) is Some ==>
                exists|k: int| 0 <= k < links.len() && #[trigger] links[k].1 == c
        }),
    decreases upto,
{
    let entry = mods[p].1.writes_spec()[w];
    if upto > 0 {
        lemma_topic_links_members(cfg, prefixes, mods, p, w, upto - 1);
        let prev = topic_links(cfg, mods, p, entry.0, entry.1, upto - 1);
        let links = topic_links(cfg, mods, p, entry.0, entry.1, upto);
        assert forall|c: int| 0 <= c < upto && #[trigger] lookup(mods[c].1.reads_spec(), entry.0@) is Some implies
            exists|k: int| 0 <= k < links.len() && #[trigger] links[k].1 == c by {
            if c < upto - 1 {
                let k = choose|k: int| 0 <= k < prev.len() && #[trigger] prev[k].1 == c;
                assert(links[k] == prev[k]);
            } else {
                assert(links[links.len() - 1].1 == c);
            }
        }
    }
}

proof fn lemma_producer_links_members(
    cfg: HealthConfig,
    prefixes: Seq<Seq<char>>,
    mods: Seq<(String, ModuleMetrics)>,
    p: int,
    upto: int,
)
    requires
        0 <= p < mods.len(),
        0 <= upto <= mods[p].1.writes_spec().len(),
        mods.len() <= usize::MAX,
    ensures
        ({
            let links = producer_links(cfg, prefixes, mods, p, upto);
            &&& forall|k: int| 0 <= k < links.len() ==> #[trigger] links[k].0 == p && is_link(cfg, prefixes, mods, links[k])
            &&& forall|c: int, w: int| 0 <= c < mods.len() && 0 <= w < upto && #[trigger] link_through(cfg, prefixes, mods, (p as usize, c as usize, #[trigger] link_edge_of(cfg, mods, p, c, w)), w) ==>
                links.contains((p as usize, c as usize, link_edge_of(cfg, mods, p, c, w)))
        }),
    decreases upto,
{
    if upto > 0 {
        lemma_producer_links_members(cfg, prefixes, mods, p, upto - 1);
        let prev = producer_links(cfg, prefixes, mods, p, upto - 1);
        let links = producer_links(cfg, prefixes, mods, p, upto);
        let w0 = upto - 1;
        let entry = mods[p].1.writes_spec()[w0];
        if !is_ignored(prefixes, entry.0@) {
            lemma_topic_links_members(cfg, prefixes, mods, p, w0, mods.len() as int);
            let tl = topic_links(cfg, mods, p, entry.0, entry.1, mods.len() as int);
            assert(links == prev + tl);
            assert forall|k: int| 0 <= k < links.len() implies #[trigger] links[k].0 == p && is_link(cfg, prefixes, mods, links[k]) by {
                if k >= prev.len() {
                    assert(links[k] == tl[k - prev.len()]);
                    assert(link_through(cfg, prefixes, mods, tl[k - prev.len()], w0));
                }
            }
            assert forall|c: int, w: int| 0 <= c < mods.len() && 0 <= w < upto && #[trigger] link_through(cfg, prefixes, mods, (p as usize, c as usize, #[trigger] link_edge_of(cfg, mods, p, c, w)), w) implies
                links.contains((p as usize, c as usize, link_edge_of(cfg, mods, p, c, w))) by {
                let x = (p as usize, c as usize, link_edge_of(cfg, mods, p, c, w));
                if w < w0 {
                    let k = choose|k: int| 0 <= k < prev.len() && prev[k] == x;
                    assert(links[k] == x);
                } else {
                    assert(lookup(mods[c].1.reads_spec(), entry.0@) is Some);
                    let k = choose|k: int| 0 <= k < tl.len() && #[trigger] tl[k].1 == c;
                    assert(link_through(cfg, prefixes, mods, tl[k], w0));
                    assert(tl[k] == x);
                    assert(links[prev.len() + k] == x);
                }
            }
        } else {
            assert(links == prev);
            assert forall|c: int, w: int| 0 <= c < mods.len() && 0 <= w < upto && #[trigger] link_through(cfg, prefixes, mods, (p as usize, c as usize, #[trigger] link_edge_of(cfg, mods, p, c, w)), w) implies
                links.contains((p as usize, c as usize, link_edge_of(cfg, mods, p, c, w))) by {
                assert(w != w0);
            }
        }
    }
}

/// The weight of the link from producer `p`'s written topic number `w` to
/// consumer `c` (meaningful when `c` reads that topic).
pub open spec fn link_edge_of(cfg: HealthConfig, mods: Seq<(String, ModuleMetrics)>, p: int, c: int, w: int) -> TopicEdge {
    let entry = mods[p].1.writes_spec()[w];
    link_edge(cfg, entry.0, entry.1, lookup(mods[c].1.reads_spec(), entry.0@)->Some_0)
}

proof fn lemma_all_links_members(
    cfg: HealthConfig,
    prefixes: Seq<Seq<char>>,
    mods: Seq<(String, ModuleMetrics)>,
    upto: int,
)
    requires
        0 <= upto <= mods.len(),
        mods.len() <= usize::MAX,
    ensures
        ({
            let links = all_links(cfg, prefixes, mods, upto);
            &&& forall|k: int| 0 <= k < links.len() ==> is_link(cfg, prefixes, mods, #[trigger] links[k])
            &&& forall|p: int, c: int, w: int| 0 <= p < upto && 0 <= c < mods.len() && 0 <= w < mods[p].1.writes_spec().len()
                && #[trigger] link_through(cfg, prefixes, mods, (p as usize, c as usize, #[trigger] link_edge_of(cfg, mods, p, c, w)), w) ==>
                links.contains((p as usize, c as usize, link_edge_of(cfg, mods, p, c, w)))
        }),
    decreases upto,
{
    if upto > 0 {
        lemma_all_links_members(cfg, prefixes, mods, upto - 1);
        let p0 = upto - 1;
        lemma_producer_links_members(cfg, prefixes, mods, p0, mods[p0].1.writes_spec().len() as int);
        let prev = all_links(cfg, prefixes, mods, upto - 1);
        let pl = producer_links(cfg, prefixes, mods, p0, mods[p0].1.writes_spec().len() as int);
        let links = all_links(cfg, prefixes, mods, upto);
        assert(links == prev + pl);
        assert forall|k: int| 0 <= k < links.len() implies is_link(cfg, prefixes, mods, #[trigger] links[k]) by {
            if k >= prev.len() {
                assert(links[k] == pl[k - prev.len()]);
            }
        }
        assert forall|p: int, c: int, w: int| 0 <= p < upto && 0 <= c < mods.len() && 0 <= w < mods[p].1.writes_spec().len()
            && #[trigger] link_through(cfg, prefixes, mods, (p as usize, c as usize, #[trigger] link_edge_of(cfg, mods, p, c, w)), w) implies
            links.contains((p as usize, c as usize, link_edge_of(cfg, mods, p, c, w))) by {
            let x = (p as usize, c as usize, link_edge_of(cfg, mods, p, c, w));
            if p < p0 {
                let k = choose|k: int| 0 <= k < prev.len() && prev[k] == x;
                assert(links[k] == x);
            } else {
                let k = choose|k: int| 0 <= k < pl.len() && pl[k] == x;
                assert(links[prev.len() + k] == x);
            }
        }
    }
}

/// The edges built from a snapshot are exactly its producer-consumer links:
/// every edge joins a module that writes a topic that is not ignored to a
/// module that reads it, with the weight their counters call for, and every
/// such pair of modules is joined through every such topic.
pub proof fn lemma_snapshot_links_exact(
    cfg: HealthConfig,
    prefixes: Seq<Seq<char>>,
    mods: Seq<(String, ModuleMetrics)>,
)
    requires
        mods.len() <= usize::MAX,
    ensures
        forall|k: int|
            0 <= k < snapshot_links(cfg, prefixes, mods).len() ==> is_link(
                cfg,
                prefixes,
                mods,
                #[trigger] snapshot_links(cfg, prefixes, mods)[k],
            ),
        forall|p: int, c: int, w: int|
            0 <= p < mods.len() && 0 <= c < mods.len() && 0 <= w < mods[p].1.writes_spec().len()
                && #[trigger] link_through(
                cfg,
                prefixes,
                mods,
                (p as usize, c as usize, #[trigger] link_edge_of(cfg, mods, p, c, w)),
                w,
            ) ==> snapshot_links(cfg, prefixes, mods).contains(
                (p as usize, c as usize, link_edge_of(cfg, mods, p, c, w)),
            ),
{
    lemma_all_links_members(cfg, prefixes, mods, mods.len() as int);
}

/// Number of the modules `0..upto` that read `topic`.
pub open spec fn reader_count(mods: Seq<(String, ModuleMetrics)>, topic: Seq<char>, upto: int) -> int
    decreases upto,
{
    if upto <= 0 {
        0
    } else {
        reader_count(mods, topic, upto - 1) + if has_key(mods[upto - 1].1.reads_spec(), topic) {
            1int
        } else {
            0int
        }
    }
}

/// Number of connections of producer `p` through its written topics
/// `0..upto`: for each topic that is not ignored, one per module that reads
/// it.
pub open spec fn producer_link_count(
    prefixes: Seq<Seq<char>>,
    mods: Seq<(String, ModuleMetrics)>,
    p: int,
    upto: int,
) -> int
    decreases upto,
{
    if upto <= 0 {
        0
    } else {
        let topic = mods[p].1.writes_spec()[upto - 1].0@;
        producer_link_count(prefixes, mods, p, upto - 1) + if is_ignored(prefixes, topic) {
            0
        } else {
            reader_count(mods, topic, mods.len() as int)
        }
    }
}

/// Number of connections of the producers `0..upto`.
pub open spec fn link_count(prefixes: Seq<Seq<char>>, mods: Seq<(String, ModuleMetrics)>, upto: int) -> int
    decreases upto,
{
    if upto <= 0 {
        0
    } else {
        link_count(prefixes, mods, upto - 1) + producer_link_count(
            prefixes,
            mods,
            upto - 1,
            mods[upto - 1].1.writes_spec().len() as int,
        )
    }
}

/// What identifies a connection: its producer, its consumer and its topic.
pub open spec fn edge_triple(e: (usize, usize, TopicEdge)) -> (usize, usize, Seq<char>) {
    (e.0, e.1, e.2.topic@)
}

proof fn lemma_topic_links_shape(
    cfg: HealthConfig,
    mods: Seq<(String, ModuleMetrics)>,
    p: int,
    topic: String,
    w: WriteMetrics,
    upto: int,
)
    requires
        0 <= p < mods.len(),
        upto <= mods.len(),
        mods.len() <= usize::MAX,
    ensures
        ({
            let links = topic_links(cfg, mods, p, topic, w, upto);
            &&& links.len() == reader_count(mods, topic@, upto)
            &&& forall|k: int|
                0 <= k < links.len() ==> #[trigger] links[k].0 == p && links[k].1 < upto
                    && links[k].2.topic@ == topic@
            &&& forall|k1: int, k2: int|
                0 <= k1 < k2 < links.len() ==> #[trigger] links[k1].1 < #[trigger] links[k2].1
        }),
    decreases upto,
{
    if upto > 0 {
        lemma_topic_links_shape(cfg, mods, p, topic, w, upto - 1);
        let c = upto - 1;
        let prev = topic_links(cfg, mods, p, topic, w, upto - 1);
        let links = topic_links(cfg, mods, p, topic, w, upto);
        match lookup(mods[c].1.reads_spec(), topic@) {
            Some(r) => {
                assert(links == prev.push((p as usize, c as usize, link_edge(cfg, topic, w, r))));
                assert forall|k1: int, k2: int| 0 <= k1 < k2 < links.len() implies #[trigger] links[k1].1
                    < #[trigger] links[k2].1 by {
                    if k2 < prev.len() {
                        assert(links[k1] == prev[k1] && links[k2] == prev[k2]);
                    } else {
                        assert(links[k1] == prev[k1]);
                        assert(prev[k1].0 == p);
                        assert(prev[k1].1 < upto - 1);
                        assert(links[k2].1 == c as usize);
                    }
                }
                assert forall|k: int| 0 <= k < links.len() implies #[trigger] links[k].0 == p
                    && links[k].1 < upto && links[k].2.topic@ == topic@ by {
                    if k < prev.len() {
                        assert(links[k] == prev[k]);
                    }
                }
            },
            None => {},
        }
    }
}

proof fn lemma_producer_links_shape(
    cfg: HealthConfig,
    prefixes: Seq<Seq<char>>,
    mods: Seq<(String, ModuleMetrics)>,
    p: int,
    upto: int,
)
    requires
        0 <= p < mods.len(),
        0 <= upto <= mods[p].1.writes_spec().len(),
        mods.len() <= usize::MAX,
        keys_unique(mods[p].1.writes_spec()),
    ensures
        ({
            let links = producer_links(cfg, prefixes, mods, p, upto);
            let writes = mods[p].1.writes_spec();
            &&& links.len() == producer_link_count(prefixes, mods, p, upto)
            &&& forall|k: int|
                #![trigger links[k]]
                0 <= k < links.len() ==> links[k].0 == p && exists|v: int|
                    0 <= v < upto && #[trigger] writes[v].0@ == links[k].2.topic@
            &&& forall|k1: int, k2: int|
                0 <= k1 < links.len() && 0 <= k2 < links.len() && k1 != k2 ==> edge_triple(
                    #[trigger] links[k1],
                ) != edge_triple(#[trigger] links[k2])
        }),
    decreases upto,
{
    let links = producer_links(cfg, prefixes, mods, p, upto);
    let writes = mods[p].1.writes_spec();
    if upto > 0 {
        lemma_producer_links_shape(cfg, prefixes, mods, p, upto - 1);
        let prev = producer_links(cfg, prefixes, mods, p, upto - 1);
        let entry = writes[upto - 1];
        if !is_ignored(prefixes, entry.0@) {
            let tl = topic_links(cfg, mods, p, entry.0, entry.1, mods.len() as int);
            lemma_topic_links_shape(cfg, mods, p, entry.0, entry.1, mods.len() as int);
            assert(links == prev + tl);
            assert(links.len() == producer_link_count(prefixes, mods, p, upto));
            assert forall|k: int|
                #![trigger links[k]]
                0 <= k < links.len() implies links[k].0 == p && exists|v: int|
                    0 <= v < upto && #[trigger] writes[v].0@ == links[k].2.topic@ by {
                if k < prev.len() {
                    assert(links[k] == prev[k]);
                    assert(prev[k].0 == p);
                    let v = choose|v: int| 0 <= v < upto - 1 && #[trigger] writes[v].0@ == prev[k].2.topic@;
                    assert(writes[v].0@ == links[k].2.topic@);
                } else {
                    assert(links[k] == tl[k - prev.len()]);
                    assert(tl[k - prev.len()].0 == p);
                    assert(writes[upto - 1].0@ == links[k].2.topic@);
                }
            }
            assert forall|k1: int, k2: int|
                0 <= k1 < links.len() && 0 <= k2 < links.len() && k1 != k2 implies edge_triple(
                    #[trigger] links[k1],
                ) != edge_triple(#[trigger] links[k2]) by {
                if k1 < prev.len() && k2 < prev.len() {
                    assert(links[k1] == prev[k1] && links[k2] == prev[k2]);
                } else if k1 >= prev.len() && k2 >= prev.len() {
                    assert(links[k1] == tl[k1 - prev.len()] && links[k2] == tl[k2 - prev.len()]);
                    if k1 < k2 {
                        assert(tl[k1 - prev.len()].1 < tl[k2 - prev.len()].1);
                    } else {
                        assert(tl[k2 - prev.len()].1 < tl[k1 - prev.len()].1);
                    }
                } else {
                    let (a, b) = if k1 < prev.len() { (k1, k2) } else { (k2, k1) };
                    assert(links[a] == prev[a] && links[b] == tl[b - prev.len()]);
                    assert(prev[a].0 == p);
                    assert(tl[b - prev.len()].0 == p);
                    assert(tl[b - prev.len()].2.topic@ == writes[upto - 1].0@);
                    let v = choose|v: int| 0 <= v < upto - 1 && #[trigger] writes[v].0@ == prev[a].2.topic@;
                    assert(writes[v].0@ != writes[upto - 1].0@);
                }
            }
        } else {
            assert(links == prev);
            assert(links.len() == producer_link_count(prefixes, mods, p, upto));
            assert forall|k: int|
                #![trigger links[k]]
                0 <= k < links.len() implies links[k].0 == p && exists|v: int|
                    0 <= v < upto && #[trigger] writes[v].0@ == links[k].2.topic@ by {
                assert(prev[k].0 == p);
                let v = choose|v: int| 0 <= v < upto - 1 && #[trigger] writes[v].0@ == prev[k].2.topic@;
                assert(writes[v].0@ == links[k].2.topic@);
            }
            assert forall|k1: int, k2: int|
                0 <= k1 < links.len() && 0 <= k2 < links.len() && k1 != k2 implies edge_triple(
                    #[trigger] links[k1],
                ) != edge_triple(#[trigger] links[k2]) by {
                assert(links[k1] == prev[k1] && links[k2] == prev[k2]);
            }
        }
    }
    assert(links.len() == producer_link_count(prefixes, mods, p, upto));
}


proof fn lemma_all_links_shape(
    cfg: HealthConfig,
    prefixes: Seq<Seq<char>>,
    mods: Seq<(String, ModuleMetrics)>,
    upto: int,
)
    requires
        0 <= upto <= mods.len(),
        mods.len() <= usize::MAX,
        forall|i: int| 0 <= i < mods.len() ==> keys_unique(#[trigger] mods[i].1.writes_spec()),
    ensures
        ({
            let links = all_links(cfg, prefixes, mods, upto);
            &&& links.len() == link_count(prefixes, mods, upto)
            &&& forall|k: int| 0 <= k < links.len() ==> #[trigger] links[k].0 < upto
            &&& forall|k1: int, k2: int|
                0 <= k1 < links.len() && 0 <= k2 < links.len() && k1 != k2 ==> edge_triple(
                    #[trigger] links[k1],
                ) != edge_triple(#[trigger] links[k2])
        }),
    decreases upto,
{
    if upto > 0 {
        let p = upto - 1;
        lemma_all_links_shape(cfg, prefixes, mods, p);
        lemma_producer_links_shape(cfg, prefixes, mods, p, mods[p].1.writes_spec().len() as int);
        let prev = all_links(cfg, prefixes, mods, p);
        let pl = producer_links(cfg, prefixes, mods, p, mods[p].1.writes_spec().len() as int);
        let links = all_links(cfg, prefixes, mods, upto);
        assert(links == prev + pl);
        assert forall|k: int| 0 <= k < links.len() implies #[trigger] links[k].0 < upto by {
            if k < prev.len() {
                assert(links[k] == prev[k]);
            } else {
                assert(links[k] == pl[k - prev.len()]);
            }
        }
        assert forall|k1: int, k2: int|
            0 <= k1 < links.len() && 0 <= k2 < links.len() && k1 != k2 implies edge_triple(
                #[trigger] links[k1],
            ) != edge_triple(#[trigger] links[k2]) by {
            if k1 < prev.len() && k2 < prev.len() {
                assert(links[k1] == prev[k1] && links[k2] == prev[k2]);
            } else if k1 >= prev.len() && k2 >= prev.len() {
                assert(links[k1] == pl[k1 - prev.len()] && links[k2] == pl[k2 - prev.len()]);
            } else if k1 < prev.len() {
                assert(links[k1] == prev[k1] && links[k2] == pl[k2 - prev.len()]);
            } else {
                assert(links[k2] == prev[k2] && links[k1] == pl[k1 - prev.len()]);
            }
        }
    }
}

/// The graph built from a snapshot has exactly one edge per producer,
/// written topic that is not ignored and module reading that topic: no two
/// edges join the same producer to the same consumer through the same
/// topic, and the number of edges is the sum, over the producers and their
/// written topics that are not ignored, of the number of modules that read
/// the topic.
pub proof fn lemma_snapshot_links_count(
    cfg: HealthConfig,
    prefixes: Seq<Seq<char>>,
    mods: Seq<(String, ModuleMetrics)>,
)
    requires
        mods.len() <= usize::MAX,
        forall|i: int| 0 <= i < mods.len() ==> keys_unique(#[trigger] mods[i].1.writes_spec()),
    ensures
        snapshot_links(cfg, prefixes, mods).len() == link_count(prefixes, mods, mods.len() as int),
        forall|k1: int, k2: int|
            0 <= k1 < snapshot_links(cfg, prefixes, mods).len() && 0 <= k2 < snapshot_links(
                cfg,
                prefixes,
                mods,
            ).len() && k1 != k2 ==> edge_triple(#[trigger] snapshot_links(cfg, prefixes, mods)[k1])
                != edge_triple(#[trigger] snapshot_links(cfg, prefixes, mods)[k2]),
{
    lemma_all_links_shape(cfg, prefixes, mods, mods.len() as int);
}

/// The read counters of a module on topics that are not ignored, in order.
pub open spec fn kept_reads(prefixes: Seq<Seq<char>>, m: ModuleMetrics) -> Seq<(String, ReadMetrics)> {
    m.reads_spec().filter(|e: (String, ReadMetrics)| !is_ignored(prefixes, e.0@))
}

/// The write counters of a module on topics that are not ignored, in order.
pub open spec fn kept_writes(prefixes: Seq<Seq<char>>, m: ModuleMetrics) -> Seq<(String, WriteMetrics)> {
    m.writes_spec().filter(|e: (String, WriteMetrics)| !is_ignored(prefixes, e.0@))
}

proof fn lemma_health_from_kept(cfg: HealthConfig, prefixes: Seq<Seq<char>>, m: ModuleMetrics)
    ensures
        module_any_critical(cfg, prefixes, m) <==> (exists|k: int|
            0 <= k < kept_reads(prefixes, m).len() && #[trigger] read_is_critical(
                cfg,
                kept_reads(prefixes, m)[k].1,
            )) || (exists|k: int|
            0 <= k < kept_writes(prefixes, m).len() && #[trigger] write_is_critical(
                cfg,
                kept_writes(prefixes, m)[k].1,
            )),
        module_any_warning(cfg, prefixes, m) <==> (exists|k: int|
            0 <= k < kept_reads(prefixes, m).len() && #[trigger] read_is_warning(
                cfg,
                kept_reads(prefixes, m)[k].1,
            )) || (exists|k: int|
            0 <= k < kept_writes(prefixes, m).len() && #[trigger] write_is_warning(
                cfg,
                kept_writes(prefixes, m)[k].1,
            )),
{
    broadcast use vstd::seq_lib::group_filter_ensures;
    broadcast use Seq::lemma_filter_contains_rev;

    let rs = m.reads_spec();
    let ws = m.writes_spec();
    let rp = |e: (String, ReadMetrics)| !is_ignored(prefixes, e.0@);
    let wp = |e: (String, WriteMetrics)| !is_ignored(prefixes, e.0@);
    let kr = kept_reads(prefixes, m);
    let kw = kept_writes(prefixes, m);
    assert(kr == rs.filter(rp));
    assert(kw == ws.filter(wp));
    assert forall|i: int| #![trigger rs[i]] 0 <= i < rs.len() && !is_ignored(prefixes, rs[i].0@) implies exists|k: int|
        0 <= k < kr.len() && #[trigger] kr[k] == rs[i] by {
        assert(rp(rs[i]));
        assert(rs.filter(rp).contains(rs[i]));
    }
    assert forall|i: int| #![trigger ws[i]] 0 <= i < ws.len() && !is_ignored(prefixes, ws[i].0@) implies exists|k: int|
        0 <= k < kw.len() && #[trigger] kw[k] == ws[i] by {
        assert(wp(ws[i]));
        assert(ws.filter(wp).contains(ws[i]));
    }
    assert forall|k: int| #![trigger kr[k]] 0 <= k < kr.len() implies exists|i: int|
        0 <= i < rs.len() && !is_ignored(prefixes, rs[i].0@) && #[trigger] rs[i] == kr[k] by {
        assert(rp(rs.filter(rp)[k]));
        assert(rs.filter(rp).contains(kr[k]));
        assert(rs.contains(kr[k]));
    }
    assert forall|k: int| #![trigger kw[k]] 0 <= k < kw.len() implies exists|i: int|
        0 <= i < ws.len() && !is_ignored(prefixes, ws[i].0@) && #[trigger] ws[i] == kw[k] by {
        assert(wp(ws.filter(wp)[k]));
        assert(ws.filter(wp).contains(kw[k]));
        assert(ws.contains(kw[k]));
    }
    if module_any_critical(cfg, prefixes, m) {
        if exists|i: int| 0 <= i < rs.len() && !is_ignored(prefixes, rs[i].0@) && #[trigger] read_is_critical(cfg, rs[i].1) {
            let i = choose|i: int| 0 <= i < rs.len() && !is_ignored(prefixes, rs[i].0@) && #[trigger] read_is_critical(cfg, rs[i].1);
            let k = choose|k: int| 0 <= k < kr.len() && #[trigger] kr[k] == rs[i];
            assert(read_is_critical(cfg, kr[k].1));
        } else {
            let j = choose|j: int| 0 <= j < ws.len() && !is_ignored(prefixes, ws[j].0@) && #[trigger] write_is_critical(cfg, ws[j].1);
            let k = choose|k: int| 0 <= k < kw.len() && #[trigger] kw[k] == ws[j];
            assert(write_is_critical(cfg, kw[k].1));
        }
    }
    if exists|k: int| 0 <= k < kr.len() && #[trigger] read_is_critical(cfg, kr[k].1) {
        let k = choose|k: int| 0 <= k < kr.len() && #[trigger] read_is_critical(cfg, kr[k].1);
        let i = choose|i: int| 0 <= i < rs.len() && !is_ignored(prefixes, rs[i].0@) && #[trigger] rs[i] == kr[k];
        assert(read_is_critical(cfg, rs[i].1));
    }
    if exists|k: int| 0 <= k < kw.len() && #[trigger] write_is_critical(cfg, kw[k].1) {
        let k = choose|k: int| 0 <= k < kw.len() && #[trigger] write_is_critical(cfg, kw[k].1);
        let i = choose|i: int| 0 <= i < ws.len() && !is_ignored(prefixes, ws[i].0@) && #[trigger] ws[i] == kw[k];
        assert(write_is_critical(cfg, ws[i].1));
    }
    if module_any_warning(cfg, prefixes, m) {
        if exists|i: int| 0 <= i < rs.len() && !is_ignored(prefixes, rs[i].0@) && #[trigger] read_is_warning(cfg, rs[i].1) {
            let i = choose|i: int| 0 <= i < rs.len() && !is_ignored(prefixes, rs[i].0@) && #[trigger] read_is_warning(cfg, rs[i].1);
            let k = choose|k: int| 0 <= k < kr.len() && #[trigger] kr[k] == rs[i];
            assert(read_is_warning(cfg, kr[k].1));
        } else {
            let j = choose|j: int| 0 <= j < ws.len() && !is_ignored(prefixes, ws[j].0@) && #[trigger] write_is_warning(cfg, ws[j].1);
            let k = choose|k: int| 0 <= k < kw.len() && #[trigger] kw[k] == ws[j];
            assert(write_is_warning(cfg, kw[k].1));
        }
    }
    if exists|k: int| 0 <= k < kr.len() && #[trigger] read_is_warning(cfg, kr[k].1) {
        let k = choose|k: int| 0 <= k < kr.len() && #[trigger] read_is_warning(cfg, kr[k].1);
        let i = choose|i: int| 0 <= i < rs.len() && !is_ignored(prefixes, rs[i].0@) && #[trigger] rs[i] == kr[k];
        assert(read_is_warning(cfg, rs[i].1));
    }
    if exists|k: int| 0 <= k < kw.len() && #[trigger] write_is_warning(cfg, kw[k].1) {
        let k = choose|k: int| 0 <= k < kw.len() && #[trigger] write_is_warning(cfg, kw[k].1);
        let i = choose|i: int| 0 <= i < ws.len() && !is_ignored(prefixes, ws[i].0@) && #[trigger] ws[i] == kw[k];
        assert(write_is_warning(cfg, ws[i].1));
    }
}

/// Ignored topics never affect a module's health: two modules whose
/// counters agree on every topic that is not ignored have the same health,
/// whatever their counters on ignored topics.
pub proof fn lemma_health_ignores_ignored_topics(
    cfg: HealthConfig,
    prefixes: Seq<Seq<char>>,
    m1: ModuleMetrics,
    m2: ModuleMetrics,
)
    requires
        kept_reads(prefixes, m1) == kept_reads(prefixes, m2),
        kept_writes(prefixes, m1) == kept_writes(prefixes, m2),
    ensures
        module_health(cfg, prefixes, m1) == module_health(cfg, prefixes, m2),
{
    lemma_health_from_kept(cfg, prefixes, m1);
    lemma_health_from_kept(cfg, prefixes, m2);
}

/// A node lists exactly the topics of its module that are not ignored: no
/// listed topic is ignored, and every read or written topic that is not
/// ignored is listed.
pub proof fn lemma_node_topics_not_ignored(
    node: ModuleNode,
    cfg: HealthConfig,
    prefixes: Seq<Seq<char>>,
    name: String,
    m: ModuleMetrics,
)
    requires
        is_module_node(node, cfg, prefixes, name, m),
    ensures
        forall|k: int| 0 <= k < node.read_topics@.len() ==> !is_ignored(prefixes, #[trigger] node.read_topics@[k]@),
        forall|k: int| 0 <= k < node.write_topics@.len() ==> !is_ignored(prefixes, #[trigger] node.write_topics@[k]@),
        forall|i: int|
            0 <= i < m.reads_spec().len() && !is_ignored(prefixes, #[trigger] m.reads_spec()[i].0@)
                ==> texts(node.read_topics@).contains(m.reads_spec()[i].0@),
        forall|i: int|
            0 <= i < m.writes_spec().len() && !is_ignored(prefixes, #[trigger] m.writes_spec()[i].0@)
                ==> texts(node.write_topics@).contains(m.writes_spec()[i].0@),
{
    broadcast use vstd::seq_lib::group_filter_ensures;

    let pred = |t: Seq<char>| !is_ignored(prefixes, t);
    let rk = key_texts(m.reads_spec());
    let wk = key_texts(m.writes_spec());
    assert(texts(node.read_topics@) == rk.filter(pred));
    assert(texts(node.write_topics@) == wk.filter(pred));
    assert forall|k: int| 0 <= k < node.read_topics@.len() implies !is_ignored(
        prefixes,
        #[trigger] node.read_topics@[k]@,
    ) by {
        assert(texts(node.read_topics@)[k] == node.read_topics@[k]@);
        assert(pred(rk.filter(pred)[k]));
    }
    assert forall|k: int| 0 <= k < node.write_topics@.len() implies !is_ignored(
        prefixes,
        #[trigger] node.write_topics@[k]@,
    ) by {
        assert(texts(node.write_topics@)[k] == node.write_topics@[k]@);
        assert(pred(wk.filter(pred)[k]));
    }
    assert forall|i: int|
        0 <= i < m.reads_spec().len() && !is_ignored(prefixes, #[trigger] m.reads_spec()[i].0@) implies texts(
            node.read_topics@,
        ).contains(m.reads_spec()[i].0@) by {
        assert(rk[i] == m.reads_spec()[i].0@);
        assert(pred(rk[i]));
        assert(rk.filter(pred).contains(rk[i]));
    }
    assert forall|i: int|
        0 <= i < m.writes_spec().len() && !is_ignored(prefixes, #[trigger] m.writes_spec()[i].0@) implies texts(
            node.write_topics@,
        ).contains(m.writes_spec()[i].0@) by {
        assert(wk[i] == m.writes_spec()[i].0@);
        assert(pred(wk[i]));
        assert(wk.filter(pred).contains(wk[i]));
    }
}

/// No edge built from a snapshot carries an ignored topic.
pub proof fn lemma_edge_topics_not_ignored(
    cfg: HealthConfig,
    prefixes: Seq<Seq<char>>,
    mods: Seq<(String, ModuleMetrics)>,
)
    requires
        mods.len() <= usize::MAX,
    ensures
        forall|k: int|
            0 <= k < snapshot_links(cfg, prefixes, mods).len() ==> !is_ignored(
                prefixes,
                (#[trigger] snapshot_links(cfg, prefixes, mods)[k]).2.topic@,
            ),
{
    lemma_snapshot_links_exact(cfg, prefixes, mods);
    let links = snapshot_links(cfg, prefixes, mods);
    assert forall|k: int| 0 <= k < links.len() implies !is_ignored(prefixes, (#[trigger] links[k]).2.topic@) by {
        assert(is_link(cfg, prefixes, mods, links[k]));
        let w = choose|w: int|
            0 <= w < mods[links[k].0 as int].1.writes_spec().len() && #[trigger] link_through(
                cfg,
                prefixes,
                mods,
                links[k],
                w,
            );
        assert(link_through(cfg, prefixes, mods, links[k], w));
    }
}

proof fn lemma_reader_count_mono(mods: Seq<(String, ModuleMetrics)>, topic: Seq<char>, a: int, b: int)
    requires
        0 <= a <= b,
    ensures
        0 <= reader_count(mods, topic, a) <= reader_count(mods, topic, b),
    decreases b - a,
{
    if a < b {
        lemma_reader_count_mono(mods, topic, a, b - 1);
    } else {
        lemma_reader_count_nonneg(mods, topic, a);
    }
}

proof fn lemma_reader_count_nonneg(mods: Seq<(String, ModuleMetrics)>, topic: Seq<char>, a: int)
    ensures
        0 <= reader_count(mods, topic, a),
    decreases a,
{
    if a > 0 {
        lemma_reader_count_nonneg(mods, topic, a - 1);
    }
}

proof fn lemma_producer_link_count_mono(
    prefixes: Seq<Seq<char>>,
    mods: Seq<(String, ModuleMetrics)>,
    p: int,
    a: int,
    b: int,
)
    requires
        0 <= a <= b,
    ensures
        0 <= producer_link_count(prefixes, mods, p, a) <= producer_link_count(prefixes, mods, p, b),
    decreases b,
{
    if b > 0 {
        lemma_reader_count_nonneg(mods, mods[p].1.writes_spec()[b - 1].0@, mods.len() as int);
        if a < b {
            lemma_producer_link_count_mono(prefixes, mods, p, a, b - 1);
        } else {
            lemma_producer_link_count_mono(prefixes, mods, p, a - 1, b - 1);
        }
    }
}

proof fn lemma_link_count_mono(prefixes: Seq<Seq<char>>, mods: Seq<(String, ModuleMetrics)>, a: int, b: int)
    requires
        0 <= a <= b,
    ensures
        0 <= link_count(prefixes, mods, a) <= link_count(prefixes, mods, b),
    decreases b,
{
    if b > 0 {
        lemma_producer_link_count_mono(prefixes, mods, b - 1, 0, mods[b - 1].1.writes_spec().len() as int);
        if a < b {
            lemma_link_count_mono(prefixes, mods, a, b - 1);
        } else {
            lemma_link_count_mono(prefixes, mods, a - 1, b - 1);
        }
    }
}

impl MessageFlowGraph {
    /// Whether the graph can be rebuilt from `snapshot`: every module's
    /// read and write totals fit in 64 bits, and its modules and their
    /// connections fit the graph's indices.
    pub fn fits(&self, snapshot: &Snapshot) -> (r: bool)
        ensures
            r == (counts_fit(*snapshot) && snapshot.modules_spec().len() < index_limit() && snapshot_links(
                self.health_config,
                self.prefixes(),
                snapshot.modules_spec(),
            ).len() < index_limit()),
    {
        let ghost cfg = self.health_config;
        let ghost prefixes = self.prefixes();
        let mods = snapshot.modules();
        let n = mods.len();
        proof {
            assert forall|i: int| 0 <= i < mods@.len() implies keys_unique(#[trigger] mods@[i].1.writes_spec()) by {
                assert(metrics_valid(mods@[i].1));
            }
            lemma_snapshot_links_count(cfg, prefixes, mods@);
            lemma_link_count_mono(prefixes, mods@, 0, n as int);
        }
        let mut i: usize = 0;
        while i < n
            invariant
                i <= n,
                n == mods@.len(),
                mods@ == snapshot.modules_spec(),
                forall|j: int|
                    0 <= j < i ==> {
                        &&& sum_read_counts(#[trigger] mods@[j].1.reads_spec()) <= u64::MAX
                        &&& sum_write_counts(mods@[j].1.writes_spec()) <= u64::MAX
                    },
            decreases n - i,
        {
            let m = &mods[i].1;
            if m.checked_total_reads().is_none() || m.checked_total_writes().is_none() {
                assert(!counts_fit(*snapshot)) by {
                    assert(!(sum_read_counts(snapshot.modules_spec()[i as int].1.reads_spec()) <= u64::MAX
                        && sum_write_counts(snapshot.modules_spec()[i as int].1.writes_spec()) <= u64::MAX));
                }
                return false;
            }
            i = i + 1;
        }
        if n >= 4294967295 {
            return false;
        }
        let limit: u64 = 4294967295;
        let mut total: u64 = 0;
        let mut p: usize = 0;
        while p < n
            invariant
                p <= n,
                n == mods@.len(),
                n < index_limit(),
                prefixes == self.prefixes(),
                cfg == self.health_config,
                limit == 4294967295,
                mods@ == snapshot.modules_spec(),
                total == link_count(prefixes, mods@, p as int),
                total < limit,
                link_count(prefixes, mods@, n as int) == snapshot_links(cfg, prefixes, mods@).len(),
            decreases n - p,
        {
            let writes = mods[p].1.writes();
            let mut w: usize = 0;
            while w < writes.len()
                invariant
                    p < n,
                    n == mods@.len(),
                    w <= writes@.len(),
                    writes@ == mods@[p as int].1.writes_spec(),
                    prefixes == self.prefixes(),
                    cfg == self.health_config,
                    limit == 4294967295,
                    mods@ == snapshot.modules_spec(),
                    total == link_count(prefixes, mods@, p as int) + producer_link_count(prefixes, mods@, p as int, w as int),
                    total < limit,
                    link_count(prefixes, mods@, n as int) == snapshot_links(cfg, prefixes, mods@).len(),
                decreases writes@.len() - w,
            {
                let topic = &writes[w].0;
                if !self.should_ignore_topic(topic.as_str()) {
                    let mut c: usize = 0;
                    while c < n
                        invariant
                            p < n,
                            c <= n,
                            n == mods@.len(),
                            w < writes@.len(),
                            writes@ == mods@[p as int].1.writes_spec(),
                            *topic == writes@[w as int].0,
                            !is_ignored(prefixes, topic@),
                            prefixes == self.prefixes(),
                            cfg == self.health_config,
                            limit == 4294967295,
                            mods@ == snapshot.modules_spec(),
                            total == link_count(prefixes, mods@, p as int) + producer_link_count(
                                prefixes,
                                mods@,
                                p as int,
                                w as int,
                            ) + reader_count(mods@, topic@, c as int),
                            total < limit,
                            link_count(prefixes, mods@, n as int) == snapshot_links(cfg, prefixes, mods@).len(),
                        decreases n - c,
                    {
                        if find_read(mods[c].1.reads(), topic).is_some() {
                            total = total + 1;
                            if total >= limit {
                                proof {
                                    lemma_reader_count_mono(mods@, topic@, c + 1, n as int);
                                    assert(producer_link_count(prefixes, mods@, p as int, w + 1)
                                        == producer_link_count(prefixes, mods@, p as int, w as int) + reader_count(
                                        mods@,
                                        topic@,
                                        n as int,
                                    ));
                                    lemma_producer_link_count_mono(
                                        prefixes,
                                        mods@,
                                        p as int,
                                        w + 1,
                                        mods@[p as int].1.writes_spec().len() as int,
                                    );
                                    lemma_link_count_mono(prefixes, mods@, p + 1, n as int);
                                    assert(reader_count(mods@, topic@, c + 1) == reader_count(mods@, topic@, c as int) + 1);
                                    assert(link_count(prefixes, mods@, p + 1) == link_count(prefixes, mods@, p as int)
                                        + producer_link_count(
                                        prefixes,
                                        mods@,
                                        p as int,
                                        mods@[p as int].1.writes_spec().len() as int,
                                    ));
                                    assert(total <= link_count(prefixes, mods@, n as int));
                                }
                                return false;
                            }
                        }
                        c = c + 1;
                    }
                    assert(producer_link_count(prefixes, mods@, p as int, w + 1) == producer_link_count(
                        prefixes,
                        mods@,
                        p as int,
                        w as int,
                    ) + reader_count(mods@, topic@, n as int));
                } else {
                    assert(producer_link_count(prefixes, mods@, p as int, w + 1) == producer_link_count(
                        prefixes,
                        mods@,
                        p as int,
                        w as int,
                    ));
                }
                w = w + 1;
            }
            assert(link_count(prefixes, mods@, p + 1) == link_count(prefixes, mods@, p as int) + producer_link_count(
                prefixes,
                mods@,
                p as int,
                mods@[p as int].1.writes_spec().len() as int,
            ));
            p = p + 1;
        }
        assert(counts_fit(*snapshot));
        true
    }
}

/// Every edge built from a snapshot joins a module that writes its topic,
/// which is not ignored, to one that reads it; its message count is the
/// larger of the write and the read count, it carries the reader's backlog
/// and waiting time, and it is rated from them, backlog first: a backlog at
/// the critical or the warning threshold makes the edge Critical or
/// Warning; otherwise a waiting time at the critical or the warning
/// threshold does; otherwise it is Healthy.
pub proof fn lemma_edge_health_from_reader(
    cfg: HealthConfig,
    prefixes: Seq<Seq<char>>,
    mods: Seq<(String, ModuleMetrics)>,
)
    requires
        mods.len() <= usize::MAX,
        forall|i: int| 0 <= i < mods.len() ==> keys_unique(#[trigger] mods[i].1.writes_spec()),
    ensures
        forall|k: int|
            0 <= k < snapshot_links(cfg, prefixes, mods).len() ==> {
                let e = #[trigger] snapshot_links(cfg, prefixes, mods)[k];
                let r = lookup(mods[e.1 as int].1.reads_spec(), e.2.topic@);
                let wm = lookup(mods[e.0 as int].1.writes_spec(), e.2.topic@);
                &&& !is_ignored(prefixes, e.2.topic@)
                &&& wm is Some
                &&& r is Some
                &&& e.2.message_count == if wm->Some_0.count >= r->Some_0.count {
                    wm->Some_0.count
                } else {
                    r->Some_0.count
                }
                &&& e.2.backlog == r->Some_0.backlog
                &&& e.2.pending_us == r->Some_0.pending_us
                &&& e.2.health == if r->Some_0.backlog is Some && r->Some_0.backlog->Some_0 >= cfg.backlog_critical {
                    HealthStatus::Critical
                } else if r->Some_0.backlog is Some && r->Some_0.backlog->Some_0 >= cfg.backlog_warning {
                    HealthStatus::Warning
                } else if r->Some_0.pending_us is Some && r->Some_0.pending_us->Some_0 >= cfg.pending_critical_us {
                    HealthStatus::Critical
                } else if r->Some_0.pending_us is Some && r->Some_0.pending_us->Some_0 >= cfg.pending_warning_us {
                    HealthStatus::Warning
                } else {
                    HealthStatus::Healthy
                }
            },
{
    lemma_snapshot_links_exact(cfg, prefixes, mods);
    let links = snapshot_links(cfg, prefixes, mods);
    assert forall|k: int| 0 <= k < links.len() implies {
        let e = #[trigger] links[k];
        let r = lookup(mods[e.1 as int].1.reads_spec(), e.2.topic@);
        let wm = lookup(mods[e.0 as int].1.writes_spec(), e.2.topic@);
        &&& !is_ignored(prefixes, e.2.topic@)
        &&& wm is Some
        &&& r is Some
        &&& e.2.message_count == if wm->Some_0.count >= r->Some_0.count {
            wm->Some_0.count
        } else {
            r->Some_0.count
        }
        &&& e.2.backlog == r->Some_0.backlog
        &&& e.2.pending_us == r->Some_0.pending_us
        &&& e.2.health == if r->Some_0.backlog is Some && r->Some_0.backlog->Some_0 >= cfg.backlog_critical {
            HealthStatus::Critical
        } else if r->Some_0.backlog is Some && r->Some_0.backlog->Some_0 >= cfg.backlog_warning {
            HealthStatus::Warning
        } else if r->Some_0.pending_us is Some && r->Some_0.pending_us->Some_0 >= cfg.pending_critical_us {
            HealthStatus::Critical
        } else if r->Some_0.pending_us is Some && r->Some_0.pending_us->Some_0 >= cfg.pending_warning_us {
            HealthStatus::Warning
        } else {
            HealthStatus::Healthy
        }
    } by {
        assert(is_link(cfg, prefixes, mods, links[k]));
        let w = choose|w: int|
            0 <= w < mods[links[k].0 as int].1.writes_spec().len() && #[trigger] link_through(
                cfg,
                prefixes,
                mods,
                links[k],
                w,
            );
        assert(link_through(cfg, prefixes, mods, links[k], w));
        let ws = mods[links[k].0 as int].1.writes_spec();
        assert(keys_unique(ws));
        assert(has_key(ws, ws[w].0@));
        let x = key_index(ws, ws[w].0@);
        assert(ws[x].0@ == ws[w].0@);
        assert(x == w);
    }
}

/// A module's health follows its counters on the topics that are not
/// ignored: it is Critical exactly when some such read has a backlog or a
/// waiting time at the critical threshold, or some such write has a waiting
/// time at the critical threshold; otherwise it is Warning exactly when
/// some such read or write reaches the corresponding warning threshold;
/// otherwise it is Healthy.
pub proof fn lemma_module_health_thresholds(cfg: HealthConfig, prefixes: Seq<Seq<char>>, m: ModuleMetrics)
    ensures
        ({
            let rs = m.reads_spec();
            let ws = m.writes_spec();
            let crit = (exists|i: int|
                #![trigger rs[i]]
                0 <= i < rs.len() && !is_ignored(prefixes, rs[i].0@) && ((rs[i].1.backlog is Some
                    && rs[i].1.backlog->Some_0 >= cfg.backlog_critical) || (rs[i].1.pending_us is Some
                    && rs[i].1.pending_us->Some_0 >= cfg.pending_critical_us))) || (exists|j: int|
                #![trigger ws[j]]
                0 <= j < ws.len() && !is_ignored(prefixes, ws[j].0@) && ws[j].1.pending_us is Some
                    && ws[j].1.pending_us->Some_0 >= cfg.pending_critical_us);
            let warn = (exists|i: int|
                #![trigger rs[i]]
                0 <= i < rs.len() && !is_ignored(prefixes, rs[i].0@) && ((rs[i].1.backlog is Some
                    && rs[i].1.backlog->Some_0 >= cfg.backlog_warning) || (rs[i].1.pending_us is Some
                    && rs[i].1.pending_us->Some_0 >= cfg.pending_warning_us))) || (exists|j: int|
                #![trigger ws[j]]
                0 <= j < ws.len() && !is_ignored(prefixes, ws[j].0@) && ws[j].1.pending_us is Some
                    && ws[j].1.pending_us->Some_0 >= cfg.pending_warning_us);
            &&& (module_health(cfg, prefixes, m) == HealthStatus::Critical <==> crit)
            &&& (module_health(cfg, prefixes, m) == HealthStatus::Warning <==> !crit && warn)
            &&& (module_health(cfg, prefixes, m) == HealthStatus::Healthy <==> !crit && !warn)
        }),
{
    let rs = m.reads_spec();
    let ws = m.writes_spec();
    assert forall|i: int| 0 <= i < rs.len() implies (read_is_critical(cfg, #[trigger] rs[i].1) <==> ((rs[i].1.backlog is Some
        && rs[i].1.backlog->Some_0 >= cfg.backlog_critical) || (rs[i].1.pending_us is Some
        && rs[i].1.pending_us->Some_0 >= cfg.pending_critical_us))) && (read_is_warning(cfg, rs[i].1) <==> ((
    rs[i].1.backlog is Some && rs[i].1.backlog->Some_0 >= cfg.backlog_warning) || (rs[i].1.pending_us is Some
        && rs[i].1.pending_us->Some_0 >= cfg.pending_warning_us))) by {}
    assert forall|j: int| 0 <= j < ws.len() implies (write_is_critical(cfg, #[trigger] ws[j].1) <==> (ws[j].1.pending_us is Some
        && ws[j].1.pending_us->Some_0 >= cfg.pending_critical_us)) && (write_is_warning(cfg, ws[j].1) <==> (
    ws[j].1.pending_us is Some && ws[j].1.pending_us->Some_0 >= cfg.pending_warning_us)) by {}
}

/// The module is rated critical.
pub open spec fn is_critical_node(n: ModuleNode) -> bool {
    n.health == HealthStatus::Critical
}

impl MessageFlowGraph {
    /// Check if any module has critical health.
    pub fn has_critical_modules(&self) -> (r: bool)
        ensures
            r == exists|i: int| 0 <= i < self.nodes().len() && #[trigger] is_critical_node(self.nodes()[i]),
    {
        let n = graph_node_count(&self.graph);
        let mut i: usize = 0;
        while i < n
            invariant
                n == self.nodes().len(),
                i <= n,
                forall|j: int| 0 <= j < i ==> !#[trigger] is_critical_node(self.nodes()[j]),
            decreases n - i,
        {
            if graph_node(&self.graph, i).health == HealthStatus::Critical {
                assert(is_critical_node(self.nodes()[i as int]));
                return true;
            }
            i = i + 1;
        }
        false
    }

    /// Get the modules with critical health, in node order.
    pub fn critical_modules(&self) -> (r: Vec<&ModuleNode>)
        ensures
            r@.map_values(|x: &ModuleNode| *x) == self.nodes().filter(|n: ModuleNode| is_critical_node(n)),
    {
        let ghost pred = |n: ModuleNode| is_critical_node(n);
        let ghost deref = |x: &ModuleNode| *x;
        let n = graph_node_count(&self.graph);
        let mut r: Vec<&ModuleNode> = Vec::new();
        let mut i: usize = 0;
        while i < n
            invariant
                n == self.nodes().len(),
                i <= n,
                pred == (|n: ModuleNode| is_critical_node(n)),
                deref == (|x: &ModuleNode| *x),
                r@.map_values(deref) == self.nodes().take(i as int).filter(pred),
            decreases n - i,
        {
            proof {
                assert(self.nodes().take(i + 1).drop_last() =~= self.nodes().take(i as int));
                reveal_with_fuel(Seq::filter, 1);
            }
            let node = graph_node(&self.graph, i);
            if node.health == HealthStatus::Critical {
                let ghost before = r@.map_values(deref);
                r.push(node);
                assert(r@.map_values(deref) =~= before.push(*node));
            }
            assert(r@.map_values(deref) =~= self.nodes().take(i + 1).filter(pred));
            i = i + 1;
        }
        assert(self.nodes().take(i as int) =~= self.nodes());
        r
    }
}

impl Default for MessageFlowGraph {
    fn default() -> (r: Self)
        ensures
            r.wf(),
            r.nodes().len() == 0,
            r.edges().len() == 0,
            r.health_config == (HealthConfig {
                backlog_warning: 100,
                backlog_critical: 1000,
                pending_warning_us: 500_000,
                pending_critical_us: 2_000_000,
            }),
            r.last_update_ms == 0,
            r.prefixes() == seq!["cardano.query."@],
    {
        Self::new()
    }
}


} // verus!
