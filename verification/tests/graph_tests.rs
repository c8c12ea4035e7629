use neuronic::graph::MessageFlowGraph;
use neuronic::health::{compute_edge_health, HealthConfig, HealthStatus};
use neuronic::snapshot::{ModuleMetrics, ReadMetrics, Snapshot, WriteMetrics};

fn read(count: u64) -> ReadMetrics {
    ReadMetrics { count, backlog: None, pending_us: None }
}

fn read_backlog(count: u64, backlog: u64) -> ReadMetrics {
    ReadMetrics { count, backlog: Some(backlog), pending_us: None }
}

fn write(count: u64) -> WriteMetrics {
    WriteMetrics { count, pending_us: None }
}

fn module(reads: Vec<(&str, ReadMetrics)>, writes: Vec<(&str, WriteMetrics)>) -> ModuleMetrics {
    let mut m = ModuleMetrics::new();
    for (t, r) in reads {
        m.insert_read(t.to_string(), r);
    }
    for (t, w) in writes {
        m.insert_write(t.to_string(), w);
    }
    m
}

fn snapshot_of(timestamp_ms: u64, modules: Vec<(&str, ModuleMetrics)>) -> Snapshot {
    let mut s = Snapshot::with_timestamp(timestamp_ms);
    for (name, m) in modules {
        s.insert_module(name.to_string(), m);
    }
    s
}

#[test]
fn test_empty_graph() {
    let graph = MessageFlowGraph::new();
    assert_eq!(graph.module_count(), 0);
    assert_eq!(graph.edge_count(), 0);
}

#[test]
fn test_update_from_snapshot() {
    let mut graph = MessageFlowGraph::new();

    let snapshot = snapshot_of(
        1000,
        vec![
            ("producer", module(vec![], vec![("events", write(100))])),
            ("consumer", module(vec![("events", read_backlog(95, 5))], vec![])),
        ],
    );

    graph.update_from_snapshot(&snapshot);

    assert_eq!(graph.module_count(), 2);
    assert_eq!(graph.edge_count(), 1); // producer -> consumer via "events"
}

#[test]
fn test_modules_removed_when_missing_from_new_snapshot() {
    let mut graph = MessageFlowGraph::new();

    let initial = snapshot_of(
        1000,
        vec![
            ("producer", module(vec![], vec![("events", write(100))])),
            ("consumer", module(vec![("events", read_backlog(95, 5))], vec![])),
        ],
    );
    graph.update_from_snapshot(&initial);

    let updated = snapshot_of(2000, vec![("consumer", module(vec![("events", read_backlog(96, 4))], vec![]))]);
    graph.update_from_snapshot(&updated);

    assert_eq!(graph.module_count(), 1);
    assert!(graph.module_index("consumer").is_some());
    assert!(graph.module_index("producer").is_none());
}

#[test]
fn test_health_detection() {
    let mut graph = MessageFlowGraph::with_config(HealthConfig {
        backlog_warning: 10,
        backlog_critical: 50,
        pending_warning_us: 100_000,
        pending_critical_us: 500_000,
    });

    let snapshot = snapshot_of(
        0,
        vec![
            ("healthy", module(vec![("topic", read_backlog(100, 5))], vec![])),
            ("warning", module(vec![("topic", read_backlog(100, 20))], vec![])),
            ("critical", module(vec![("topic", read_backlog(100, 100))], vec![])),
        ],
    );

    graph.update_from_snapshot(&snapshot);

    let healthy = graph.module("healthy").unwrap();
    let warning = graph.module("warning").unwrap();
    let critical = graph.module("critical").unwrap();

    assert_eq!(healthy.health, HealthStatus::Healthy);
    assert_eq!(warning.health, HealthStatus::Warning);
    assert_eq!(critical.health, HealthStatus::Critical);

    assert!(graph.has_critical_modules());
    assert_eq!(graph.critical_modules().len(), 1);
}

#[test]
fn test_no_cycles_in_linear_graph() {
    let mut graph = MessageFlowGraph::new();
    let snapshot = snapshot_of(
        0,
        vec![
            ("a", module(vec![], vec![("topic1", write(10))])),
            ("b", module(vec![("topic1", read(10))], vec![("topic2", write(5))])),
            ("c", module(vec![("topic2", read(5))], vec![])),
        ],
    );
    graph.update_from_snapshot(&snapshot);

    assert!(graph.detect_cycles().is_empty());
}

#[test]
fn test_detect_simple_cycle() {
    let mut graph = MessageFlowGraph::new();
    // Create cycle: a -> b -> a
    let snapshot = snapshot_of(
        0,
        vec![
            ("a", module(vec![("topic2", read(5))], vec![("topic1", write(10))])),
            ("b", module(vec![("topic1", read(10))], vec![("topic2", write(5))])),
        ],
    );
    graph.update_from_snapshot(&snapshot);

    let cycles = graph.detect_cycles();
    assert_eq!(cycles.len(), 1);
    assert_eq!(cycles[0].len(), 2);
    assert!(cycles[0].contains(&"a".to_string()));
    assert!(cycles[0].contains(&"b".to_string()));
}

#[test]
fn test_detect_three_node_cycle() {
    let mut graph = MessageFlowGraph::new();
    // Create cycle: a -> b -> c -> a
    let snapshot = snapshot_of(
        0,
        vec![
            ("a", module(vec![("t3", read(5))], vec![("t1", write(10))])),
            ("b", module(vec![("t1", read(10))], vec![("t2", write(5))])),
            ("c", module(vec![("t2", read(5))], vec![("t3", write(5))])),
        ],
    );
    graph.update_from_snapshot(&snapshot);

    let cycles = graph.detect_cycles();
    assert_eq!(cycles.len(), 1);
    assert_eq!(cycles[0].len(), 3);
}

#[test]
fn test_is_in_cycle() {
    let mut graph = MessageFlowGraph::new();
    let snapshot = snapshot_of(
        0,
        vec![
            ("a", module(vec![("t2", read(5))], vec![("t1", write(10))])),
            ("b", module(vec![("t1", read(10))], vec![("t2", write(5))])),
            ("c", module(vec![("t1", read(10))], vec![])),
        ],
    );
    graph.update_from_snapshot(&snapshot);

    assert!(graph.is_in_cycle("a"));
    assert!(graph.is_in_cycle("b"));
    assert!(!graph.is_in_cycle("c"));
}

#[test]
fn test_cycle_edges() {
    let mut graph = MessageFlowGraph::new();
    let snapshot = snapshot_of(
        0,
        vec![
            ("a", module(vec![("t2", read(5))], vec![("t1", write(10))])),
            ("b", module(vec![("t1", read(10))], vec![("t2", write(5))])),
        ],
    );
    graph.update_from_snapshot(&snapshot);

    let edges = graph.cycle_edges();
    assert_eq!(edges.len(), 2); // a->b via t1 and b->a via t2
}

#[test]
fn edges_connect_every_producer_to_every_consumer() {
    let mut graph = MessageFlowGraph::with_config(HealthConfig::default());
    let snapshot = snapshot_of(
        42,
        vec![
            ("p1", module(vec![], vec![("events", write(10))])),
            ("p2", module(vec![], vec![("events", write(30))])),
            ("c1", module(vec![("events", read(20))], vec![])),
            ("c2", module(vec![("events", read(5)), ("other", read(1))], vec![])),
        ],
    );
    graph.update_from_snapshot(&snapshot);
    assert_eq!(graph.last_update_ms, 42);
    assert_eq!(graph.module_count(), 4);
    assert_eq!(graph.edge_count(), 4);
    // Modules are kept in name order (c1, c2, p1, p2); edges are listed
    // producer by producer, then consumer by consumer.
    let (s, t, e) = graph.edge(0);
    assert_eq!((s, t), (2, 0));
    assert_eq!(e.topic, "events");
    assert_eq!(e.message_count, 20); // the larger of write 10 and read 20
    let (s, t, e) = graph.edge(3);
    assert_eq!((s, t), (3, 1));
    assert_eq!(e.message_count, 30);
}

#[test]
fn ignored_topics_create_no_edges_and_no_health_effect() {
    let mut graph = MessageFlowGraph::new(); // ignores "cardano.query."
    let snapshot = snapshot_of(
        0,
        vec![
            ("p", module(vec![], vec![("cardano.query.accounts", write(10))])),
            ("c", module(vec![("cardano.query.accounts", read_backlog(10, 5000))], vec![])),
        ],
    );
    graph.update_from_snapshot(&snapshot);
    assert_eq!(graph.edge_count(), 0);
    let c = graph.module("c").unwrap();
    assert_eq!(c.health, HealthStatus::Healthy);
    assert!(c.read_topics.is_empty());
    assert_eq!(c.total_reads, 10);
}

#[test]
fn module_totals_and_topics() {
    let mut graph = MessageFlowGraph::with_config(HealthConfig::default());
    let snapshot = snapshot_of(
        0,
        vec![("m", module(vec![("a", read(3)), ("b", read(4))], vec![("c", write(5))]))],
    );
    graph.update_from_snapshot(&snapshot);
    let m = graph.module("m").unwrap();
    assert_eq!(m.total_reads, 7);
    assert_eq!(m.total_writes, 5);
    assert_eq!(m.throughput(), 12);
    assert_eq!(m.read_topics, vec!["a".to_string(), "b".to_string()]);
    assert_eq!(m.write_topics, vec!["c".to_string()]);
}

#[test]
fn module_health_takes_worst_topic_and_pending_times() {
    let cfg = HealthConfig {
        backlog_warning: 10,
        backlog_critical: 50,
        pending_warning_us: 100_000,
        pending_critical_us: 500_000,
    };
    let mut graph = MessageFlowGraph::with_config(cfg);
    let slow_write = WriteMetrics { count: 1, pending_us: Some(600_000) };
    let slow_read = ReadMetrics { count: 1, backlog: Some(1), pending_us: Some(200_000) };
    let snapshot = snapshot_of(
        0,
        vec![
            ("writer_critical", module(vec![("x", read_backlog(1, 20))], vec![("y", slow_write)])),
            ("reader_warning", module(vec![("x", slow_read)], vec![])),
        ],
    );
    graph.update_from_snapshot(&snapshot);
    assert_eq!(graph.module("writer_critical").unwrap().health, HealthStatus::Critical);
    assert_eq!(graph.module("reader_warning").unwrap().health, HealthStatus::Warning);
    assert_eq!(graph.critical_modules().len(), 1);
}

#[test]
fn edge_health_checks_backlog_before_pending() {
    let cfg = HealthConfig {
        backlog_warning: 10,
        backlog_critical: 50,
        pending_warning_us: 100_000,
        pending_critical_us: 500_000,
    };
    assert_eq!(compute_edge_health(&cfg, None, None), HealthStatus::Healthy);
    assert_eq!(compute_edge_health(&cfg, Some(60), None), HealthStatus::Critical);
    assert_eq!(compute_edge_health(&cfg, Some(20), Some(900_000)), HealthStatus::Warning);
    assert_eq!(compute_edge_health(&cfg, Some(1), Some(900_000)), HealthStatus::Critical);
    assert_eq!(compute_edge_health(&cfg, None, Some(200_000)), HealthStatus::Warning);
}

#[test]
fn cycle_members_are_exactly_the_cyclic_modules() {
    let mut graph = MessageFlowGraph::new();
    // a <-> b form a cycle, c -> d -> c another; e only listens; f loops to itself.
    let snapshot = snapshot_of(
        0,
        vec![
            ("a", module(vec![("ba", read(1))], vec![("ab", write(1))])),
            ("b", module(vec![("ab", read(1))], vec![("ba", write(1))])),
            ("c", module(vec![("dc", read(1))], vec![("cd", write(1))])),
            ("d", module(vec![("cd", read(1))], vec![("dc", write(1))])),
            ("e", module(vec![("ab", read(1))], vec![])),
            ("f", module(vec![("ff", read(1))], vec![("ff", write(1))])),
        ],
    );
    graph.update_from_snapshot(&snapshot);
    let mut cycles = graph.detect_cycles();
    for c in cycles.iter_mut() {
        c.sort();
    }
    cycles.sort();
    assert_eq!(cycles, vec![vec!["a".to_string(), "b".to_string()], vec!["c".to_string(), "d".to_string()]]);
    for name in ["a", "b", "c", "d"] {
        assert!(graph.is_in_cycle(name));
    }
    assert!(!graph.is_in_cycle("e"));
    assert!(!graph.is_in_cycle("f"));
    assert!(!graph.is_in_cycle("missing"));
    let mut edges = graph.cycle_edges();
    edges.sort();
    assert_eq!(edges.len(), 4);
    assert!(edges.contains(&("a".to_string(), "b".to_string(), "ab".to_string())));
    assert!(edges.contains(&("d".to_string(), "c".to_string(), "dc".to_string())));
}

#[test]
fn edge_count_is_producers_times_readers_per_topic() {
    // Topic "a": 2 producers x 3 readers; topic "b": 1 producer x 1 reader
    // (the producer itself); "q.x" is ignored.
    let mut graph = MessageFlowGraph::new_with_config(HealthConfig::default(), vec!["q.".to_string()]);
    let snapshot = snapshot_of(
        1,
        vec![
            ("p1", module(vec![], vec![("a", write(1)), ("q.x", write(1))])),
            ("p2", module(vec![("b", read(1))], vec![("a", write(1)), ("b", write(1))])),
            ("c1", module(vec![("a", read(1)), ("q.x", read(1))], vec![])),
            ("c2", module(vec![("a", read(1))], vec![])),
            ("c3", module(vec![("a", read(1))], vec![])),
        ],
    );
    graph.update_from_snapshot(&snapshot);
    assert_eq!(graph.edge_count(), 2 * 3 + 1);
    let mut keys = Vec::new();
    for e in 0..graph.edge_count() {
        let (s, t, edge) = graph.edge(e);
        assert!(!edge.topic.starts_with("q."));
        keys.push((s, t, edge.topic.clone()));
    }
    let mut unique = keys.clone();
    unique.sort();
    unique.dedup();
    assert_eq!(unique.len(), keys.len());
    // Modules are kept in name order: c1, c2, c3, p1, p2.
    assert!(keys.contains(&(4, 4, "b".to_string())));
}
