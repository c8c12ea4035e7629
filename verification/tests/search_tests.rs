use neuronic::graph::MessageFlowGraph;
use neuronic::search::{find_matching_modules, fuzzy_match, get_best_match};
use neuronic::snapshot::{ModuleMetrics, ReadMetrics, Snapshot, WriteMetrics};

fn writer(topic: &str, count: u64) -> ModuleMetrics {
    let mut m = ModuleMetrics::new();
    m.insert_write(topic.to_string(), WriteMetrics { count, pending_us: None });
    m
}

fn reader(topic: &str, count: u64) -> ModuleMetrics {
    let mut m = ModuleMetrics::new();
    m.insert_read(topic.to_string(), ReadMetrics { count, backlog: None, pending_us: None });
    m
}

fn snapshot_of(modules: Vec<(&str, ModuleMetrics)>) -> Snapshot {
    let mut s = Snapshot::with_timestamp(0);
    for (name, m) in modules {
        s.insert_module(name.to_string(), m);
    }
    s
}

#[test]
fn test_fuzzy_match_exact() {
    assert!(fuzzy_match("block_unpacker", "block_unpacker"));
}

#[test]
fn test_fuzzy_match_subsequence() {
    assert!(fuzzy_match("block_unpacker", "blkunp"));
    assert!(fuzzy_match("accounts_state", "accst"));
    assert!(fuzzy_match("message_handler", "msghnd"));
}

#[test]
fn test_fuzzy_match_single_char() {
    assert!(fuzzy_match("block_unpacker", "b"));
    assert!(fuzzy_match("block_unpacker", "u"));
}

#[test]
fn test_fuzzy_match_empty_query() {
    assert!(fuzzy_match("block_unpacker", ""));
}

#[test]
fn test_fuzzy_match_no_match() {
    assert!(!fuzzy_match("block_unpacker", "xyz"));
    assert!(!fuzzy_match("block_unpacker", "zb")); // z not in target
}

#[test]
fn test_fuzzy_match_wrong_order() {
    assert!(!fuzzy_match("abc", "cba")); // Characters must appear in order
}

#[test]
fn test_fuzzy_match_query_longer_than_target() {
    assert!(!fuzzy_match("ab", "abc"));
}

#[test]
fn test_find_matching_modules_empty_query() {
    let graph = MessageFlowGraph::new();
    let matches = find_matching_modules(&graph, "");
    assert!(matches.is_empty());
}

#[test]
fn test_find_matching_modules_substring() {
    let mut graph = MessageFlowGraph::new();
    let snapshot = snapshot_of(vec![
        ("block_unpacker", writer("events", 10)),
        ("block_handler", writer("events", 20)),
        ("accounts_state", reader("events", 5)),
    ]);
    graph.update_from_snapshot(&snapshot);

    let matches = find_matching_modules(&graph, "block");
    assert_eq!(matches.len(), 2);
    assert!(matches.contains(&"block_unpacker".to_string()));
    assert!(matches.contains(&"block_handler".to_string()));
}

#[test]
fn test_find_matching_modules_case_insensitive() {
    let mut graph = MessageFlowGraph::new();
    let snapshot = snapshot_of(vec![("BlockUnpacker", writer("events", 10))]);
    graph.update_from_snapshot(&snapshot);

    let matches = find_matching_modules(&graph, "blockunpacker");
    assert_eq!(matches.len(), 1);
    assert!(matches.contains(&"BlockUnpacker".to_string()));

    let matches_upper = find_matching_modules(&graph, "BLOCK");
    assert_eq!(matches_upper.len(), 1);
}

#[test]
fn test_find_matching_modules_fuzzy() {
    let mut graph = MessageFlowGraph::new();
    let snapshot = snapshot_of(vec![("message_processor", writer("events", 10))]);
    graph.update_from_snapshot(&snapshot);

    // Fuzzy match: "msgprc" should match "message_processor"
    let matches = find_matching_modules(&graph, "msgprc");
    assert_eq!(matches.len(), 1);
    assert!(matches.contains(&"message_processor".to_string()));
}

#[test]
fn test_get_best_match_empty() {
    let matches: Vec<String> = vec![];
    assert!(get_best_match(&matches, "test").is_none());
}

#[test]
fn test_get_best_match_prefers_prefix() {
    let matches = vec![
        "handler_block".to_string(),
        "block_handler".to_string(),
        "the_block".to_string(),
    ];

    let best = get_best_match(&matches, "block");
    assert_eq!(best, Some("block_handler".to_string()));
}

#[test]
fn test_get_best_match_returns_first_if_no_prefix() {
    let matches = vec!["handler_block".to_string(), "the_block".to_string()];

    let best = get_best_match(&matches, "block");
    // Neither starts with "block", so returns first
    assert_eq!(best, Some("handler_block".to_string()));
}

#[test]
fn test_get_best_match_case_insensitive() {
    let matches = vec!["Handler".to_string(), "BlockHandler".to_string()];

    let best = get_best_match(&matches, "Block");
    assert_eq!(best, Some("BlockHandler".to_string()));
}

#[test]
fn substring_query_is_also_a_fuzzy_match() {
    // A query that occurs contiguously always matches as a subsequence.
    assert!(fuzzy_match("accounts_state", "nts_st"));
    assert!(fuzzy_match("abc", "abc"));
}

#[test]
fn fuzzy_match_handles_non_ascii_text() {
    assert!(fuzzy_match("über_modul", "übm"));
    assert!(!fuzzy_match("uber_modul", "ü"));
}

#[test]
fn find_matching_modules_keeps_node_order_and_lowercases_unicode() {
    let mut graph = MessageFlowGraph::new();
    let snapshot = snapshot_of(vec![
        ("ÜberState", writer("events", 1)),
        ("other", writer("events", 1)),
        ("über_handler", reader("events", 1)),
    ]);
    graph.update_from_snapshot(&snapshot);
    let matches = find_matching_modules(&graph, "ÜBER");
    assert_eq!(matches, vec!["ÜberState".to_string(), "über_handler".to_string()]);
}
