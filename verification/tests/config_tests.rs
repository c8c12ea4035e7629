use neuronic::config::{ConfigError, FilterConfig, GraphConfig, NeuronicConfig, SubscriberConfig};
use neuronic::health::HealthConfig;

#[test]
fn test_default_config() {
    let config = NeuronicConfig::default();

    assert_eq!(config.filter.ignored_topics, vec!["cardano.query."]);
    assert_eq!(config.graph.backlog_warning, 100);
    assert_eq!(config.graph.backlog_critical, 1000);
    assert_eq!(config.graph.pending_warning_ms, 500);
    assert_eq!(config.graph.pending_critical_ms, 2000);
}

#[test]
fn test_filter_config_default() {
    let filter = FilterConfig::default();
    assert_eq!(filter.ignored_topics, vec!["cardano.query."]);
}

#[test]
fn test_graph_config_default() {
    let graph = GraphConfig::default();
    assert_eq!(graph.backlog_warning, 100);
    assert_eq!(graph.backlog_critical, 1000);
    assert_eq!(graph.pending_warning_ms, 500);
    assert_eq!(graph.pending_critical_ms, 2000);
}

#[test]
fn test_empty_config_uses_struct_defaults() {
    // Sources that describe no configuration fall back to the defaults.
    let neuronic_config = NeuronicConfig::load(Ok(None)).unwrap();

    assert_eq!(neuronic_config.filter.ignored_topics, vec!["cardano.query."]);
    assert_eq!(neuronic_config.graph.backlog_warning, 100);
    assert_eq!(neuronic_config.graph.backlog_critical, 1000);
}

#[test]
fn subscriber_config_default_values() {
    let s = SubscriberConfig::default();
    assert_eq!(s.url, "amqp://127.0.0.1:5672/%2f");
    assert_eq!(s.exchange, "caryatid");
}

#[test]
fn load_keeps_configuration_from_sources() {
    let mut config = NeuronicConfig::default();
    config.graph.backlog_warning = 50;
    config.filter.ignored_topics = vec!["test.prefix.".to_string(), "another.prefix.".to_string()];
    let loaded = NeuronicConfig::load(Ok(Some(config))).unwrap();
    assert_eq!(loaded.graph.backlog_warning, 50);
    assert_eq!(loaded.graph.backlog_critical, 1000);
    assert_eq!(loaded.filter.ignored_topics, vec!["test.prefix.", "another.prefix."]);
}

#[test]
fn load_reports_source_errors() {
    let err = ConfigError { message: "bad file".to_string() };
    let result = NeuronicConfig::load(Err(err));
    match result {
        Err(e) => assert_eq!(e.message, "bad file"),
        Ok(_) => panic!("expected an error"),
    }
}

#[test]
fn health_config_from_graph_config_converts_ms_to_us() {
    let graph = GraphConfig {
        backlog_warning: 50,
        backlog_critical: 500,
        pending_warning_ms: 250,
        pending_critical_ms: 1000,
    };
    let health = HealthConfig::from(graph);
    assert_eq!(health.backlog_warning, 50);
    assert_eq!(health.backlog_critical, 500);
    assert_eq!(health.pending_warning_us, 250_000);
    assert_eq!(health.pending_critical_us, 1_000_000);
}

#[test]
fn health_config_default_values() {
    let health = HealthConfig::default();
    assert_eq!(health.backlog_warning, 100);
    assert_eq!(health.backlog_critical, 1000);
    assert_eq!(health.pending_warning_us, 500_000);
    assert_eq!(health.pending_critical_us, 2_000_000);
}
