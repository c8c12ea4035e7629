//! Configuration values and their defaults.
//!
//! The settings are read from TOML files and `NEURONIC_` environment
//! variables by the application; this module holds the typed configuration,
//! the defaults for every field, and the rule that decides what a load
//! returns once the sources have been read.
use vstd::prelude::*;

verus! {

/// Default configuration file name.
pub const DEFAULT_CONFIG_FILE: &'static str = "config.default.toml";

/// Subscriber connection configuration.
#[derive(Debug, Clone)]
pub struct SubscriberConfig {
    /// Connection URL.
    pub url: String,
    /// Exchange name.
    pub exchange: String,
}

/// Filter configuration.
#[derive(Debug, Clone)]
pub struct FilterConfig {
    /// Topic prefixes to ignore.
    pub ignored_topics: Vec<String>,
}

/// Graph health thresholds as configured by the user.
#[derive(Debug, Clone, Copy, PartialEq, Eq, Structural)]
pub struct GraphConfig {
    /// Backlog warning threshold.
    pub backlog_warning: u64,
    /// Backlog critical threshold.
    pub backlog_critical: u64,
    /// Pending time warning threshold in milliseconds.
    pub pending_warning_ms: u64,
    /// Pending time critical threshold in milliseconds.
    pub pending_critical_ms: u64,
}

/// Application configuration.
#[derive(Debug, Clone)]
pub struct NeuronicConfig {
    /// Subscriber connection settings.
    pub subscriber: SubscriberConfig,
    /// Filter settings.
    pub filter: FilterConfig,
    /// Graph settings.
    pub graph: GraphConfig,
}

/// Why a configuration could not be assembled from its sources.
#[derive(Debug, Clone)]
pub struct ConfigError {
    /// Human readable description of the failure.
    pub message: String,
}

/// The default broker URL.
pub open spec fn spec_default_url() -> Seq<char> {
    "amqp://127.0.0.1:5672/%2f"@
}

/// The default exchange name.
pub open spec fn spec_default_exchange() -> Seq<char> {
    "caryatid"@
}

/// The default ignored topic prefix.
pub open spec fn spec_default_ignored_prefix() -> Seq<char> {
    "cardano.query."@
}

/// The default graph thresholds.
pub open spec fn spec_default_graph_config() -> GraphConfig {
    GraphConfig {
        backlog_warning: 100,
        backlog_critical: 1000,
        pending_warning_ms: 500,
        pending_critical_ms: 2000,
    }
}

/// The default list of ignored topic prefixes, as text.
pub open spec fn spec_default_ignored_topics() -> Seq<Seq<char>> {
    seq![spec_default_ignored_prefix()]
}

/// The text of each string in a sequence.
pub open spec fn strings_view(s: Seq<String>) -> Seq<Seq<char>> {
    s.map_values(|x: String| x@)
}

/// Whether a configuration holds the default values in every field.
pub open spec fn is_default_config(c: NeuronicConfig) -> bool {
    &&& c.subscriber.url@ == spec_default_url()
    &&& c.subscriber.exchange@ == spec_default_exchange()
    &&& strings_view(c.filter.ignored_topics@) == spec_default_ignored_topics()
    &&& c.graph == spec_default_graph_config()
}

fn default_subscriber_url() -> (r: String)
    ensures
        r@ == spec_default_url(),
{
    let r = "amqp://127.0.0.1:5672/%2f".to_string();
    proof {
        broadcast use vstd::string::to_string_from_display_ensures_for_str;
    }
    r
}

fn default_subscriber_exchange() -> (r: String)
    ensures
        r@ == spec_default_exchange(),
{
    let r = "caryatid".to_string();
    proof {
        broadcast use vstd::string::to_string_from_display_ensures_for_str;
    }
    r
}

fn default_ignored_topics() -> (r: Vec<String>)
    ensures
        strings_view(r@) == spec_default_ignored_topics(),
{
    let s = "cardano.query.".to_string();
    proof {
        broadcast use vstd::string::to_string_from_display_ensures_for_str;
    }
    let r = vec![s];
    assert(strings_view(r@) =~= spec_default_ignored_topics());
    r
}

fn default_backlog_warning() -> (r: u64)
    ensures
        r == 100,
{
    100
}

fn default_backlog_critical() -> (r: u64)
    ensures
        r == 1000,
{
    1000
}

fn default_pending_warning_ms() -> (r: u64)
    ensures
        r == 500,
{
    500
}

fn default_pending_critical_ms() -> (r: u64)
    ensures
        r == 2000,
{
    2000
}

impl Default for SubscriberConfig {
    fn default() -> (r: Self)
        ensures
            r.url@ == spec_default_url(),
            r.exchange@ == spec_default_exchange(),
    {
        SubscriberConfig { url: default_subscriber_url(), exchange: default_subscriber_exchange() }
    }
}

impl Default for FilterConfig {
    fn default() -> (r: Self)
        ensures
            strings_view(r.ignored_topics@) == spec_default_ignored_topics(),
    {
        FilterConfig { ignored_topics: default_ignored_topics() }
    }
}

impl Default for GraphConfig {
    fn default() -> (r: Self)
        ensures
            r == spec_default_graph_config(),
    {
        GraphConfig {
            backlog_warning: default_backlog_warning(),
            backlog_critical: default_backlog_critical(),
            pending_warning_ms: default_pending_warning_ms(),
            pending_critical_ms: default_pending_critical_ms(),
        }
    }
}

impl Default for NeuronicConfig {
    fn default() -> (r: Self)
        ensures
            is_default_config(r),
    {
        NeuronicConfig {
            subscriber: SubscriberConfig::default(),
            filter: FilterConfig::default(),
            graph: GraphConfig::default(),
        }
    }
}

impl NeuronicConfig {
    /// Decides the configuration that a load yields once its sources have
    /// been read.
    ///
    /// `sources` is `Err` when the sources could not be combined (the load
    /// fails with that error), `Ok(None)` when they were combined but do not
    /// describe a configuration (the defaults are used), and `Ok(Some(c))`
    /// when they describe `c`.
    pub fn load(sources: Result<Option<NeuronicConfig>, ConfigError>) -> (r: Result<
        NeuronicConfig,
        ConfigError,
    >)
        ensures
            match sources {
                Err(e) => r == Err::<NeuronicConfig, ConfigError>(e),
                Ok(Some(c)) => r == Ok::<NeuronicConfig, ConfigError>(c),
                Ok(None) => r is Ok && is_default_config(r->Ok_0),
            },
    {
        match sources {
            Err(e) => Err(e),
            Ok(Some(c)) => Ok(c),
            Ok(None) => Ok(NeuronicConfig::default()),
        }
    }
}

} // verus!
