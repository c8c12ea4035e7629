//! Neuronic: the verified model behind a live message-bus flow visualizer.
//!
//! The library turns monitor snapshots of a message bus into a directed
//! graph of modules and topic connections, rates the health of each module
//! and connection, finds modules that take part in feedback cycles, decides
//! which activity effects a snapshot starts, and holds the search, theme,
//! layout-tier and UI-state logic of the viewer.
//!
//! - [`config`]: typed configuration, defaults and the load decision
//! - [`snapshot`]: monitor snapshots as keyed counters
//! - [`decode`]: decoding the snapshots that arrive from the bus
//! - [`health`]: health thresholds and connection health
//! - [`digraph`]: the petgraph graph that holds modules and connections
//! - [`graph`]: building the flow graph from a snapshot, and cycles
//! - [`animations`]: which effects a snapshot starts, within limits
//! - [`search`], [`text`]: fuzzy module search
//! - [`theme`], [`types`], [`state`], [`layout`], [`input`], [`history`]:
//!   viewer state and decisions

pub mod animations;
pub mod config;
pub mod decode;
pub mod digraph;
pub mod graph;
pub mod health;
pub mod history;
pub mod input;
pub mod layout;
pub mod search;
pub mod snapshot;
pub mod state;
pub mod text;
pub mod theme;
pub mod types;

pub use config::{FilterConfig, GraphConfig, NeuronicConfig, DEFAULT_CONFIG_FILE};
pub use graph::{MessageFlowGraph, ModuleNode, TopicEdge};
pub use health::{HealthConfig, HealthStatus};
