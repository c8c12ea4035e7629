use neuronic::graph::MessageFlowGraph;
use neuronic::history::{add_to_history, adjust_playback_position, get_playback_snapshot};
use neuronic::input::{handle_keyboard, KeyboardAction};
use neuronic::layout::classify_tiers;
use neuronic::snapshot::{ModuleMetrics, ReadMetrics, Snapshot, WriteMetrics};
use neuronic::state::{FilterState, InteractionState, SearchState, UIPreferences};
use neuronic::theme::Theme;
use neuronic::types::{get_group_color, Color, LayoutMode, NodeGroup};
use std::collections::VecDeque;

fn module(reads: Vec<&str>, writes: Vec<&str>) -> ModuleMetrics {
    let mut m = ModuleMetrics::new();
    for t in reads {
        m.insert_read(t.to_string(), ReadMetrics { count: 1, backlog: None, pending_us: None });
    }
    for t in writes {
        m.insert_write(t.to_string(), WriteMetrics { count: 1, pending_us: None });
    }
    m
}

fn graph_of(modules: Vec<(&str, ModuleMetrics)>) -> MessageFlowGraph {
    let mut s = Snapshot::with_timestamp(0);
    for (name, m) in modules {
        s.insert_module(name.to_string(), m);
    }
    let mut g = MessageFlowGraph::new();
    g.update_from_snapshot(&s);
    g
}

#[test]
fn test_default_theme_is_dark() {
    let theme = Theme::default();
    assert_eq!(theme, Theme::Dark);
}

#[test]
fn test_toggle_dark_to_light() {
    let theme = Theme::Dark;
    assert_eq!(theme.toggle(), Theme::Light);
}

#[test]
fn test_toggle_light_to_dark() {
    let theme = Theme::Light;
    assert_eq!(theme.toggle(), Theme::Dark);
}

#[test]
fn test_dark_theme_colors() {
    let theme = Theme::Dark;
    let bg = theme.background();
    assert!(bg.r < 50 && bg.g < 50 && bg.b < 50);
    let text = theme.text_primary();
    assert!(text.r > 150 && text.g > 150 && text.b > 150);
}

#[test]
fn test_light_theme_colors() {
    let theme = Theme::Light;
    let bg = theme.background();
    assert!(bg.r > 200 && bg.g > 200 && bg.b > 200);
    let text = theme.text_primary();
    assert!(text.r < 100 && text.g < 100 && text.b < 100);
}

#[test]
fn test_neuron_colors_different_between_themes() {
    let dark = Theme::Dark;
    let light = Theme::Light;
    assert_ne!(dark.neuron_base(), light.neuron_base());
    assert_ne!(dark.neuron_active(), light.neuron_active());
    assert_ne!(dark.neuron_firing(), light.neuron_firing());
}

#[test]
fn test_warning_and_critical_colors() {
    let theme = Theme::Dark;
    let warning = theme.neuron_warning();
    let critical = theme.neuron_critical();
    assert!(warning.r > warning.b);
    assert!(warning.g > warning.b);
    assert!(critical.r > critical.g);
    assert!(critical.r > critical.b);
}

#[test]
fn test_synapse_colors() {
    let dark = Theme::Dark;
    let light = Theme::Light;
    assert_ne!(dark.synapse_base(), light.synapse_base());
    assert_ne!(dark.synapse_active(), light.synapse_active());
    let dark_base = dark.synapse_base();
    let dark_active = dark.synapse_active();
    let base_intensity = dark_base.r as u32 + dark_base.g as u32 + dark_base.b as u32;
    let active_intensity = dark_active.r as u32 + dark_active.g as u32 + dark_active.b as u32;
    assert!(active_intensity > base_intensity);
}

#[test]
fn test_panel_fill() {
    let dark = Theme::Dark;
    let light = Theme::Light;
    assert_ne!(dark.panel_fill(), dark.background());
    assert_ne!(light.panel_fill(), light.background());
}

#[test]
fn test_label() {
    assert_eq!(Theme::Dark.label(), "Dark");
    assert_eq!(Theme::Light.label(), "Light");
}

#[test]
fn toggle_twice_restores_theme() {
    for t in [Theme::Dark, Theme::Light] {
        assert_ne!(t.toggle(), t);
        assert_eq!(t.toggle().toggle(), t);
    }
}

#[test]
fn text_secondary_is_translucent() {
    assert_eq!(Theme::Dark.text_secondary(), Color { r: 150, g: 150, b: 180, a: 180 });
    assert_eq!(Theme::Light.text_secondary(), Color { r: 80, g: 80, b: 100, a: 200 });
}

#[test]
fn group_colors_repeat_every_eight() {
    assert_eq!(get_group_color(0), Color::from_rgb(70, 130, 180));
    assert_eq!(get_group_color(7), Color::from_rgb(230, 230, 250));
    assert_eq!(get_group_color(8), get_group_color(0));
    assert_eq!(get_group_color(13), Color::from_rgb(176, 224, 230));
}

#[test]
fn layout_mode_defaults_to_force_directed() {
    assert_eq!(LayoutMode::default(), LayoutMode::ForceDirected);
}

#[test]
fn preferences_defaults() {
    let p = UIPreferences::default();
    assert!(p.show_labels && p.show_legend && p.show_pulse_rings);
    assert!(!p.show_filter_panel && !p.show_group_panel && !p.show_cycle_panel);
    assert!(!p.show_gradient_edges && !p.show_minimap && !p.paused && !p.sound_enabled);
    assert_eq!(p.theme, Theme::Dark);
}

#[test]
fn interaction_state_starts_empty() {
    let s = InteractionState::default();
    assert!(s.selected_node.is_none() && s.selected_edge.is_none() && s.dragged_node.is_none());
    assert!(s.search.query.is_empty() && !s.search.focused);
}

#[test]
fn filter_state_with_filters_and_editing() {
    let mut f = FilterState::with_filters(vec!["a.".to_string()]);
    assert_eq!(f.topic_filters, vec!["a."]);
    assert!(!f.add_typed_filter());
    f.new_filter = "b.".to_string();
    assert!(f.add_typed_filter());
    assert_eq!(f.topic_filters, vec!["a.", "b."]);
    assert!(f.new_filter.is_empty());
    assert!(f.add_quick_filter());
    assert!(!f.add_quick_filter());
    assert_eq!(f.topic_filters, vec!["a.", "b.", "cardano.query."]);
    assert!(f.remove_filter(0));
    assert_eq!(f.topic_filters, vec!["b.", "cardano.query."]);
}

#[test]
fn groups_by_suffix() {
    let g = graph_of(vec![
        ("accounts_state", module(vec![], vec!["x"])),
        ("tx_validator", module(vec!["x"], vec![])),
        ("utxo_state", module(vec!["x"], vec![])),
    ]);
    let group = NodeGroup::by_suffix(&g, "_state").unwrap();
    assert_eq!(group.name, "*_state");
    assert_eq!(group.nodes, vec!["accounts_state", "utxo_state"]);
    assert!(!group.collapsed);
    assert!(NodeGroup::by_suffix(&g, "_nothing").is_none());
    assert!(NodeGroup::by_suffix(&g, "").is_none());

    let mut f = FilterState::default();
    f.new_group_pattern = "_validator".to_string();
    f.add_typed_group(&g);
    assert_eq!(f.node_groups.len(), 1);
    assert!(f.new_group_pattern.is_empty());
    f.toggle_group(0);
    assert!(f.node_groups[0].collapsed);
}

#[test]
fn search_state_refresh_and_clear() {
    let g = graph_of(vec![
        ("handler_block", module(vec![], vec!["x"])),
        ("block_handler", module(vec!["x"], vec![])),
    ]);
    let mut s = SearchState::default();
    s.query = "block".to_string();
    s.refresh(&g);
    // Modules are kept in name order.
    assert_eq!(s.matches, vec!["block_handler", "handler_block"]);
    assert_eq!(s.highlighted_node, Some("block_handler".to_string()));
    s.clear();
    assert!(s.query.is_empty() && s.matches.is_empty() && s.highlighted_node.is_none());
}

#[test]
fn keyboard_shortcuts() {
    let mut focused = false;
    assert_eq!(handle_keyboard(true, false, &mut focused), KeyboardAction::FocusSearch);
    assert!(focused);
    assert_eq!(handle_keyboard(false, false, &mut focused), KeyboardAction::Nothing);
    assert!(focused);
    assert_eq!(handle_keyboard(true, true, &mut focused), KeyboardAction::ClearSearch);
    assert!(!focused);
}

#[test]
fn hierarchy_tiers() {
    let g = graph_of(vec![
        ("source", module(vec![], vec!["events"])),
        ("processor", module(vec!["events"], vec!["output"])),
        ("sink", module(vec!["output"], vec![])),
        ("idle", module(vec![], vec![])),
    ]);
    let tiers = classify_tiers(&g);
    assert_eq!(tiers.sources, vec!["source"]);
    // Modules are kept in name order.
    assert_eq!(tiers.middle, vec!["idle", "processor"]);
    assert_eq!(tiers.sinks, vec!["sink"]);
}

#[test]
fn playback_position_and_history() {
    let mut pos = Some(10);
    adjust_playback_position(&mut pos, 3);
    assert_eq!(pos, Some(2));
    adjust_playback_position(&mut pos, 5);
    assert_eq!(pos, Some(2));
    let mut none: Option<usize> = None;
    adjust_playback_position(&mut none, 5);
    assert_eq!(none, None);
    let mut past = Some(4);
    adjust_playback_position(&mut past, 0);
    assert_eq!(past, Some(0));

    let mut history = VecDeque::new();
    for ts in 0..5u64 {
        add_to_history(&mut history, Snapshot::with_timestamp(ts), 3);
    }
    assert_eq!(history.len(), 3);
    assert_eq!(history[0].snapshot.timestamp_ms(), 2);
    assert_eq!(get_playback_snapshot(&history, Some(2)).unwrap().timestamp_ms(), 4);
    assert!(get_playback_snapshot(&history, Some(3)).is_none());
    assert!(get_playback_snapshot(&history, None).is_none());
}
