//! Application state that is not tied to drawing: filters, groups,
//! selection, search and display preferences.
use vstd::prelude::*;
use crate::graph::{texts, MessageFlowGraph};
use crate::search::{best_match, find_matching_modules, get_best_match, matching_names};
use crate::theme::Theme;
use crate::types::{suffix_members, NodeGroup, SelectedEdge};

verus! {

/// The quick filter that hides the noisy query topics.
pub open spec fn quick_filter() -> Seq<char> {
    "cardano.query."@
}

/// State for topic filtering and node grouping.
pub struct FilterState {
    /// Topic prefixes to filter out.
    pub topic_filters: Vec<String>,
    /// Text input for new filter.
    pub new_filter: String,
    /// Node groups for visual clustering.
    pub node_groups: Vec<NodeGroup>,
    /// Text input for new group pattern.
    pub new_group_pattern: String,
}

impl Default for FilterState {
    fn default() -> (r: Self)
        ensures
            r.topic_filters@.len() == 0,
            r.new_filter@.len() == 0,
            r.node_groups@.len() == 0,
            r.new_group_pattern@.len() == 0,
    {
        FilterState {
            topic_filters: Vec::new(),
            new_filter: String::new(),
            node_groups: Vec::new(),
            new_group_pattern: String::new(),
        }
    }
}

impl FilterState {
    /// Create a new filter state with initial topic filters.
    pub fn with_filters(topic_filters: Vec<String>) -> (r: Self)
        ensures
            r.topic_filters == topic_filters,
            r.new_filter@.len() == 0,
            r.node_groups@.len() == 0,
            r.new_group_pattern@.len() == 0,
    {
        FilterState { topic_filters, ..Default::default() }
    }

    /// Removes the filter at position `idx`.
    pub fn remove_filter(&mut self, idx: usize) -> (changed: bool)
        requires
            idx < old(self).topic_filters@.len(),
        ensures
            changed,
            final(self).topic_filters@ == old(self).topic_filters@.remove(idx as int),
            final(self).new_filter == old(self).new_filter,
            final(self).node_groups == old(self).node_groups,
            final(self).new_group_pattern == old(self).new_group_pattern,
    {
        self.topic_filters.remove(idx);
        true
    }

    /// Adds the typed filter, unless nothing was typed; the input is then
    /// cleared. Returns whether the filters changed.
    pub fn add_typed_filter(&mut self) -> (changed: bool)
        ensures
            changed == (old(self).new_filter@.len() > 0),
            changed ==> final(self).topic_filters@ == old(self).topic_filters@.push(old(self).new_filter)
                && final(self).new_filter@.len() == 0,
            !changed ==> final(self).topic_filters == old(self).topic_filters && final(self).new_filter
                == old(self).new_filter,
            final(self).node_groups == old(self).node_groups,
            final(self).new_group_pattern == old(self).new_group_pattern,
    {
        if self.new_filter.as_str().unicode_len() == 0 {
            return false;
        }
        let typed = self.new_filter.clone();
        self.topic_filters.push(typed);
        self.new_filter = String::new();
        true
    }

    /// Adds the quick filter for query topics unless it is already there.
    /// Returns whether the filters changed.
    pub fn add_quick_filter(&mut self) -> (changed: bool)
        ensures
            changed == !texts(old(self).topic_filters@).contains(quick_filter()),
            changed ==> texts(final(self).topic_filters@) == texts(old(self).topic_filters@).push(
                quick_filter(),
            ),
            !changed ==> final(self).topic_filters == old(self).topic_filters,
            final(self).new_filter == old(self).new_filter,
            final(self).node_groups == old(self).node_groups,
            final(self).new_group_pattern == old(self).new_group_pattern,
    {
        let quick = "cardano.query.".to_string();
        proof {
            broadcast use vstd::string::to_string_from_display_ensures_for_str;
        }
        let mut i: usize = 0;
        while i < self.topic_filters.len()
            invariant
                i <= self.topic_filters@.len(),
                quick@ == quick_filter(),
                forall|j: int| 0 <= j < i ==> self.topic_filters@[j]@ != quick_filter(),
            decreases self.topic_filters@.len() - i,
        {
            if self.topic_filters[i] == quick {
                assert(texts(self.topic_filters@)[i as int] == quick_filter());
                return false;
            }
            i = i + 1;
        }
        assert(!texts(self.topic_filters@).contains(quick_filter()));
        let ghost before = texts(self.topic_filters@);
        self.topic_filters.push(quick);
        assert(texts(self.topic_filters@) =~= before.push(quick_filter()));
        true
    }

    /// Adds the group of the modules whose names end with the typed pattern,
    /// when the pattern is not empty and some module matches; a non-empty
    /// pattern is then cleared.
    pub fn add_typed_group(&mut self, graph: &MessageFlowGraph)
        ensures
            final(self).topic_filters == old(self).topic_filters,
            final(self).new_filter == old(self).new_filter,
            old(self).new_group_pattern@.len() == 0 ==> final(self).node_groups == old(self).node_groups
                && final(self).new_group_pattern == old(self).new_group_pattern,
            old(self).new_group_pattern@.len() > 0 ==> final(self).new_group_pattern@.len() == 0,
            old(self).new_group_pattern@.len() > 0 && suffix_members(
                graph.nodes(),
                old(self).new_group_pattern@,
            ).len() == 0 ==> final(self).node_groups == old(self).node_groups,
            old(self).new_group_pattern@.len() > 0 && suffix_members(
                graph.nodes(),
                old(self).new_group_pattern@,
            ).len() > 0 ==> ({
                let g = final(self).node_groups@.last();
                &&& final(self).node_groups@.len() == old(self).node_groups@.len() + 1
                &&& final(self).node_groups@.drop_last() == old(self).node_groups@
                &&& texts(g.nodes@) == suffix_members(graph.nodes(), old(self).new_group_pattern@)
                &&& g.name@ == seq!['*'] + old(self).new_group_pattern@
                &&& !g.collapsed
            }),
    {
        if self.new_group_pattern.as_str().unicode_len() == 0 {
            return;
        }
        match NodeGroup::by_suffix(graph, self.new_group_pattern.as_str()) {
            Some(group) => {
                self.node_groups.push(group);
            },
            None => {},
        }
        self.new_group_pattern = String::new();
    }

    /// Collapses an expanded group or expands a collapsed one.
    pub fn toggle_group(&mut self, idx: usize)
        requires
            idx < old(self).node_groups@.len(),
        ensures
            final(self).node_groups@.len() == old(self).node_groups@.len(),
            forall|j: int|
                0 <= j < final(self).node_groups@.len() && j != idx ==> #[trigger] final(self).node_groups@[j]
                    == old(self).node_groups@[j],
            final(self).node_groups@[idx as int].collapsed == !old(self).node_groups@[idx as int].collapsed,
            final(self).node_groups@[idx as int].name == old(self).node_groups@[idx as int].name,
            final(self).node_groups@[idx as int].nodes == old(self).node_groups@[idx as int].nodes,
            final(self).topic_filters == old(self).topic_filters,
            final(self).new_filter == old(self).new_filter,
            final(self).new_group_pattern == old(self).new_group_pattern,
    {
        let mut groups: Vec<NodeGroup> = Vec::new();
        std::mem::swap(&mut groups, &mut self.node_groups);
        let mut g = groups.remove(idx);
        g.collapsed = !g.collapsed;
        groups.insert(idx, g);
        self.node_groups = groups;
    }
}

/// State for the search functionality.
pub struct SearchState {
    /// Current search query text.
    pub query: String,
    /// Whether the search box is focused.
    pub focused: bool,
    /// Currently highlighted node from search.
    pub highlighted_node: Option<String>,
    /// List of nodes matching the current query.
    pub matches: Vec<String>,
}

impl Default for SearchState {
    fn default() -> (r: Self)
        ensures
            r.query@.len() == 0,
            !r.focused,
            r.highlighted_node is None,
            r.matches@.len() == 0,
    {
        SearchState { query: String::new(), focused: false, highlighted_node: None, matches: Vec::new() }
    }
}

impl SearchState {
    /// Recomputes the matches of the current query and highlights the best
    /// of them.
    pub fn refresh(&mut self, graph: &MessageFlowGraph)
        ensures
            final(self).query == old(self).query,
            final(self).focused == old(self).focused,
            old(self).query@.len() == 0 ==> final(self).matches@.len() == 0,
            old(self).query@.len() > 0 ==> texts(final(self).matches@) == matching_names(
                graph.nodes(),
                old(self).query@,
            ),
            final(self).highlighted_node == best_match(final(self).matches@, old(self).query@),
    {
        let matches = find_matching_modules(graph, self.query.as_str());
        let best = get_best_match(matches.as_slice(), self.query.as_str());
        self.matches = matches;
        self.highlighted_node = best;
    }

    /// Clears the query, the matches and the highlight.
    pub fn clear(&mut self)
        ensures
            final(self).query@.len() == 0,
            final(self).highlighted_node is None,
            final(self).matches@.len() == 0,
            final(self).focused == old(self).focused,
    {
        self.query = String::new();
        self.highlighted_node = None;
        self.matches = Vec::new();
    }
}

/// State related to user interaction with the graph.
pub struct InteractionState {
    /// Currently selected node name.
    pub selected_node: Option<String>,
    /// Currently selected edge.
    pub selected_edge: Option<SelectedEdge>,
    /// Node currently being dragged.
    pub dragged_node: Option<String>,
    /// Search state.
    pub search: SearchState,
}

impl Default for InteractionState {
    fn default() -> (r: Self)
        ensures
            r.selected_node is None,
            r.selected_edge is None,
            r.dragged_node is None,
            r.search.query@.len() == 0,
            !r.search.focused,
            r.search.highlighted_node is None,
            r.search.matches@.len() == 0,
    {
        InteractionState {
            selected_node: None,
            selected_edge: None,
            dragged_node: None,
            search: SearchState::default(),
        }
    }
}

/// User preferences for UI display options.
#[derive(Debug, Clone, Copy, PartialEq, Eq, Structural)]
pub struct UIPreferences {
    /// Show node labels.
    pub show_labels: bool,
    /// Show the legend panel.
    pub show_legend: bool,
    /// Show the filter panel.
    pub show_filter_panel: bool,
    /// Show the group panel.
    pub show_group_panel: bool,
    /// Show the cycle detection panel.
    pub show_cycle_panel: bool,
    /// Use gradient coloring on edges.
    pub show_gradient_edges: bool,
    /// Show expanding pulse rings on active nodes.
    pub show_pulse_rings: bool,
    /// Show the minimap overview.
    pub show_minimap: bool,
    /// Pause snapshot processing.
    pub paused: bool,
    /// Enable audio feedback for graph events.
    pub sound_enabled: bool,
    /// Current color theme.
    pub theme: Theme,
}

impl Default for UIPreferences {
    fn default() -> (r: Self)
        ensures
            r == (UIPreferences {
                show_labels: true,
                show_legend: true,
                show_filter_panel: false,
                show_group_panel: false,
                show_cycle_panel: false,
                show_gradient_edges: false,
                show_pulse_rings: true,
                show_minimap: false,
                paused: false,
                sound_enabled: false,
                theme: Theme::Dark,
            }),
    {
        UIPreferences {
            show_labels: true,
            show_legend: true,
            show_filter_panel: false,
            show_group_panel: false,
            show_cycle_panel: false,
            show_gradient_edges: false,
            show_pulse_rings: true,
            show_minimap: false,
            paused: false,
            sound_enabled: false,
            theme: Theme::Dark,
        }
    }
}

} // verus!
