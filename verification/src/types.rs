//! Shared UI types: colors, layout modes, node groups and selected edges.
use vstd::prelude::*;
use crate::graph::{texts, MessageFlowGraph, ModuleNode};
use crate::digraph::{graph_node, graph_node_count};
use crate::text::ends_with;

verus! {

/// An RGBA color with straight (not premultiplied) alpha.
#[derive(Debug, Clone, Copy, PartialEq, Eq, Structural)]
pub struct Color {
    pub r: u8,
    pub g: u8,
    pub b: u8,
    pub a: u8,
}

impl Color {
    /// An opaque color.
    pub fn from_rgb(r: u8, g: u8, b: u8) -> (c: Color)
        ensures
            c == (Color { r, g, b, a: 255 }),
    {
        Color { r, g, b, a: 255 }
    }

    /// A color with straight alpha `a`.
    pub fn from_rgba_unmultiplied(r: u8, g: u8, b: u8, a: u8) -> (c: Color)
        ensures
            c == (Color { r, g, b, a }),
    {
        Color { r, g, b, a }
    }
}

/// Layout mode for the graph.
#[derive(Debug, Clone, Copy, PartialEq, Eq, Structural)]
pub enum LayoutMode {
    ForceDirected,
    Hierarchical,
}

impl Default for LayoutMode {
    fn default() -> (r: Self)
        ensures
            r == LayoutMode::ForceDirected,
    {
        LayoutMode::ForceDirected
    }
}

/// Node group for clustering.
#[derive(Debug, Clone)]
pub struct NodeGroup {
    pub name: String,
    pub nodes: Vec<String>,
    pub collapsed: bool,
}

/// The palette that node groups are colored from, by position.
pub open spec fn group_palette(i: int) -> Color {
    if i == 0 {
        Color { r: 70, g: 130, b: 180, a: 255 }
    } else if i == 1 {
        Color { r: 144, g: 238, b: 144, a: 255 }
    } else if i == 2 {
        Color { r: 255, g: 182, b: 193, a: 255 }
    } else if i == 3 {
        Color { r: 255, g: 218, b: 185, a: 255 }
    } else if i == 4 {
        Color { r: 221, g: 160, b: 221, a: 255 }
    } else if i == 5 {
        Color { r: 176, g: 224, b: 230, a: 255 }
    } else if i == 6 {
        Color { r: 255, g: 255, b: 150, a: 255 }
    } else {
        Color { r: 230, g: 230, b: 250, a: 255 }
    }
}

/// Number of colors in the group palette.
pub const GROUP_COLOR_COUNT: usize = 8;

/// Get a color for a group by index; the palette repeats.
pub fn get_group_color(index: usize) -> (c: Color)
    ensures
        c == group_palette(index as int % 8),
{
    let i = index % GROUP_COLOR_COUNT;
    if i == 0 {
        Color::from_rgb(70, 130, 180)
    } else if i == 1 {
        Color::from_rgb(144, 238, 144)
    } else if i == 2 {
        Color::from_rgb(255, 182, 193)
    } else if i == 3 {
        Color::from_rgb(255, 218, 185)
    } else if i == 4 {
        Color::from_rgb(221, 160, 221)
    } else if i == 5 {
        Color::from_rgb(176, 224, 230)
    } else if i == 6 {
        Color::from_rgb(255, 255, 150)
    } else {
        Color::from_rgb(230, 230, 250)
    }
}

/// Stable identifier for a selected edge (survives graph rebuilds).
#[derive(Clone, Debug, PartialEq, Eq)]
pub struct SelectedEdge {
    pub source_node: String,
    pub target_node: String,
    pub topic: String,
}

/// The names of the modules whose name ends with `suffix`, in node order.
pub open spec fn suffix_members(nodes: Seq<ModuleNode>, suffix: Seq<char>) -> Seq<Seq<char>> {
    nodes.filter(|n: ModuleNode| suffix.is_suffix_of(n.name@)).map_values(|n: ModuleNode| n.name@)
}

impl NodeGroup {
    /// The group of all modules whose name ends with `pattern`, named
    /// `*pattern`; none when the pattern is empty or no module matches.
    pub fn by_suffix(graph: &MessageFlowGraph, pattern: &str) -> (r: Option<NodeGroup>)
        ensures
            match r {
                Some(group) => {
                    &&& pattern@.len() > 0
                    &&& suffix_members(graph.nodes(), pattern@).len() > 0
                    &&& texts(group.nodes@) == suffix_members(graph.nodes(), pattern@)
                    &&& group.name@ == seq!['*'] + pattern@
                    &&& !group.collapsed
                },
                None => pattern@.len() == 0 || suffix_members(graph.nodes(), pattern@).len() == 0,
            },
    {
        if pattern.unicode_len() == 0 {
            return None;
        }
        let ghost pred = |n: ModuleNode| pattern@.is_suffix_of(n.name@);
        let ghost name = |n: ModuleNode| n.name@;
        let n = graph_node_count(&graph.graph);
        let mut nodes: Vec<String> = Vec::new();
        let mut i: usize = 0;
        while i < n
            invariant
                n == graph.nodes().len(),
                i <= n,
                pred == (|n: ModuleNode| pattern@.is_suffix_of(n.name@)),
                name == (|n: ModuleNode| n.name@),
                texts(nodes@) == graph.nodes().take(i as int).filter(pred).map_values(name),
            decreases n - i,
        {
            proof {
                assert(graph.nodes().take(i + 1).drop_last() =~= graph.nodes().take(i as int));
                reveal_with_fuel(Seq::filter, 1);
            }
            let node = graph_node(&graph.graph, i);
            if ends_with(node.name.as_str(), pattern) {
                let ghost before = texts(nodes@);
                nodes.push(node.name.clone());
                assert(texts(nodes@) =~= before.push(name(*node)));
            }
            assert(texts(nodes@) =~= graph.nodes().take(i + 1).filter(pred).map_values(name));
            i = i + 1;
        }
        assert(graph.nodes().take(i as int) =~= graph.nodes());
        if nodes.len() == 0 {
            return None;
        }
        let mut group_name = String::from_str("*");
        proof {
            reveal_strlit("*");
        }
        group_name.append(pattern);
        Some(NodeGroup { name: group_name, nodes, collapsed: false })
    }
}

} // verus!
