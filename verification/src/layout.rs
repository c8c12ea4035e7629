//! Hierarchical layout tiers: modules that only write sit at the top,
//! modules that only read at the bottom, and all others in between.
use vstd::prelude::*;
use crate::graph::{texts, MessageFlowGraph, ModuleNode};
use crate::digraph::{graph_node, graph_node_count};

verus! {

/// The tier a module is drawn in.
#[derive(Debug, Clone, Copy, PartialEq, Eq, Structural)]
pub enum Tier {
    /// Writes but reads nothing.
    Source,
    /// Both reads and writes, or neither.
    Middle,
    /// Reads but writes nothing.
    Sink,
}

/// The tier of a module, from whether it reads and whether it writes.
pub open spec fn tier_of(n: ModuleNode) -> Tier {
    let reads = n.read_topics@.len() > 0;
    let writes = n.write_topics@.len() > 0;
    if !reads && writes {
        Tier::Source
    } else if reads && !writes {
        Tier::Sink
    } else {
        Tier::Middle
    }
}

/// The names of the modules of tier `t`, in node order.
pub open spec fn tier_names(nodes: Seq<ModuleNode>, t: Tier) -> Seq<Seq<char>> {
    nodes.filter(|n: ModuleNode| tier_of(n) == t).map_values(|n: ModuleNode| n.name@)
}

/// The tiers go by the topics a module lists, not by its message counts:
/// the sources are the modules that list written topics and no read topic,
/// the sinks those that list read topics and no written topic, and the
/// middle tier all others, each in node order.
pub proof fn lemma_tiers_by_topics(nodes: Seq<ModuleNode>)
    ensures
        tier_names(nodes, Tier::Source) == nodes.filter(
            |n: ModuleNode| n.read_topics@.len() == 0 && n.write_topics@.len() > 0,
        ).map_values(|n: ModuleNode| n.name@),
        tier_names(nodes, Tier::Sink) == nodes.filter(
            |n: ModuleNode| n.read_topics@.len() > 0 && n.write_topics@.len() == 0,
        ).map_values(|n: ModuleNode| n.name@),
        tier_names(nodes, Tier::Middle) == nodes.filter(
            |n: ModuleNode| (n.read_topics@.len() > 0) == (n.write_topics@.len() > 0),
        ).map_values(|n: ModuleNode| n.name@),
{
    let ps = |n: ModuleNode| tier_of(n) == Tier::Source;
    let qs = |n: ModuleNode| n.read_topics@.len() == 0 && n.write_topics@.len() > 0;
    let pk = |n: ModuleNode| tier_of(n) == Tier::Sink;
    let qk = |n: ModuleNode| n.read_topics@.len() > 0 && n.write_topics@.len() == 0;
    let pm = |n: ModuleNode| tier_of(n) == Tier::Middle;
    let qm = |n: ModuleNode| (n.read_topics@.len() > 0) == (n.write_topics@.len() > 0);
    assert(ps =~= qs);
    assert(pk =~= qk);
    assert(pm =~= qm);
}

/// The modules of a graph sorted into tiers, each in node order.
pub struct Tiers {
    pub sources: Vec<String>,
    pub middle: Vec<String>,
    pub sinks: Vec<String>,
}

/// Sorts the modules of `graph` into the tiers of the hierarchical layout.
pub fn classify_tiers(graph: &MessageFlowGraph) -> (r: Tiers)
    ensures
        texts(r.sources@) == tier_names(graph.nodes(), Tier::Source),
        texts(r.middle@) == tier_names(graph.nodes(), Tier::Middle),
        texts(r.sinks@) == tier_names(graph.nodes(), Tier::Sink),
        texts(r.sources@) == graph.nodes().filter(
            |n: ModuleNode| n.read_topics@.len() == 0 && n.write_topics@.len() > 0,
        ).map_values(|n: ModuleNode| n.name@),
        texts(r.sinks@) == graph.nodes().filter(
            |n: ModuleNode| n.read_topics@.len() > 0 && n.write_topics@.len() == 0,
        ).map_values(|n: ModuleNode| n.name@),
        texts(r.middle@) == graph.nodes().filter(
            |n: ModuleNode| (n.read_topics@.len() > 0) == (n.write_topics@.len() > 0),
        ).map_values(|n: ModuleNode| n.name@),
{
    let ghost ps = |n: ModuleNode| tier_of(n) == Tier::Source;
    let ghost pm = |n: ModuleNode| tier_of(n) == Tier::Middle;
    let ghost pk = |n: ModuleNode| tier_of(n) == Tier::Sink;
    let ghost name = |n: ModuleNode| n.name@;
    let n = graph_node_count(&graph.graph);
    let mut sources: Vec<String> = Vec::new();
    let mut middle: Vec<String> = Vec::new();
    let mut sinks: Vec<String> = Vec::new();
    let mut i: usize = 0;
    while i < n
        invariant
            n == graph.nodes().len(),
            i <= n,
            ps == (|n: ModuleNode| tier_of(n) == Tier::Source),
            pm == (|n: ModuleNode| tier_of(n) == Tier::Middle),
            pk == (|n: ModuleNode| tier_of(n) == Tier::Sink),
            name == (|n: ModuleNode| n.name@),
            texts(sources@) == graph.nodes().take(i as int).filter(ps).map_values(name),
            texts(middle@) == graph.nodes().take(i as int).filter(pm).map_values(name),
            texts(sinks@) == graph.nodes().take(i as int).filter(pk).map_values(name),
        decreases n - i,
    {
        proof {
            assert(graph.nodes().take(i + 1).drop_last() =~= graph.nodes().take(i as int));
            reveal_with_fuel(Seq::filter, 1);
        }
        let node = graph_node(&graph.graph, i);
        let has_reads = node.read_topics.len() > 0;
        let has_writes = node.write_topics.len() > 0;
        let ghost s0 = texts(sources@);
        let ghost m0 = texts(middle@);
        let ghost k0 = texts(sinks@);
        if !has_reads && has_writes {
            sources.push(node.name.clone());
            assert(texts(sources@) =~= s0.push(name(*node)));
        } else if has_reads && !has_writes {
            sinks.push(node.name.clone());
            assert(texts(sinks@) =~= k0.push(name(*node)));
        } else {
            middle.push(node.name.clone());
            assert(texts(middle@) =~= m0.push(name(*node)));
        }
        assert(texts(sources@) =~= graph.nodes().take(i + 1).filter(ps).map_values(name));
        assert(texts(middle@) =~= graph.nodes().take(i + 1).filter(pm).map_values(name));
        assert(texts(sinks@) =~= graph.nodes().take(i + 1).filter(pk).map_values(name));
        i = i + 1;
    }
    assert(graph.nodes().take(i as int) =~= graph.nodes());
    proof {
        lemma_tiers_by_topics(graph.nodes());
    }
    Tiers { sources, middle, sinks }
}

} // verus!
