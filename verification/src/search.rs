//! Module search.
//!
//! A query matches a module when its characters occur, in order, in the
//! module's name, ignoring case; a query that occurs as a whole in the name
//! is the common case of this. Among several matches, the first whose name
//! starts with the query is preferred.
use vstd::prelude::*;
use crate::graph::{texts, MessageFlowGraph, ModuleNode};
use crate::text::{
    contains, embeds, is_subsequence, is_substring, lowercase, starts_with, to_lowercase,
};
use crate::digraph::{graph_node, graph_node_count};

verus! {

/// Every text that occurs contiguously in another also occurs in it as a
/// subsequence.
pub proof fn lemma_substring_is_subsequence(needle: Seq<char>, hay: Seq<char>)
    requires
        is_substring(needle, hay),
    ensures
        is_subsequence(needle, hay),
{
    let k = choose|k: int|
        0 <= k && k + needle.len() <= hay.len() && #[trigger] hay.subrange(k, k + needle.len()) == needle;
    let pos = Seq::new(needle.len(), |i: int| k + i);
    assert forall|i: int| 0 <= i < pos.len() implies hay[#[trigger] pos[i]] == needle[i] by {
        assert(hay.subrange(k, k + needle.len())[i] == hay[k + i]);
    }
    assert(embeds(pos, needle, hay));
}

/// Simple fuzzy matching: all characters in query appear in order in target.
pub fn fuzzy_match(target: &str, query: &str) -> (r: bool)
    ensures
        r == is_subsequence(query@, target@),
{
    let tn = target.unicode_len();
    let qn = query.unicode_len();
    let ghost t = target@;
    let ghost q = query@;
    let ghost mut g: Seq<int> = Seq::empty();
    let mut i: usize = 0;
    let mut j: usize = 0;
    while j < qn
        invariant
            t == target@,
            q == query@,
            tn == t.len(),
            qn == q.len(),
            j <= qn,
            i <= tn,
            g.len() == j,
            embeds(g, q.take(j as int), t),
            forall|k: int| 0 <= k < j ==> #[trigger] g[k] < i,
            forall|pos: Seq<int>, k: int|
                #[trigger] embeds(pos, q, t) && 0 <= k < j ==> pos[k] >= #[trigger] g[k],
            j > 0 ==> i == g[j - 1] + 1,
            j == 0 ==> i == 0,
        decreases qn - j,
    {
        let i0 = i;
        while i < tn && target.get_char(i) != query.get_char(j)
            invariant
                t == target@,
                q == query@,
                tn == t.len(),
                qn == q.len(),
                j < qn,
                i0 <= i <= tn,
                forall|i2: int| i0 <= i2 < i ==> t[i2] != q[j as int],
            decreases tn - i,
        {
            i = i + 1;
        }
        assert forall|pos: Seq<int>| #[trigger] embeds(pos, q, t) implies pos[j as int] >= i by {
            if j > 0 {
                assert(pos[j - 1] >= g[j - 1]);
                assert(pos[j - 1] < pos[j as int]);
            }
            assert(pos[j as int] >= i0);
            assert(t[pos[j as int]] == q[j as int]);
            if pos[j as int] < i {
                assert(t[pos[j as int]] != q[j as int]);
            }
        }
        if i == tn {
            assert forall|pos: Seq<int>| !embeds(pos, q, t) by {
                if embeds(pos, q, t) {
                    assert(pos[j as int] >= i);
                    assert(pos[j as int] < t.len());
                }
            }
            return false;
        }
        proof {
            let g2 = g.push(i as int);
            assert forall|k: int, l: int| 0 <= k < l < g2.len() implies #[trigger] g2[k] < #[trigger] g2[l] by {
                if l < j {
                    assert(g2[k] == g[k] && g2[l] == g[l]);
                } else {
                    assert(g2[k] == g[k]);
                }
            }
            assert forall|k: int| 0 <= k < g2.len() implies t[#[trigger] g2[k]] == q.take(j + 1)[k] by {
                if k < j {
                    assert(g2[k] == g[k]);
                    assert(q.take(j as int)[k] == q[k]);
                }
            }
            assert(embeds(g2, q.take(j + 1), t));
            assert forall|pos: Seq<int>, k: int|
                #[trigger] embeds(pos, q, t) && 0 <= k < j + 1 implies pos[k] >= #[trigger] g2[k] by {
                if k < j {
                    assert(g2[k] == g[k]);
                }
            }
            g = g2;
        }
        i = i + 1;
        j = j + 1;
    }
    assert(q.take(j as int) =~= q);
    true
}

/// The lower-case name of `n` contains the lower-case `query` as a
/// subsequence.
pub open spec fn name_matches(n: ModuleNode, query: Seq<char>) -> bool {
    is_subsequence(lowercase(query), lowercase(n.name@))
}

/// The names of the modules that a non-empty query matches, in node order.
pub open spec fn matching_names(nodes: Seq<ModuleNode>, query: Seq<char>) -> Seq<Seq<char>> {
    nodes.filter(|n: ModuleNode| name_matches(n, query)).map_values(|n: ModuleNode| n.name@)
}

/// Find modules whose names match the search query.
///
/// Supports both substring matching and fuzzy matching where query
/// characters appear in order within the module name; an empty query
/// matches nothing.
pub fn find_matching_modules(graph: &MessageFlowGraph, query: &str) -> (r: Vec<String>)
    ensures
        query@.len() == 0 ==> r@.len() == 0,
        query@.len() > 0 ==> texts(r@) == matching_names(graph.nodes(), query@),
{
    if query.unicode_len() == 0 {
        return Vec::new();
    }
    let query_lower = to_lowercase(query);
    let ghost pred = |n: ModuleNode| name_matches(n, query@);
    let ghost name = |n: ModuleNode| n.name@;
    let n = graph_node_count(&graph.graph);
    let mut r: Vec<String> = Vec::new();
    let mut i: usize = 0;
    while i < n
        invariant
            n == graph.nodes().len(),
            i <= n,
            query_lower@ == lowercase(query@),
            pred == (|n: ModuleNode| name_matches(n, query@)),
            name == (|n: ModuleNode| n.name@),
            texts(r@) == graph.nodes().take(i as int).filter(pred).map_values(name),
        decreases n - i,
    {
        proof {
            assert(graph.nodes().take(i + 1).drop_last() =~= graph.nodes().take(i as int));
            reveal_with_fuel(Seq::filter, 1);
        }
        let node = graph_node(&graph.graph, i);
        let name_lower = to_lowercase(node.name.as_str());
        let found = contains(name_lower.as_str(), query_lower.as_str()) || fuzzy_match(
            name_lower.as_str(),
            query_lower.as_str(),
        );
        proof {
            if is_substring(query_lower@, name_lower@) {
                lemma_substring_is_subsequence(query_lower@, name_lower@);
            }
            assert(found == pred(*node));
        }
        if found {
            let ghost before = texts(r@);
            r.push(node.name.clone());
            assert(texts(r@) =~= before.push(name(*node)));
        }
        assert(texts(r@) =~= graph.nodes().take(i + 1).filter(pred).map_values(name));
        i = i + 1;
    }
    assert(graph.nodes().take(i as int) =~= graph.nodes());
    r
}

/// The lower-case `query` starts the lower-case `m`.
pub open spec fn prefix_match(m: String, query: Seq<char>) -> bool {
    lowercase(query).is_prefix_of(lowercase(m@))
}

/// `k` is the first candidate that the query starts.
pub open spec fn first_prefix_match(ms: Seq<String>, query: Seq<char>, k: int) -> bool {
    &&& 0 <= k < ms.len()
    &&& prefix_match(ms[k], query)
    &&& forall|j: int| 0 <= j < k ==> !#[trigger] prefix_match(ms[j], query)
}

/// The preferred candidate: the first one that the query starts, else the
/// first one; none when there are no candidates.
pub open spec fn best_match(ms: Seq<String>, query: Seq<char>) -> Option<String> {
    if ms.len() == 0 {
        None
    } else if exists|k: int| #[trigger] first_prefix_match(ms, query, k) {
        Some(ms[choose|k: int| #[trigger] first_prefix_match(ms, query, k)])
    } else {
        Some(ms[0])
    }
}

proof fn lemma_first_prefix_exists(ms: Seq<String>, query: Seq<char>, k: int)
    requires
        0 <= k < ms.len(),
        lowercase(query).is_prefix_of(lowercase(ms[k]@)),
    ensures
        exists|f: int| #[trigger] first_prefix_match(ms, query, f),
    decreases k,
{
    if exists|j: int| 0 <= j < k && #[trigger] prefix_match(ms[j], query) {
        let j = choose|j: int| 0 <= j < k && #[trigger] prefix_match(ms[j], query);
        lemma_first_prefix_exists(ms, query, j);
    } else {
        assert(first_prefix_match(ms, query, k));
    }
}

/// The preferred candidate ignores case: when some candidate's name, in
/// lower case, starts with the query in lower case, the result is the
/// first such candidate; when none does, it is the first candidate; with
/// no candidates there is none.
pub proof fn lemma_best_match_ignores_case(ms: Seq<String>, query: Seq<char>)
    ensures
        ms.len() == 0 ==> best_match(ms, query) is None,
        (exists|k: int| 0 <= k < ms.len() && lowercase(query).is_prefix_of(lowercase(#[trigger] ms[k]@)))
            ==> exists|k: int|
            0 <= k < ms.len() && best_match(ms, query) == Some(#[trigger] ms[k]) && lowercase(query).is_prefix_of(
                lowercase(ms[k]@),
            ) && forall|j: int| 0 <= j < k ==> !lowercase(query).is_prefix_of(lowercase(#[trigger] ms[j]@)),
        ms.len() > 0 && !(exists|k: int| 0 <= k < ms.len() && lowercase(query).is_prefix_of(lowercase(#[trigger] ms[k]@)))
            ==> best_match(ms, query) == Some(ms[0]),
{
    if exists|k: int| 0 <= k < ms.len() && lowercase(query).is_prefix_of(lowercase(#[trigger] ms[k]@)) {
        let k = choose|k: int| 0 <= k < ms.len() && lowercase(query).is_prefix_of(lowercase(#[trigger] ms[k]@));
        lemma_first_prefix_exists(ms, query, k);
        let f = choose|f: int| #[trigger] first_prefix_match(ms, query, f);
        assert(best_match(ms, query) == Some(ms[f]));
        assert forall|j: int| 0 <= j < f implies !lowercase(query).is_prefix_of(lowercase(#[trigger] ms[j]@)) by {
            assert(!prefix_match(ms[j], query));
        }
    } else if ms.len() > 0 {
        assert forall|f: int| !#[trigger] first_prefix_match(ms, query, f) by {
            if first_prefix_match(ms, query, f) {
                assert(lowercase(query).is_prefix_of(lowercase(ms[f]@)));
            }
        }
    }
}

/// Select the best match from a list of candidates.
///
/// Prefers exact prefix matches over substring or fuzzy matches.
pub fn get_best_match(matches: &[String], query: &str) -> (r: Option<String>)
    ensures
        r == best_match(matches@, query@),
{
    if matches.len() == 0 {
        return None;
    }
    let query_lower = to_lowercase(query);
    let mut i: usize = 0;
    while i < matches.len()
        invariant
            i <= matches@.len(),
            query_lower@ == lowercase(query@),
            forall|j: int| 0 <= j < i ==> !#[trigger] prefix_match(matches@[j], query@),
        decreases matches@.len() - i,
    {
        let lower = to_lowercase(matches[i].as_str());
        if starts_with(lower.as_str(), query_lower.as_str()) {
            proof {
                assert(first_prefix_match(matches@, query@, i as int));
                let k = choose|k: int| #[trigger] first_prefix_match(matches@, query@, k);
                if k < i {
                    assert(!prefix_match(matches@[k], query@));
                }
                if k > i {
                    assert(!prefix_match(matches@[i as int], query@));
                }
                assert(k == i);
            }
            return Some(matches[i].clone());
        }
        i = i + 1;
    }
    proof {
        assert forall|k: int| !#[trigger] first_prefix_match(matches@, query@, k) by {
            if first_prefix_match(matches@, query@, k) {
                assert(!prefix_match(matches@[k], query@));
            }
        }
    }
    Some(matches[0].clone())
}

} // verus!
