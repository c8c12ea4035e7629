//! Decoding the monitor snapshots that arrive from the message bus.
//!
//! Each delivery carries one snapshot encoded as CBOR in the shared
//! buswatch format. `minicbor_serde` decodes it into the bus's own value,
//! whose modules and topics are kept in maps ordered by name. The library
//! takes the counters out of it as plain lists, one entry per module and
//! topic in that order, and builds its snapshot from them; the decoded bus
//! value is handed back as well, for the message rates that the viewer
//! shows beside the graph.
use vstd::prelude::*;
use crate::snapshot::{keys_sorted, keys_unique, metrics_valid, ModuleMetrics, ReadMetrics, Snapshot, WriteMetrics};
use crate::text::text_lt;
use buswatch_types::Snapshot as BusSnapshot;

verus! {

#[verifier::external_type_specification]
#[verifier::external_body]
pub struct ExBusSnapshot(BusSnapshot);

/// One module as decoded: its name, its read counters by topic and its
/// write counters by topic.
pub type ModuleParts = (String, Vec<(String, ReadMetrics)>, Vec<(String, WriteMetrics)>);

/// A module's name and counters, as text.
pub type ModuleText = (Seq<char>, Seq<(Seq<char>, ReadMetrics)>, Seq<(Seq<char>, WriteMetrics)>);

/// Keyed entries with their keys as text.
pub open spec fn entries_text<V>(s: Seq<(String, V)>) -> Seq<(Seq<char>, V)> {
    s.map_values(|e: (String, V)| (e.0@, e.1))
}

/// Decoded modules as text.
pub open spec fn parts_text(p: Seq<ModuleParts>) -> Seq<ModuleText> {
    p.map_values(|e: ModuleParts| (e.0@, entries_text(e.1@), entries_text(e.2@)))
}

/// A snapshot's modules as text.
pub open spec fn modules_text(m: Seq<(String, ModuleMetrics)>) -> Seq<ModuleText> {
    m.map_values(|e: (String, ModuleMetrics)| (e.0@, entries_text(e.1.reads_spec()), entries_text(e.1.writes_spec())))
}

/// Module names are distinct, and so are the topics of each module's
/// reads and of its writes.
pub open spec fn parts_unique(p: Seq<ModuleParts>) -> bool {
    &&& forall|i: int, j: int| 0 <= i < p.len() && 0 <= j < p.len() && i != j ==> #[trigger] p[i].0@ != #[trigger] p[j].0@
    &&& forall|i: int| 0 <= i < p.len() ==> keys_unique(#[trigger] p[i].1@) && keys_unique(p[i].2@)
}

/// The module names come in strictly increasing order.
pub open spec fn names_sorted(p: Seq<ModuleText>) -> bool {
    forall|i: int, j: int| 0 <= i < j < p.len() ==> text_lt(#[trigger] p[i].0, #[trigger] p[j].0)
}

/// The timestamp and modules that a CBOR-encoded buswatch snapshot holds,
/// each module with its read and write counters as the encoding gives them;
/// none when the bytes do not decode to a snapshot.
pub uninterp spec fn cbor_parts(bytes: Seq<u8>) -> Option<(u64, Seq<ModuleText>)>;

/// Calls `minicbor_serde::from_slice::<buswatch_types::Snapshot>` and lists
/// the decoded modules and their topics one for one, in the order of the
/// decoded maps. The contract says that the list is what the bytes hold, as
/// a function of the bytes alone, and that nothing is returned exactly when
/// decoding fails. Since the decoded modules and topics are map keys, names
/// and topics are distinct, and the maps are ordered by name, which for
/// strings is the order of `text_lt`. It says nothing of the bus value
/// returned beside the list, which carries the rates.
#[verifier::external_body]
fn cbor_decode(bytes: &[u8]) -> (r: Option<(u64, Vec<ModuleParts>, BusSnapshot)>)
    ensures
        match r {
            Some((ts, parts, _)) => {
                &&& cbor_parts(bytes@) == Some((ts, parts_text(parts@)))
                &&& parts_unique(parts@)
                &&& names_sorted(parts_text(parts@))
            },
            None => cbor_parts(bytes@) is None,
        },
{
    let bus = minicbor_serde::from_slice::<BusSnapshot>(bytes).ok()?;
    let parts = bus.modules.iter().map(|(name, m)| (
        name.clone(),
        m.reads.iter().map(|(t, r)| (t.clone(), ReadMetrics { count: r.count, backlog: r.backlog, pending_us: r.pending.map(|p| p.0) })).collect(),
        m.writes.iter().map(|(t, w)| (t.clone(), WriteMetrics { count: w.count, pending_us: w.pending.map(|p| p.0) })).collect(),
    )).collect();
    Some((bus.timestamp_ms, parts, bus))
}

/// The snapshot taken at `timestamp_ms` of the given modules, which come in
/// increasing order of name, each with the given read and write counters.
pub fn snapshot_from_parts(timestamp_ms: u64, parts: Vec<ModuleParts>) -> (s: Snapshot)
    requires
        parts_unique(parts@),
        names_sorted(parts_text(parts@)),
    ensures
        s.timestamp_spec() == timestamp_ms,
        s.modules_spec().len() == parts@.len(),
        forall|i: int|
            0 <= i < parts@.len() ==> {
                &&& #[trigger] s.modules_spec()[i].0 == parts@[i].0
                &&& s.modules_spec()[i].1.reads_spec() == parts@[i].1@
                &&& s.modules_spec()[i].1.writes_spec() == parts@[i].2@
            },
{
    let ghost orig = parts@;
    let mut rest = parts;
    let mut modules: Vec<(String, ModuleMetrics)> = Vec::new();
    while rest.len() > 0
        invariant
            parts_unique(orig),
            names_sorted(parts_text(orig)),
            modules@.len() <= orig.len(),
            rest@ == orig.skip(modules@.len() as int),
            forall|i: int|
                0 <= i < modules@.len() ==> {
                    &&& #[trigger] modules@[i].0 == orig[i].0
                    &&& modules@[i].1.reads_spec() == orig[i].1@
                    &&& modules@[i].1.writes_spec() == orig[i].2@
                },
        decreases rest@.len(),
    {
        let ghost k = modules@.len() as int;
        assert(rest@[0] == orig[k]);
        let (name, reads, writes) = rest.remove(0);
        assert(keys_unique(orig[k].1@));
        let m = ModuleMetrics::from_entries(reads, writes);
        let ghost before = modules@;
        modules.push((name, m));
        assert(rest@ =~= orig.skip(modules@.len() as int));
        assert forall|i: int| 0 <= i < modules@.len() implies {
            &&& #[trigger] modules@[i].0 == orig[i].0
            &&& modules@[i].1.reads_spec() == orig[i].1@
            &&& modules@[i].1.writes_spec() == orig[i].2@
        } by {
            if i < k {
                assert(modules@[i] == before[i]);
            }
        }
    }
    assert(modules@.len() == orig.len());
    assert forall|i: int, j: int| 0 <= i < modules@.len() && 0 <= j < modules@.len() && i != j implies #[trigger] modules@[i].0@
        != #[trigger] modules@[j].0@ by {
        assert(modules@[i].0 == orig[i].0 && modules@[j].0 == orig[j].0);
        assert(orig[i].0@ != orig[j].0@);
    }
    assert forall|i: int, j: int| 0 <= i < j < modules@.len() implies text_lt(
        #[trigger] modules@[i].0@,
        #[trigger] modules@[j].0@,
    ) by {
        assert(modules@[i].0 == orig[i].0 && modules@[j].0 == orig[j].0);
        assert(parts_text(orig)[i].0 == orig[i].0@ && parts_text(orig)[j].0 == orig[j].0@);
    }
    assert(keys_sorted(modules@));
    assert forall|i: int| 0 <= i < modules@.len() implies metrics_valid(#[trigger] modules@[i].1) by {
        assert(modules@[i].0 == orig[i].0);
        assert(keys_unique(orig[i].1@) && keys_unique(orig[i].2@));
    }
    Snapshot::from_modules(timestamp_ms, modules)
}

/// Decodes one delivery from the bus: the snapshot that its bytes hold, its
/// modules in name order, together with the decoded bus value (for rates);
/// none when the bytes are not a snapshot, in which case the delivery is
/// skipped.
pub fn decode_snapshot(bytes: &[u8]) -> (r: Option<(Snapshot, BusSnapshot)>)
    ensures
        match r {
            Some((s, _)) => {
                &&& cbor_parts(bytes@) is Some
                &&& s.timestamp_spec() == cbor_parts(bytes@)->Some_0.0
                &&& modules_text(s.modules_spec()) == cbor_parts(bytes@)->Some_0.1
                &&& names_sorted(modules_text(s.modules_spec()))
            },
            None => cbor_parts(bytes@) is None,
        },
{
    match cbor_decode(bytes) {
        Some((ts, parts, bus)) => {
            let ghost pv = parts@;
            let s = snapshot_from_parts(ts, parts);
            assert(modules_text(s.modules_spec()) =~= parts_text(pv));
            Some((s, bus))
        },
        None => None,
    }
}

} // verus!
