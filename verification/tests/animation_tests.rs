use neuronic::animations::{detect_activity, totals_in_range, ActivityCounts, ActivityEvent};
use neuronic::snapshot::{ModuleMetrics, ReadMetrics, Snapshot, WriteMetrics};

fn writer(topic: &str, count: u64) -> ModuleMetrics {
    let mut m = ModuleMetrics::new();
    m.insert_write(topic.to_string(), WriteMetrics { count, pending_us: None });
    m
}

fn reader(topic: &str, count: u64) -> ModuleMetrics {
    let mut m = ModuleMetrics::new();
    m.insert_read(topic.to_string(), ReadMetrics { count, backlog: None, pending_us: None });
    m
}

fn snapshot_of(modules: Vec<(&str, ModuleMetrics)>) -> Snapshot {
    let mut s = Snapshot::with_timestamp(0);
    for (name, m) in modules {
        s.insert_module(name.to_string(), m);
    }
    s
}

fn fired(events: &[ActivityEvent], module: &str) -> Option<u64> {
    events.iter().find_map(|e| match e {
        ActivityEvent::Fire { module: m, delta } if m == module => Some(*delta),
        _ => None,
    })
}

#[test]
fn test_detect_activity_increases_fire_intensity() {
    let snapshot = snapshot_of(vec![("test_module", writer("topic", 200))]);
    let mut counts = ActivityCounts::new();
    counts.set_last_count("test_module".to_string(), 100); // Previous count

    let events = detect_activity(&snapshot, &mut counts, false);

    // Delta is 200 - 100 = 100, so the module fires
    assert_eq!(fired(&events, "test_module"), Some(100));
    // Last count should be updated
    assert_eq!(counts.last_count(&"test_module".to_string()), 200);
}

#[test]
fn test_detect_activity_spawns_pulse_ring_for_heavy_activity() {
    let snapshot = snapshot_of(vec![("heavy_module", writer("topic", 200))]);
    let mut counts = ActivityCounts::new();
    counts.set_last_count("heavy_module".to_string(), 100); // Delta will be 100 > 50

    let events = detect_activity(&snapshot, &mut counts, true);

    // Should have spawned a pulse ring
    assert_eq!(counts.ring_count(&"heavy_module".to_string()), 1);
    let pulses: Vec<&ActivityEvent> =
        events.iter().filter(|e| matches!(e, ActivityEvent::Pulse { .. })).collect();
    assert_eq!(pulses.len(), 1);
    match pulses[0] {
        ActivityEvent::Pulse { module, delta } => {
            assert_eq!(module, "heavy_module");
            assert_eq!(*delta, 100);
        }
        _ => unreachable!(),
    }
}

#[test]
fn test_detect_activity_no_pulse_ring_when_disabled() {
    let snapshot = snapshot_of(vec![("heavy_module", writer("topic", 200))]);
    let mut counts = ActivityCounts::new();
    counts.set_last_count("heavy_module".to_string(), 100);

    let events = detect_activity(&snapshot, &mut counts, false);

    assert_eq!(counts.ring_count(&"heavy_module".to_string()), 0);
    assert!(!events.iter().any(|e| matches!(e, ActivityEvent::Pulse { .. })));
}

#[test]
fn test_detect_activity_spawns_synapse_particles() {
    let snapshot = snapshot_of(vec![("producer", writer("events", 200)), ("consumer", reader("events", 100))]);
    let mut counts = ActivityCounts::new();
    counts.set_last_count("producer".to_string(), 100); // Delta of 100 for producer

    let events = detect_activity(&snapshot, &mut counts, false);

    // Should have particles on the edge from producer to consumer
    let key = ("producer".to_string(), "consumer".to_string(), "events".to_string());
    assert!(counts.particle_count(&key) > 0);
    assert!(events.iter().any(|e| matches!(e, ActivityEvent::Particles { source, target, topic, count }
        if source == "producer" && target == "consumer" && topic == "events" && *count > 0)));
}

#[test]
fn test_detect_activity_no_change_when_count_same() {
    let snapshot = snapshot_of(vec![("stable_module", writer("topic", 100))]);
    let mut counts = ActivityCounts::new();
    counts.set_last_count("stable_module".to_string(), 100); // Same as snapshot

    let events = detect_activity(&snapshot, &mut counts, true);

    // No firing, so no effect at all
    assert!(events.is_empty());
    // No pulse rings
    assert_eq!(counts.ring_count(&"stable_module".to_string()), 0);
}

#[test]
fn test_detect_activity_creates_new_activity_entry() {
    let snapshot = snapshot_of(vec![("new_module", writer("topic", 50))]);
    let mut counts = ActivityCounts::new();

    detect_activity(&snapshot, &mut counts, false);

    assert_eq!(counts.last_count(&"new_module".to_string()), 50);
}

#[test]
fn particles_per_burst_and_per_edge_limit() {
    let snapshot = snapshot_of(vec![("p", writer("t", 1000)), ("c", reader("t", 0))]);
    let key = ("p".to_string(), "c".to_string(), "t".to_string());
    let mut counts = ActivityCounts::new();
    // A burst of 1000 asks for 20 particles, capped at 5.
    let events = detect_activity(&snapshot, &mut counts, false);
    assert_eq!(counts.particle_count(&key), 5);
    assert!(events.iter().any(|e| matches!(e, ActivityEvent::Particles { count: 5, .. })));
    // Close to the per-connection limit only the room left is filled.
    counts.set_particle_count(key.clone(), 48);
    let more = snapshot_of(vec![("p", writer("t", 2000)), ("c", reader("t", 0))]);
    detect_activity(&more, &mut counts, false);
    assert_eq!(counts.particle_count(&key), 50);
    // A full connection gets nothing.
    let again = snapshot_of(vec![("p", writer("t", 3000)), ("c", reader("t", 0))]);
    let events = detect_activity(&again, &mut counts, false);
    assert_eq!(counts.particle_count(&key), 50);
    assert!(!events.iter().any(|e| matches!(e, ActivityEvent::Particles { .. })));
}

#[test]
fn no_particles_once_total_limit_reached() {
    let snapshot = snapshot_of(vec![("p", writer("t", 100)), ("c", reader("t", 0))]);
    let mut counts = ActivityCounts::new();
    counts.set_particle_count(("x".to_string(), "y".to_string(), "z".to_string()), 5000);
    let events = detect_activity(&snapshot, &mut counts, false);
    assert_eq!(counts.particle_count(&("p".to_string(), "c".to_string(), "t".to_string())), 0);
    assert_eq!(events.len(), 1); // only the firing
}

#[test]
fn pulse_rings_are_capped_at_three() {
    let mut counts = ActivityCounts::new();
    for round in 1..=5u64 {
        let snapshot = snapshot_of(vec![("m", writer("t", round * 100))]);
        detect_activity(&snapshot, &mut counts, true);
    }
    assert_eq!(counts.ring_count(&"m".to_string()), 3);
}

#[test]
fn particles_stop_at_the_total_limit() {
    // 4999 particles in flight: a growth of 250 would spawn 5, but only one
    // fits under the total of 5000.
    let snapshot = snapshot_of(vec![("p", writer("t", 250)), ("c", reader("t", 0))]);
    let mut counts = ActivityCounts::new();
    counts.set_particle_count(("x".to_string(), "y".to_string(), "z".to_string()), 4999);
    let events = detect_activity(&snapshot, &mut counts, false);
    assert_eq!(counts.particle_count(&("p".to_string(), "c".to_string(), "t".to_string())), 1);
    assert!(events.iter().any(|e| matches!(e, ActivityEvent::Particles { count: 1, .. })));
}

#[test]
fn totals_in_range_detects_overflowing_modules() {
    let ok = snapshot_of(vec![("p", writer("t", 100)), ("c", reader("t", 7))]);
    assert!(totals_in_range(&ok));
    let mut m = writer("t", u64::MAX);
    m.insert_read("u".to_string(), ReadMetrics { count: 1, backlog: None, pending_us: None });
    let overflowing = snapshot_of(vec![("m", m)]);
    assert!(!totals_in_range(&overflowing));
    let mut w = writer("a", u64::MAX);
    w.insert_write("b".to_string(), WriteMetrics { count: 1, pending_us: None });
    assert!(!totals_in_range(&snapshot_of(vec![("w", w)])));
}
