use buswatch_types::Snapshot as BusSnapshot;
use neuronic::decode::{decode_snapshot, snapshot_from_parts};
use neuronic::snapshot::{ModuleMetrics, ReadMetrics, Snapshot, WriteMetrics};

fn encoded() -> Vec<u8> {
    let snapshot = BusSnapshot::builder()
        .timestamp_ms(1234)
        .module("producer", |m| m.write("events", |w| w.count(100).rate(2.5)))
        .module("consumer", |m| {
            m.read("events", |r| r.count(95).backlog(5).pending(std::time::Duration::from_millis(3)))
        })
        .build();
    minicbor_serde::to_vec(&snapshot).unwrap()
}

#[test]
fn decodes_counters_of_every_module() {
    let (snapshot, bus) = decode_snapshot(&encoded()).unwrap();
    assert_eq!(snapshot.timestamp_ms(), 1234);
    let modules = snapshot.modules();
    assert_eq!(modules.len(), 2);
    // Modules come in name order.
    assert_eq!(modules[0].0, "consumer");
    assert_eq!(modules[1].0, "producer");
    let reads = modules[0].1.reads();
    assert_eq!(reads.len(), 1);
    assert_eq!(reads[0].0, "events");
    assert_eq!(reads[0].1.count, 95);
    assert_eq!(reads[0].1.backlog, Some(5));
    assert_eq!(reads[0].1.pending_us, Some(3000));
    let writes = modules[1].1.writes();
    assert_eq!(writes[0].1.count, 100);
    assert_eq!(writes[0].1.pending_us, None);
    // The bus value keeps the rates.
    assert_eq!(bus.modules["producer"].writes["events"].rate, Some(2.5));
}

#[test]
fn bytes_that_are_not_a_snapshot_decode_to_nothing() {
    assert!(decode_snapshot(&[0xff, 0x00, 0x13]).is_none());
    assert!(decode_snapshot(&[]).is_none());
}

#[test]
fn snapshot_from_parts_keeps_the_given_modules() {
    let parts = vec![
        ("a".to_string(), vec![("t".to_string(), ReadMetrics { count: 3, backlog: Some(1), pending_us: None })], vec![]),
        ("b".to_string(), vec![], vec![("t".to_string(), WriteMetrics { count: 4, pending_us: Some(9) })]),
    ];
    let s = snapshot_from_parts(77, parts);
    assert_eq!(s.timestamp_ms(), 77);
    assert_eq!(s.len(), 2);
    assert_eq!(s.modules()[0].0, "a");
    assert_eq!(s.modules()[0].1.reads()[0].1.count, 3);
    assert_eq!(s.modules()[1].1.writes()[0].1.pending_us, Some(9));
}

#[test]
fn inserted_modules_stay_in_name_order() {
    let mut s = Snapshot::with_timestamp(0);
    for name in ["producer", "consumer", "b", "ba", "a"] {
        s.insert_module(name.to_string(), ModuleMetrics::new());
    }
    let names: Vec<&str> = s.modules().iter().map(|(n, _)| n.as_str()).collect();
    assert_eq!(names, vec!["a", "b", "ba", "consumer", "producer"]);
    // Inserting an existing name replaces its metrics in place.
    let mut m = ModuleMetrics::new();
    m.insert_read("t".to_string(), ReadMetrics { count: 5, backlog: None, pending_us: None });
    s.insert_module("b".to_string(), m);
    assert_eq!(s.len(), 5);
    assert_eq!(s.modules()[1].0, "b");
    assert_eq!(s.modules()[1].1.reads().len(), 1);
}
