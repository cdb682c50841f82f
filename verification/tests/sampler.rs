use std::io::ErrorKind;
use prometheus::{CounterVec, GaugeVec, Opts, Registry};
use tempmon::cache::TemperatureCache;
use tempmon::probe::{discover_probes, Probe};
use tempmon::sampler::{record_sample, Action, SampleEvent, Schedule};
use tempmon::sensor::ReadError;
use tempmon::table::Table;

fn two_probes() -> Vec<Probe> {
    let mut labels = Table::new();
    labels.insert("28-aaa".to_string(), "aaa-label".to_string());
    labels.insert("28-bbb".to_string(), "bbb-label".to_string());
    let mut offsets = Table::new();
    offsets.insert("28-aaa".to_string(), 500);
    let list = vec!["28-aaa".to_string(), "28-bbb".to_string()];
    discover_probes(Some(&list), &labels, &offsets)
}

fn listing(cache: &TemperatureCache) -> Vec<(String, Option<i64>)> {
    let mut out = Vec::new();
    for i in 0..cache.len() {
        out.push((cache.name_at(i).to_string(), cache.reading_at(i)));
    }
    out
}

#[test]
fn cache_starts_with_every_probe_absent() {
    let probes = two_probes();
    let cache = TemperatureCache::new(&probes);
    assert_eq!(cache.len(), 2);
    assert_eq!(cache.get("aaa-label"), Some(None));
    assert_eq!(cache.get("bbb-label"), Some(None));
    assert_eq!(cache.get("28-aaa"), None);
}

#[test]
fn cache_of_no_probes_is_empty() {
    let cache = TemperatureCache::new(&[]);
    assert_eq!(cache.len(), 0);
    assert_eq!(cache.get(""), None);
}

#[test]
fn cache_holds_one_entry_for_probes_that_share_a_name() {
    let mut labels = Table::new();
    labels.insert("28-aaa".to_string(), "attic".to_string());
    labels.insert("28-bbb".to_string(), "attic".to_string());
    let list = vec!["28-aaa".to_string(), "28-bbb".to_string()];
    let probes = discover_probes(Some(&list), &labels, &Table::new());
    let cache = TemperatureCache::new(&probes);
    assert_eq!(cache.len(), 1);
    assert_eq!(cache.get("attic"), Some(None));
}

#[test]
fn cache_record_replaces_known_names_only() {
    let mut cache = TemperatureCache::new(&two_probes());
    assert!(cache.record("aaa-label", Some(21000)));
    assert!(!cache.record("ccc-label", Some(1)));
    assert_eq!(
        listing(&cache),
        vec![("aaa-label".to_string(), Some(21000)), ("bbb-label".to_string(), None)]
    );
    assert!(cache.record("aaa-label", None));
    assert_eq!(cache.get("aaa-label"), Some(None));
    assert_eq!(cache.len(), 2);
}

#[test]
fn cache_snapshot_is_independent() {
    let mut cache = TemperatureCache::new(&two_probes());
    cache.record("aaa-label", Some(1));
    let snapshot = cache.snapshot();
    cache.record("aaa-label", Some(2));
    assert_eq!(snapshot.get("aaa-label"), Some(Some(1)));
    assert_eq!(cache.get("aaa-label"), Some(Some(2)));
    assert_eq!(listing(&snapshot).len(), 2);
}

#[test]
fn sample_of_a_reading_is_calibrated_and_cached() {
    let probes = two_probes();
    let mut cache = TemperatureCache::new(&probes);
    let event = record_sample(&mut cache, &probes[0], Ok(21500));
    assert_eq!(event, SampleEvent::Measured { raw: 21500, calibrated: 22000 });
    assert_eq!(cache.get("aaa-label"), Some(Some(22000)));
    assert_eq!(cache.get("bbb-label"), Some(None));
}

#[test]
fn sample_without_offset_is_cached_raw() {
    let probes = two_probes();
    let mut cache = TemperatureCache::new(&probes);
    let event = record_sample(&mut cache, &probes[1], Ok(-10562));
    assert_eq!(event, SampleEvent::Measured { raw: -10562, calibrated: -10562 });
    assert_eq!(cache.get("bbb-label"), Some(Some(-10562)));
}

#[test]
fn sample_of_a_failure_clears_the_entry() {
    let probes = two_probes();
    let mut cache = TemperatureCache::new(&probes);
    record_sample(&mut cache, &probes[0], Ok(21500));
    let event = record_sample(&mut cache, &probes[0], Err(ReadError::InvalidData));
    assert_eq!(event, SampleEvent::Failed { class: ReadError::InvalidData });
    assert_eq!(cache.get("aaa-label"), Some(None));
}

#[test]
fn a_failing_probe_leaves_the_others_alone() {
    let probes = two_probes();
    for failing_first in [true, false] {
        let mut cache = TemperatureCache::new(&probes);
        if failing_first {
            record_sample(&mut cache, &probes[1], Err(ReadError::NotFound));
            record_sample(&mut cache, &probes[0], Ok(20000));
        } else {
            record_sample(&mut cache, &probes[0], Ok(20000));
            record_sample(&mut cache, &probes[1], Err(ReadError::NotFound));
        }
        assert_eq!(cache.get("aaa-label"), Some(Some(20500)));
        assert_eq!(cache.get("bbb-label"), Some(None));
        assert_eq!(cache.len(), 2);
    }
}

#[test]
fn the_last_sample_of_a_probe_wins() {
    let probes = two_probes();
    let mut cache = TemperatureCache::new(&probes);
    for raw in [1000, 2000, 3000] {
        record_sample(&mut cache, &probes[1], Ok(raw));
    }
    assert_eq!(cache.get("bbb-label"), Some(Some(3000)));
    assert_eq!(cache.len(), 2);
}

#[test]
fn a_sample_for_an_unknown_probe_changes_nothing() {
    let probes = two_probes();
    let mut cache = TemperatureCache::new(&probes[..1]);
    let event = record_sample(&mut cache, &probes[1], Ok(5));
    assert_eq!(event, SampleEvent::Measured { raw: 5, calibrated: 5 });
    assert_eq!(listing(&cache), vec![("aaa-label".to_string(), None)]);
}

#[test]
fn one_tick_end_to_end() {
    let probes = two_probes();
    let mut cache = TemperatureCache::new(&probes);

    let registry = Registry::new();
    let calibrated =
        GaugeVec::new(Opts::new("dash_temp_readings", "calibrated readings"), &["probe"]).unwrap();
    let raw = GaugeVec::new(Opts::new("dash_temp_raw_readings", "raw readings"), &["probe"])
        .unwrap();
    let failures = CounterVec::new(
        Opts::new("dash_temp_read_errors_total", "failed reads"),
        &["probe", "error_type"],
    )
    .unwrap();
    registry.register(Box::new(calibrated.clone())).unwrap();
    registry.register(Box::new(raw.clone())).unwrap();
    registry.register(Box::new(failures.clone())).unwrap();

    let reads = vec![
        Ok("aa : crc=3e YES\naa t=21500\n".to_string()),
        Err(ErrorKind::PermissionDenied),
    ];
    for (probe, read) in probes.iter().zip(reads) {
        let outcome = probe.read_temperature(read);
        match record_sample(&mut cache, probe, outcome) {
            SampleEvent::Measured { raw: value, calibrated: corrected } => {
                raw.with_label_values(&[&probe.name]).set(value as f64 / 1000.0);
                calibrated.with_label_values(&[&probe.name]).set(corrected as f64 / 1000.0);
            }
            SampleEvent::Failed { class } => {
                failures.with_label_values(&[&probe.name, class.label()]).inc();
            }
        }
    }

    assert_eq!(
        listing(&cache),
        vec![("aaa-label".to_string(), Some(22000)), ("bbb-label".to_string(), None)]
    );
    assert_eq!(calibrated.with_label_values(&["aaa-label"]).get(), 22.0);
    assert_eq!(raw.with_label_values(&["aaa-label"]).get(), 21.5);
    assert_eq!(failures.with_label_values(&["bbb-label", "permission_denied"]).get(), 1.0);
    assert_eq!(failures.with_label_values(&["aaa-label", "permission_denied"]).get(), 0.0);
}

#[test]
fn schedule_reads_every_probe_then_sleeps() {
    let mut schedule = Schedule::new(3, 15);
    for _ in 0..4 {
        assert_eq!(schedule.advance(), Action::Read { probe: 0 });
        assert_eq!(schedule.advance(), Action::Read { probe: 1 });
        assert_eq!(schedule.advance(), Action::Read { probe: 2 });
        assert_eq!(schedule.advance(), Action::Sleep { seconds: 15 });
    }
}

#[test]
fn schedule_without_probes_only_sleeps() {
    let mut schedule = Schedule::new(0, 30);
    for _ in 0..3 {
        assert_eq!(schedule.advance(), Action::Sleep { seconds: 30 });
    }
}
