use std::io::ErrorKind;
use tempmon::probe::{classify, discover_probes, is_sensor, Probe};
use tempmon::sensor::ReadError;
use tempmon::table::Table;

fn labels() -> Table<String> {
    let mut labels = Table::new();
    labels.insert("28-aaa".to_string(), "aaa-label".to_string());
    labels.insert("28-bbb".to_string(), "bbb-label".to_string());
    labels
}

fn offsets() -> Table<i32> {
    let mut offsets = Table::new();
    offsets.insert("28-aaa".to_string(), 500);
    offsets.insert("28-ccc".to_string(), -300);
    offsets
}

fn entries(names: &[&str]) -> Vec<String> {
    names.iter().map(|name| name.to_string()).collect()
}

#[test]
fn discovery_without_a_device_directory_finds_nothing() {
    let probes = discover_probes(None, &labels(), &offsets());
    assert!(probes.is_empty());
}

#[test]
fn discovery_of_an_empty_directory_finds_nothing() {
    let list = entries(&[]);
    let probes = discover_probes(Some(&list), &labels(), &offsets());
    assert!(probes.is_empty());
}

#[test]
fn discovery_selects_the_sensor_family_in_listing_order() {
    let list = entries(&["w1_bus_master1", "28-ccc", "10-abc", "28-aaa", "28", "x28-zzz", "28-"]);
    let probes = discover_probes(Some(&list), &labels(), &offsets());
    let ids: Vec<&str> = probes.iter().map(|probe| probe.id.as_str()).collect();
    assert_eq!(ids, vec!["28-ccc", "28-aaa", "28-"]);
}

#[test]
fn discovery_resolves_label_offset_and_path() {
    let list = entries(&["28-aaa", "28-bbb", "28-ccc", "28-ddd"]);
    let probes = discover_probes(Some(&list), &labels(), &offsets());
    assert_eq!(probes.len(), 4);

    assert_eq!(probes[0].id, "28-aaa");
    assert_eq!(probes[0].name, "aaa-label");
    assert_eq!(probes[0].offset, 500);
    assert_eq!(probes[0].path, "/sys/bus/w1/devices/28-aaa/w1_slave");

    assert_eq!(probes[1].name, "bbb-label");
    assert_eq!(probes[1].offset, 0);

    assert_eq!(probes[2].name, "28-ccc");
    assert_eq!(probes[2].offset, -300);

    assert_eq!(probes[3].name, "28-ddd");
    assert_eq!(probes[3].offset, 0);
    assert_eq!(probes[3].path, "/sys/bus/w1/devices/28-ddd/w1_slave");
}

#[test]
fn sensor_ids_begin_with_the_family_prefix() {
    assert!(is_sensor("28-0123456789ab"));
    assert!(is_sensor("28-"));
    assert!(!is_sensor("28"));
    assert!(!is_sensor(""));
    assert!(!is_sensor("29-0123"));
    assert!(!is_sensor(" 28-0123"));
}

#[test]
fn calibration_adds_the_offset() {
    let labels = labels();
    let offsets = offsets();
    let with_offset = Probe::resolve("28-aaa", &labels, &offsets);
    assert_eq!(with_offset.calibrate(21500), 22000);
    assert_eq!(with_offset.calibrate(-500), 0);
    let lowered = Probe::resolve("28-ccc", &labels, &offsets);
    assert_eq!(lowered.calibrate(21500), 21200);
    let plain = Probe::resolve("28-bbb", &labels, &offsets);
    assert_eq!(plain.calibrate(21500), 21500);
}

#[test]
fn calibration_cannot_overflow() {
    let mut offsets = Table::new();
    offsets.insert("28-max".to_string(), i32::MAX);
    offsets.insert("28-min".to_string(), i32::MIN);
    let labels = Table::new();
    let high = Probe::resolve("28-max", &labels, &offsets);
    assert_eq!(high.calibrate(i32::MAX), 2 * (i32::MAX as i64));
    let low = Probe::resolve("28-min", &labels, &offsets);
    assert_eq!(low.calibrate(i32::MIN), 2 * (i32::MIN as i64));
}

#[test]
fn resolution_goes_to_the_file_beside_the_status_file() {
    let probe = Probe::resolve("28-aaa", &labels(), &offsets());
    let write = probe.set_resolution(12);
    assert_eq!(write.path, "/sys/bus/w1/devices/28-aaa/resolution");
    assert_eq!(write.content, "12");
    assert_eq!(probe.set_resolution(9).content, "9");
    assert_eq!(probe.set_resolution(0).content, "0");
    assert_eq!(probe.set_resolution(255).content, "255");
}

#[test]
fn resolution_path_replaces_the_file_name_only() {
    let mut probe = Probe::resolve("28-aaa", &labels(), &offsets());
    probe.path = "w1_slave".to_string();
    assert_eq!(probe.set_resolution(10).path, "resolution");
    probe.path = "/dev/é/w1_slave/status".to_string();
    assert_eq!(probe.set_resolution(10).path, "/dev/é/w1_slave/resolution");
    probe.path = "/dev/sensor/".to_string();
    assert_eq!(probe.set_resolution(10).path, "/dev/sensor/resolution");
    probe.path = String::new();
    assert_eq!(probe.set_resolution(10).path, "resolution");
}

#[test]
fn failed_reads_are_classified() {
    assert_eq!(classify(ErrorKind::NotFound), ReadError::NotFound);
    assert_eq!(classify(ErrorKind::PermissionDenied), ReadError::PermissionDenied);
    assert_eq!(classify(ErrorKind::InvalidData), ReadError::InvalidData);
    assert_eq!(classify(ErrorKind::TimedOut), ReadError::Other);
    assert_eq!(classify(ErrorKind::UnexpectedEof), ReadError::Other);
    assert_eq!(classify(ErrorKind::Other), ReadError::Other);
}

#[test]
fn read_temperature_parses_what_was_read() {
    let probe = Probe::resolve("28-aaa", &labels(), &offsets());
    let text = "6d 01 55 05 7f a5 a5 66 3e : crc=3e YES\n6d 01 55 05 7f a5 a5 66 3e t=21500\n";
    assert_eq!(probe.read_temperature(Ok(text.to_string())), Ok(21500));
    assert_eq!(
        probe.read_temperature(Ok("6d : crc=3e NO\n6d t=21500\n".to_string())),
        Err(ReadError::InvalidData)
    );
    assert_eq!(probe.read_temperature(Ok(String::new())), Err(ReadError::InvalidData));
}

#[test]
fn read_temperature_passes_the_class_of_a_failure_on() {
    let probe = Probe::resolve("28-aaa", &labels(), &offsets());
    assert_eq!(probe.read_temperature(Err(ErrorKind::NotFound)), Err(ReadError::NotFound));
    assert_eq!(
        probe.read_temperature(Err(ErrorKind::PermissionDenied)),
        Err(ReadError::PermissionDenied)
    );
    assert_eq!(probe.read_temperature(Err(ErrorKind::InvalidData)), Err(ReadError::InvalidData));
    assert_eq!(probe.read_temperature(Err(ErrorKind::Interrupted)), Err(ReadError::Other));
}
