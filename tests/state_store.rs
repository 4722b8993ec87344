use uav_telemetry::buffer::TelemetryBuffer;
use uav_telemetry::telemetry::Telemetry;

fn report(sn: &str, latitude: f64, longitude: f64, height: f64) -> Telemetry {
    Telemetry {
        sn: sn.to_string(),
        latitude: latitude.to_bits(),
        longitude: longitude.to_bits(),
        height: height.to_bits(),
        elevation: height.to_bits(),
        attitude_head: 0.0f64.to_bits(),
        horizontal_speed: 0.0f64.to_bits(),
        vertical_speed: 0.0f64.to_bits(),
    }
}

#[test]
fn first_update_has_no_previous() {
    let mut buffer = TelemetryBuffer::new();
    buffer.update(report("U1", 60.0, 10.0, 50.0), 100);
    let all = buffer.get_all_uavs();
    assert_eq!(all.len(), 1);
    assert_eq!(all[0].current.sn, "U1");
    assert_eq!(f64::from_bits(all[0].current.latitude), 60.0);
    assert!(all[0].previous.is_none());
    assert_eq!(all[0].last_seen, 100);
}

#[test]
fn updates_shift_current_to_previous() {
    let mut buffer = TelemetryBuffer::new();
    buffer.update(report("U1", 1.0, 0.0, 0.0), 10);
    buffer.update(report("U1", 2.0, 0.0, 0.0), 20);
    buffer.update(report("U1", 3.0, 0.0, 0.0), 30);
    let all = buffer.get_all_uavs();
    assert_eq!(all.len(), 1);
    assert_eq!(f64::from_bits(all[0].current.latitude), 3.0);
    let previous = all[0].previous.as_ref().unwrap();
    assert_eq!(f64::from_bits(previous.latitude), 2.0);
    assert_eq!(all[0].last_seen, 30);
}

#[test]
fn duplicate_report_still_shifts() {
    let mut buffer = TelemetryBuffer::new();
    buffer.update(report("U1", 1.0, 2.0, 3.0), 10);
    buffer.update(report("U1", 1.0, 2.0, 3.0), 11);
    let all = buffer.get_all_uavs();
    assert_eq!(all.len(), 1);
    assert!(all[0].previous.is_some());
    assert_eq!(all[0].last_seen, 11);
}

#[test]
fn units_are_tracked_separately() {
    let mut buffer = TelemetryBuffer::new();
    buffer.update(report("A", 1.0, 0.0, 0.0), 1);
    buffer.update(report("B", 2.0, 0.0, 0.0), 2);
    buffer.update(report("A", 3.0, 0.0, 0.0), 3);
    let all = buffer.get_all_uavs();
    assert_eq!(all.len(), 2);
    let a = all.iter().find(|s| s.current.sn == "A").unwrap();
    let b = all.iter().find(|s| s.current.sn == "B").unwrap();
    assert_eq!(f64::from_bits(a.current.latitude), 3.0);
    assert_eq!(f64::from_bits(a.previous.as_ref().unwrap().latitude), 1.0);
    assert!(b.previous.is_none());
}

#[test]
fn eviction_removes_exactly_stale_units() {
    let mut buffer = TelemetryBuffer::new();
    buffer.update(report("old", 0.0, 0.0, 0.0), 1_000);
    buffer.update(report("edge", 0.0, 0.0, 0.0), 2_000);
    buffer.update(report("young", 0.0, 0.0, 0.0), 2_001);
    buffer.update(report("future", 0.0, 0.0, 0.0), 40_000);
    buffer.cleanup_stale_uavs(30_000, 32_000);
    let all = buffer.get_all_uavs();
    let names: Vec<&str> = all.iter().map(|s| s.current.sn.as_str()).collect();
    assert_eq!(names, vec!["young", "future"]);
}

#[test]
fn evicted_unit_returns_as_fresh_arrival() {
    let mut buffer = TelemetryBuffer::new();
    buffer.update(report("U1", 1.0, 0.0, 0.0), 0);
    buffer.cleanup_stale_uavs(30, 31);
    assert!(buffer.get_all_uavs().is_empty());
    buffer.update(report("U1", 2.0, 0.0, 0.0), 40);
    let all = buffer.get_all_uavs();
    assert_eq!(all.len(), 1);
    assert!(all[0].previous.is_none());
}

#[test]
fn eviction_on_empty_store() {
    let mut buffer = TelemetryBuffer::new();
    buffer.cleanup_stale_uavs(30_000, u64::MAX);
    assert!(buffer.get_all_uavs().is_empty());
}
