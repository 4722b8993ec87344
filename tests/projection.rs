use uav_telemetry::backoff::Backoff;
use uav_telemetry::telemetry::{Telemetry, UavStatus};

fn report(elevation: f64, heading: f64) -> Telemetry {
    Telemetry {
        sn: "U9".to_string(),
        latitude: 59.9f64.to_bits(),
        longitude: 10.7f64.to_bits(),
        height: 120.5f64.to_bits(),
        elevation: elevation.to_bits(),
        attitude_head: heading.to_bits(),
        horizontal_speed: 12.25f64.to_bits(),
        vertical_speed: (-1.5f64).to_bits(),
    }
}

#[test]
fn status_airborne_only_above_zero() {
    assert_eq!(UavStatus::get_status(1.0f64.to_bits()), "AIRBORNE");
    assert_eq!(UavStatus::get_status(f64::MIN_POSITIVE.to_bits()), "AIRBORNE");
    assert_eq!(UavStatus::get_status(5e-324f64.to_bits()), "AIRBORNE");
    assert_eq!(UavStatus::get_status(f64::INFINITY.to_bits()), "AIRBORNE");
    assert_eq!(UavStatus::get_status(0.0f64.to_bits()), "GROUNDED");
    assert_eq!(UavStatus::get_status((-0.0f64).to_bits()), "GROUNDED");
    assert_eq!(UavStatus::get_status((-3.0f64).to_bits()), "GROUNDED");
    assert_eq!(UavStatus::get_status(f64::NEG_INFINITY.to_bits()), "GROUNDED");
    assert_eq!(UavStatus::get_status(f64::NAN.to_bits()), "GROUNDED");
}

#[test]
fn projection_copies_fields() {
    let t = report(3.0, 90.0);
    let s = UavStatus::from_telemetry(&t, Some(45.0f64.to_bits()), Some("EAGLE1".to_string()), 1_700_000_000_123);
    assert_eq!(s.id, "U9");
    assert_eq!(s.call_sign, "EAGLE1");
    assert_eq!(f64::from_bits(s.latitude), 59.9);
    assert_eq!(f64::from_bits(s.longitude), 10.7);
    assert_eq!(f64::from_bits(s.altitude), 120.5);
    assert_eq!(s.status, "AIRBORNE");
    assert_eq!(f64::from_bits(s.course), 45.0);
    assert_eq!(f64::from_bits(s.ground_speed), 12.25);
    assert_eq!(f64::from_bits(s.vertical_rate), -1.5);
    assert_eq!(s.last_update_millis, 1_700_000_000_123);
}

#[test]
fn projection_defaults_call_sign_and_course() {
    let t = report(0.0, -135.5);
    let s = UavStatus::from_telemetry(&t, None, None, 0);
    assert_eq!(s.call_sign, "NFS Asker&Baerum");
    assert_eq!(s.status, "GROUNDED");
    assert_eq!(f64::from_bits(s.course), 135.5);
}

#[test]
fn backoff_doubles_up_to_cap() {
    let mut b = Backoff::new();
    let mut delays = Vec::new();
    for _ in 0..9 {
        delays.push(b.on_failure());
    }
    assert_eq!(delays, vec![1, 2, 4, 8, 16, 32, 60, 60, 60]);
}

#[test]
fn backoff_resets_after_success() {
    let mut b = Backoff::new();
    b.on_failure();
    b.on_failure();
    b.on_failure();
    assert_eq!(b.delay(), 8);
    b.on_success();
    assert_eq!(b.delay(), 1);
    assert_eq!(b.on_failure(), 1);
    assert_eq!(b.on_failure(), 2);
}
