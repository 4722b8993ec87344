use rusqlite::Connection;
use uav_telemetry::callsign::{CallsignCache, CallsignService};

fn shared_store(name: &str) -> (String, Connection) {
    let uri = format!("file:{}?mode=memory&cache=shared", name);
    let conn = Connection::open(&uri).unwrap();
    conn.execute(
        "CREATE TABLE uav_callsigns (serial_number TEXT PRIMARY KEY, callsign TEXT NOT NULL)",
        [],
    )
    .unwrap();
    (uri, conn)
}

#[test]
fn cache_insert_and_get() {
    let mut cache = CallsignCache::new();
    assert_eq!(cache.get("A"), None);
    cache.insert("A".to_string(), "ALPHA".to_string());
    cache.insert("B".to_string(), "BRAVO".to_string());
    assert_eq!(cache.get("A"), Some("ALPHA".to_string()));
    cache.insert("A".to_string(), "ALPHA2".to_string());
    assert_eq!(cache.get("A"), Some("ALPHA2".to_string()));
    assert_eq!(cache.get("B"), Some("BRAVO".to_string()));
    assert_eq!(cache.get("C"), None);
}

#[test]
fn cache_from_rows_later_row_wins() {
    let cache = CallsignCache::from_rows(vec![
        ("A".to_string(), "ONE".to_string()),
        ("A".to_string(), "TWO".to_string()),
    ]);
    assert_eq!(cache.get("A"), Some("TWO".to_string()));
}

#[test]
fn preload_fills_cache() {
    let (uri, conn) = shared_store("preload_fills_cache");
    conn.execute("INSERT INTO uav_callsigns VALUES ('SN1', 'HAWK')", []).unwrap();
    let mut service = CallsignService::new(&uri).unwrap();
    conn.execute("DELETE FROM uav_callsigns", []).unwrap();
    assert_eq!(service.get_callsign("SN1"), Some("HAWK".to_string()));
}

#[test]
fn second_lookup_is_cache_hit() {
    let (uri, conn) = shared_store("second_lookup_is_cache_hit");
    let mut service = CallsignService::new(&uri).unwrap();
    conn.execute("INSERT INTO uav_callsigns VALUES ('SN2', 'RAVEN')", []).unwrap();
    assert_eq!(service.get_callsign("SN2"), Some("RAVEN".to_string()));
    conn.execute("DELETE FROM uav_callsigns", []).unwrap();
    assert_eq!(service.get_callsign("SN2"), Some("RAVEN".to_string()));
}

#[test]
fn miss_is_not_cached() {
    let (uri, conn) = shared_store("miss_is_not_cached");
    let mut service = CallsignService::new(&uri).unwrap();
    assert_eq!(service.get_callsign("SN3"), None);
    conn.execute("INSERT INTO uav_callsigns VALUES ('SN3', 'FALCON')", []).unwrap();
    assert_eq!(service.get_callsign("SN3"), Some("FALCON".to_string()));
}

#[test]
fn missing_table_resolves_to_none() {
    let mut service = CallsignService::new("file:missing_table?mode=memory&cache=shared").unwrap();
    assert_eq!(service.get_callsign("SN4"), None);
}
