use nexus_chain::consensus::iso_logger::{IsoLogEntry, IsoLogger};
use sha2::Digest;

fn sha_hex(s: &str) -> String {
    hex::encode(sha2::Sha256::digest(s.as_bytes()))
}

#[test]
fn entries_are_hash_chained() {
    let mut log = IsoLogger::new("/tmp/audit.log");
    assert_eq!(log.path(), "/tmp/audit.log");
    let line1 = log.log_at("bft", "say \"hi\"\n", "2024-01-01T00:00:00+00:00");
    let body1 = "{\"seq\":1,\"timestamp\":\"2024-01-01T00:00:00+00:00\",\"component\":\"bft\",\"message\":\"say \\\"hi\\\"\\n\",\"prev_hash\":\"0\",\"hash\":\"\"}";
    let h1 = sha_hex(body1);
    assert_eq!(line1, body1.replace("\"hash\":\"\"", &format!("\"hash\":\"{}\"", h1)));
    let line2 = log.log_at("pos", "x\u{1}", "t2");
    let body2 = format!("{{\"seq\":2,\"timestamp\":\"t2\",\"component\":\"pos\",\"message\":\"x\\u0001\",\"prev_hash\":\"{}\",\"hash\":\"\"}}", h1);
    let h2 = sha_hex(&body2);
    assert_eq!(line2, body2.replace("\"hash\":\"\"", &format!("\"hash\":\"{}\"", h2)));
}

#[test]
fn entry_json_matches_field_order() {
    let e = IsoLogEntry {
        seq: 7,
        timestamp: "ts".to_string(),
        component: "c".to_string(),
        message: "tab\there".to_string(),
        prev_hash: "p".to_string(),
        hash: "h".to_string(),
    };
    assert_eq!(e.to_json(), "{\"seq\":7,\"timestamp\":\"ts\",\"component\":\"c\",\"message\":\"tab\\there\",\"prev_hash\":\"p\",\"hash\":\"h\"}");
}

#[test]
fn log_uses_the_clock_and_advances() {
    let mut log = IsoLogger::new("x");
    let line = log.log("c", "m");
    assert!(line.starts_with("{\"seq\":1,\"timestamp\":\""));
    let line2 = log.log("c", "m");
    assert!(line2.starts_with("{\"seq\":2,"));
}
