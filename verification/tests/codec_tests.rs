use systeminfo::codec::{decode, dec_string, SnapshotPayload};

fn snapshot(tm: u64, um: u64, sw: u64, su: u64, cpu: &[&str]) -> SnapshotPayload {
    SnapshotPayload {
        tot_memory: tm,
        used_memory: um,
        tot_swap: sw,
        used_swap: su,
        cpu_util: cpu.iter().map(|t| t.to_string()).collect(),
    }
}

fn assert_same(a: &SnapshotPayload, b: &SnapshotPayload) {
    assert_eq!(a.tot_memory, b.tot_memory);
    assert_eq!(a.used_memory, b.used_memory);
    assert_eq!(a.tot_swap, b.tot_swap);
    assert_eq!(a.used_swap, b.used_swap);
    assert_eq!(a.cpu_util, b.cpu_util);
}

#[test]
fn dec_string_exact_values() {
    assert_eq!(dec_string(0), "0");
    assert_eq!(dec_string(7), "7");
    assert_eq!(dec_string(10), "10");
    assert_eq!(dec_string(400), "400");
    assert_eq!(dec_string(1234567890), "1234567890");
    assert_eq!(dec_string(u64::MAX), "18446744073709551615");
}

#[test]
fn encode_scenario_payload_exactly() {
    // The producer's wire text for the reference sample.
    let p = snapshot(1000, 400, 0, 0, &["12.5", "30.0"]);
    assert_eq!(
        p.encode(),
        "{\"tot_memory\":1000,\"used_memory\":400,\"tot_swap\":0,\"used_swap\":0,\"cpu_util\":[12.5,30.0]}"
    );
}

#[test]
fn encode_empty_cpu_list() {
    let p = snapshot(1, 2, 3, 4, &[]);
    assert_eq!(
        p.encode(),
        "{\"tot_memory\":1,\"used_memory\":2,\"tot_swap\":3,\"used_swap\":4,\"cpu_util\":[]}"
    );
}

#[test]
fn decode_scenario_payload() {
    let s = "{\"tot_memory\":1000,\"used_memory\":400,\"tot_swap\":0,\"used_swap\":0,\"cpu_util\":[12.5,30.0]}";
    let p = decode(s).expect("canonical encoding must decode");
    assert_same(&p, &snapshot(1000, 400, 0, 0, &["12.5", "30.0"]));
}

#[test]
fn round_trip_preserves_all_fields() {
    let cases = [
        snapshot(0, 0, 0, 0, &[]),
        snapshot(1000, 400, 0, 0, &["12.5", "30.0"]),
        snapshot(u64::MAX, u64::MAX - 1, 1, 0, &["0", "100", "99.99"]),
        snapshot(16384, 8192, 4096, 2048, &["1e2", "-0.5", "+3.25E-1"]),
    ];
    for p in cases.iter() {
        let encoded = p.encode();
        let decoded = decode(&encoded).expect("round trip must succeed");
        assert_same(&decoded, p);
    }
}

#[test]
fn round_trip_many_cores() {
    // A core list at the upper end of the expected range.
    let tokens: Vec<String> = (0..256).map(|i| format!("{}.25", i)).collect();
    let p = SnapshotPayload {
        tot_memory: 123,
        used_memory: 45,
        tot_swap: 6,
        used_swap: 0,
        cpu_util: tokens,
    };
    let decoded = decode(&p.encode()).expect("round trip must succeed");
    assert_same(&decoded, &p);
}

#[test]
fn round_trip_float_rendering() {
    // Finite f32 figures survive the trip through their text tokens.
    let figures: Vec<f32> = vec![0.0, 12.5, 30.0, 99.9, 0.125, 100.0];
    let tokens: Vec<String> = figures.iter().map(|f| format!("{}", f)).collect();
    let p = SnapshotPayload {
        tot_memory: 1,
        used_memory: 1,
        tot_swap: 1,
        used_swap: 1,
        cpu_util: tokens,
    };
    let decoded = decode(&p.encode()).expect("round trip must succeed");
    let back: Vec<f32> = decoded.cpu_util.iter().map(|t| t.parse().unwrap()).collect();
    assert_eq!(back, figures);
}

#[test]
fn decode_rejects_malformed_inputs() {
    let bad = [
        "",
        "{}",
        "garbage",
        "{\"tot_memory\":,\"used_memory\":2,\"tot_swap\":3,\"used_swap\":4,\"cpu_util\":[]}",
        // leading zero is not canonical
        "{\"tot_memory\":01,\"used_memory\":2,\"tot_swap\":3,\"used_swap\":4,\"cpu_util\":[]}",
        // value beyond u64
        "{\"tot_memory\":18446744073709551616,\"used_memory\":2,\"tot_swap\":3,\"used_swap\":4,\"cpu_util\":[]}",
        // wrong field order
        "{\"used_memory\":2,\"tot_memory\":1,\"tot_swap\":3,\"used_swap\":4,\"cpu_util\":[]}",
        // unterminated list
        "{\"tot_memory\":1,\"used_memory\":2,\"tot_swap\":3,\"used_swap\":4,\"cpu_util\":[1.5}",
        // empty token
        "{\"tot_memory\":1,\"used_memory\":2,\"tot_swap\":3,\"used_swap\":4,\"cpu_util\":[1.5,]}",
        // trailing garbage
        "{\"tot_memory\":1,\"used_memory\":2,\"tot_swap\":3,\"used_swap\":4,\"cpu_util\":[]} ",
    ];
    for s in bad.iter() {
        assert!(decode(s).is_none(), "must reject: {}", s);
    }
}

#[test]
fn decode_is_strict_about_whitespace() {
    // The canonical form has no spaces; decode only accepts canonical text.
    let s = "{\"tot_memory\": 1,\"used_memory\":2,\"tot_swap\":3,\"used_swap\":4,\"cpu_util\":[]}";
    assert!(decode(s).is_none());
}
