use printcountpay_core::counters::CounterOidSet;
use printcountpay_core::model::PrinterStatus;
use printcountpay_core::snmp::{Oid, SnmpValue, SnmpVarBind};
use printcountpay_core::usage::{
    bw_cost_cents, category_end_value, category_start_value, counter_oids_from_walk,
    default_counter_oids, delta_value, extract_counter_u64, extract_text, extract_value_string,
    format_cents, format_count, format_oid_list, parse_count_input, parse_oid_list,
    round_to_nearest_50_cents, set_input, snapshot_category_value, snmp_oids, status_label,
    sum_optional_included, sum_two, BwPricing, RecordingCategory, RecordingSession,
    RecordingSnapshot,
};

fn oid(text: &str) -> Oid {
    text.parse().expect("oid")
}

#[test]
fn status_labels() {
    assert_eq!(status_label(PrinterStatus::Unknown), "Unknown");
    assert_eq!(status_label(PrinterStatus::Online), "Online");
    assert_eq!(status_label(PrinterStatus::Offline), "Offline");
    assert_eq!(status_label(PrinterStatus::Error), "Error");
}

#[test]
fn default_mapping_prefers_vendor_counters() {
    let oids = default_counter_oids();
    assert_eq!(oids.bw.len(), 3);
    assert_eq!(oids.bw[0].text(), "1.3.6.1.4.1.367.3.2.1.2.19.5.1.9.18");
    assert_eq!(oids.bw[2].text(), "1.3.6.1.2.1.43.10.2.1.4.1.1");
    assert_eq!(oids.color[2].text(), "1.3.6.1.2.1.43.10.2.1.4.1.2");
    assert_eq!(oids.total.len(), 1);
    assert_eq!(oids.total[0].text(), "1.3.6.1.2.1.43.10.2.1.4.1.3");
}

#[test]
fn oid_list_round_trip() {
    let parsed = parse_oid_list("1.2.3, 4.5 ,6.7.8").expect("list");
    assert_eq!(parsed.len(), 3);
    assert_eq!(format_oid_list(&parsed), "1.2.3, 4.5, 6.7.8");
    assert_eq!(format_oid_list(&Vec::new()), "");
}

#[test]
fn oid_list_rejects_bad_token() {
    let error = parse_oid_list("1.2.3, nope").expect_err("bad token");
    assert!(error.contains("invalid OID 'nope'"));
    assert!(parse_oid_list("  , ,, ").expect("empty").is_empty());
}

#[test]
fn trimmed_extraction() {
    let varbinds = vec![
        SnmpVarBind {
            oid: oid("1.1"),
            value: SnmpValue::OctetString(b"  spaced name  ".to_vec()),
        },
        SnmpVarBind {
            oid: oid("1.2"),
            value: SnmpValue::OctetString(b"   ".to_vec()),
        },
        SnmpVarBind {
            oid: oid("1.3"),
            value: SnmpValue::Counter32(31),
        },
    ];
    assert_eq!(
        extract_text(&varbinds, &oid("1.1")),
        Some("spaced name".to_string())
    );
    assert_eq!(extract_text(&varbinds, &oid("1.2")), None);
    assert_eq!(
        extract_value_string(&varbinds, &oid("1.3")),
        Some("31".to_string())
    );
    assert_eq!(extract_counter_u64(&varbinds, &oid("1.3")), Some(31));
    assert_eq!(extract_counter_u64(&varbinds, &oid("9.9")), None);
}

#[test]
fn deltas_and_sums() {
    assert_eq!(delta_value(Some(10), Some(25)), Some(15));
    assert_eq!(delta_value(Some(25), Some(10)), None);
    assert_eq!(delta_value(None, Some(10)), None);
    assert_eq!(sum_two(Some(2), Some(3)), Some(5));
    assert_eq!(sum_two(Some(2), None), None);
}

#[test]
fn tiered_bw_pricing() {
    let pricing = BwPricing {
        first_cents: 25,
        next_cents: 10,
        rest_cents: 6,
    };
    assert_eq!(bw_cost_cents(0, pricing), 0);
    assert_eq!(bw_cost_cents(3, pricing), 75);
    assert_eq!(bw_cost_cents(5, pricing), 125);
    assert_eq!(bw_cost_cents(8, pricing), 155);
    assert_eq!(bw_cost_cents(10, pricing), 175);
    assert_eq!(bw_cost_cents(12, pricing), 187);
}

#[test]
fn rounding_and_formatting() {
    assert_eq!(round_to_nearest_50_cents(0), 0);
    assert_eq!(round_to_nearest_50_cents(24), 0);
    assert_eq!(round_to_nearest_50_cents(25), 50);
    assert_eq!(round_to_nearest_50_cents(74), 50);
    assert_eq!(round_to_nearest_50_cents(75), 100);
    assert_eq!(format_cents(1234), "12.34 EUR");
    assert_eq!(format_cents(1205), "12.05 EUR");
    assert_eq!(format_cents(5), "0.05 EUR");
    assert_eq!(format_count(Some(42)), "42");
    assert_eq!(format_count(None), "N/A");
}

#[test]
fn count_input_parsing() {
    assert_eq!(parse_count_input(""), Ok(None));
    assert_eq!(parse_count_input("  "), Ok(None));
    assert_eq!(parse_count_input(" 42 "), Ok(Some(42)));
    assert_eq!(parse_count_input("18446744073709551615"), Ok(Some(u64::MAX)));
    assert_eq!(parse_count_input("18446744073709551616"), Err(()));
    assert_eq!(parse_count_input("4x"), Err(()));
}

#[test]
fn recording_boundaries_prefer_manual_overrides() {
    let snapshot = RecordingSnapshot {
        received_at: 10,
        bw_printer: Some(100),
        bw_copier: Some(200),
        color_printer: Some(300),
        color_copier: Some(400),
    };
    assert_eq!(
        snapshot_category_value(&snapshot, RecordingCategory::CopiesBw),
        Some(200)
    );
    let mut session = RecordingSession::default();
    session.start = Some(snapshot.clone());
    session.end = Some(snapshot);
    // no override: the snapshot value is used
    assert_eq!(
        category_start_value(&session, RecordingCategory::CopiesBw),
        Some(200)
    );
    // a parsed override wins
    session.edits.copies_bw.start_input = "250".to_string();
    assert_eq!(
        category_start_value(&session, RecordingCategory::CopiesBw),
        Some(250)
    );
    // an unreadable override yields nothing
    session.edits.copies_bw.end_input = "nope".to_string();
    assert_eq!(category_end_value(&session, RecordingCategory::CopiesBw), None);
}

#[test]
fn snapshots_fill_inputs() {
    let snapshot = RecordingSnapshot {
        received_at: 10,
        bw_printer: Some(1),
        bw_copier: Some(2),
        color_printer: None,
        color_copier: Some(4),
    };
    let mut session = RecordingSession::default();
    session.edits.copies_bw.end_input = "stale".to_string();
    session.edits.apply_start_snapshot(&snapshot);
    assert_eq!(session.edits.copies_bw.start_input, "2");
    assert_eq!(session.edits.prints_bw.start_input, "1");
    assert_eq!(session.edits.prints_color.start_input, "");
    assert_eq!(session.edits.copies_bw.end_input, "");
    session.edits.apply_end_snapshot(&snapshot);
    assert_eq!(session.edits.copies_color.end_input, "4");
    let mut field = String::new();
    set_input(&mut field, Some(9));
    assert_eq!(field, "9");
    set_input(&mut field, None);
    assert_eq!(field, "");
}

#[test]
fn included_sums_respect_inclusion_and_absence() {
    assert_eq!(sum_optional_included(&vec![]), Some(0));
    assert_eq!(
        sum_optional_included(&vec![(true, Some(2)), (false, None), (true, Some(3))]),
        Some(5)
    );
    assert_eq!(
        sum_optional_included(&vec![(true, Some(2)), (true, None)]),
        None
    );
    assert_eq!(
        sum_optional_included(&vec![(false, Some(2)), (false, Some(3))]),
        Some(0)
    );
    assert_eq!(
        sum_optional_included(&vec![(true, Some(u64::MAX)), (true, Some(5))]),
        Some(u64::MAX)
    );
}

#[test]
fn walk_mapping_sorts_and_slots_markers() {
    let vb = |text: &str, value: SnmpValue| SnmpVarBind {
        oid: oid(text),
        value,
    };
    let varbinds = vec![
        vb("1.3.6.1.2.1.43.10.2.1.4.1.3", SnmpValue::Counter32(30)),
        vb("1.9.9", SnmpValue::OctetString(b"text".to_vec())),
        vb("1.3.6.1.2.1.43.10.2.1.4.1.1", SnmpValue::Counter32(10)),
        vb("1.3.6.1.2.1.43.10.2.1.4.1.1", SnmpValue::Counter32(11)),
        vb("1.2.2", SnmpValue::Counter64(7)),
    ];
    let mapping = counter_oids_from_walk(&varbinds);
    assert_eq!(mapping.bw.len(), 1);
    assert_eq!(mapping.bw[0].text(), "1.3.6.1.2.1.43.10.2.1.4.1.1");
    assert!(mapping.color.is_empty());
    // total leads with the third marker count, then every sorted candidate
    let totals: Vec<String> = mapping.total.iter().map(|o| o.text()).collect();
    assert_eq!(
        totals,
        vec![
            "1.3.6.1.2.1.43.10.2.1.4.1.3".to_string(),
            "1.2.2".to_string(),
            "1.3.6.1.2.1.43.10.2.1.4.1.1".to_string(),
        ]
    );
}

#[test]
fn poll_oid_set_deduplicates() {
    let mapping = CounterOidSet {
        bw: vec![oid("1.3.6.1.4.1.367.3.2.1.2.19.5.1.9.18")],
        color: vec![oid("9.9.9")],
        total: vec![oid("9.9.9")],
    };
    let oids = snmp_oids(&mapping);
    let texts: Vec<String> = oids.iter().map(|o| o.text()).collect();
    // the duplicated vendor counter and the duplicated mapping entry occur once
    assert_eq!(
        texts
            .iter()
            .filter(|t| t.as_str() == "1.3.6.1.4.1.367.3.2.1.2.19.5.1.9.18")
            .count(),
        1
    );
    assert_eq!(texts.iter().filter(|t| t.as_str() == "9.9.9").count(), 1);
    assert_eq!(texts[0], "1.3.6.1.2.1.1.1.0");
    assert!(texts.contains(&"1.3.6.1.4.1.367.3.2.1.2.24.1.1.5.4".to_string()));
}
