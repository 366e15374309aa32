use printcountpay_core::counters::{
    resolve_counters, CounterKind, CounterMode, CounterOidSet, CounterWarning,
};
use printcountpay_core::snmp::{Oid, SnmpValue, SnmpVarBind};

fn oid(value: &str) -> Oid {
    value.parse().expect("oid")
}

#[test]
fn prefers_bw_color_and_derives_total() {
    let oids = CounterOidSet {
        bw: vec![oid("1.2.3.1")],
        color: vec![oid("1.2.3.2")],
        total: vec![oid("1.2.3.3")],
    };
    let varbinds = vec![
        SnmpVarBind {
            oid: oid("1.2.3.1"),
            value: SnmpValue::Counter32(100),
        },
        SnmpVarBind {
            oid: oid("1.2.3.2"),
            value: SnmpValue::Counter32(50),
        },
    ];

    let resolution = resolve_counters(1_725_000_000, &oids, &varbinds);
    assert_eq!(resolution.mode, CounterMode::BwColor);
    assert_eq!(resolution.snapshot.bw, Some(100));
    assert_eq!(resolution.snapshot.color, Some(50));
    assert_eq!(resolution.snapshot.total, Some(150));
    assert!(resolution
        .warnings
        .iter()
        .any(|warning| matches!(warning, CounterWarning::DerivedTotal)));
}

#[test]
fn falls_back_to_total() {
    let oids = CounterOidSet {
        bw: vec![oid("1.2.3.1")],
        color: vec![oid("1.2.3.2")],
        total: vec![oid("1.2.3.3")],
    };
    let varbinds = vec![SnmpVarBind {
        oid: oid("1.2.3.3"),
        value: SnmpValue::Counter32(999),
    }];

    let resolution = resolve_counters(1_725_000_000, &oids, &varbinds);
    assert_eq!(resolution.mode, CounterMode::TotalOnly);
    assert_eq!(resolution.snapshot.total, Some(999));
    assert!(resolution
        .warnings
        .iter()
        .any(|warning| matches!(warning, CounterWarning::UsedTotalFallback)));
}

#[test]
fn reports_missing_counters() {
    let oids = CounterOidSet::default();
    let varbinds: Vec<SnmpVarBind> = Vec::new();
    let resolution = resolve_counters(1_725_000_000, &oids, &varbinds);
    assert_eq!(resolution.mode, CounterMode::Missing);
    assert!(resolution
        .warnings
        .iter()
        .any(|warning| matches!(warning, CounterWarning::Missing { .. })));
}

#[test]
fn missing_mode_warns_once_per_category() {
    let oids = CounterOidSet {
        bw: vec![oid("1.2.3.1")],
        color: vec![oid("1.2.3.2")],
        total: vec![oid("1.2.3.3")],
    };
    let varbinds: Vec<SnmpVarBind> = Vec::new();
    let resolution = resolve_counters(7, &oids, &varbinds);
    assert_eq!(resolution.mode, CounterMode::Missing);
    assert_eq!(resolution.warnings.len(), 3);
    assert!(matches!(
        resolution.warnings[0],
        CounterWarning::Missing { kind: CounterKind::Bw }
    ));
    assert!(matches!(
        resolution.warnings[1],
        CounterWarning::Missing { kind: CounterKind::Color }
    ));
    assert!(matches!(
        resolution.warnings[2],
        CounterWarning::Missing { kind: CounterKind::Total }
    ));
}

#[test]
fn total_fallback_warnings_name_missing_categories() {
    let oids = CounterOidSet {
        bw: vec![oid("1.2.3.1")],
        color: vec![oid("1.2.3.2")],
        total: vec![oid("1.2.3.3")],
    };
    let varbinds = vec![SnmpVarBind {
        oid: oid("1.2.3.3"),
        value: SnmpValue::Counter32(999),
    }];
    let resolution = resolve_counters(1, &oids, &varbinds);
    let texts: Vec<String> = resolution.warnings.iter().map(|w| w.message()).collect();
    assert!(texts.contains(&"Missing bw counter".to_string()));
    assert!(texts.contains(&"Missing color counter".to_string()));
    assert!(texts.contains(&"Used total counter fallback".to_string()));
}

#[test]
fn non_numeric_candidate_warns_and_scan_continues() {
    let oids = CounterOidSet {
        bw: vec![oid("1.2.3.1"), oid("1.2.3.9")],
        color: vec![oid("1.2.3.2")],
        total: vec![],
    };
    let varbinds = vec![
        SnmpVarBind {
            oid: oid("1.2.3.1"),
            value: SnmpValue::OctetString(b"garbled".to_vec()),
        },
        SnmpVarBind {
            oid: oid("1.2.3.9"),
            value: SnmpValue::Counter64(42),
        },
        SnmpVarBind {
            oid: oid("1.2.3.2"),
            value: SnmpValue::Counter32(8),
        },
    ];
    let resolution = resolve_counters(2, &oids, &varbinds);
    assert_eq!(resolution.mode, CounterMode::BwColor);
    assert_eq!(resolution.snapshot.bw, Some(42));
    assert_eq!(resolution.snapshot.color, Some(8));
    assert_eq!(resolution.snapshot.total, Some(50));
    assert!(resolution.warnings.iter().any(|w| matches!(
        w,
        CounterWarning::NonNumeric { kind: CounterKind::Bw, .. }
    )));
    // the audit identifier names the winning candidate, not the garbled one
    assert_eq!(resolution.snapshot.source_oids.bw.as_deref(), Some("1.2.3.9"));
    // a derived total carries no audit identifier
    assert_eq!(resolution.snapshot.source_oids.total, None);
}

#[test]
fn partial_mode_keeps_resolved_category() {
    let oids = CounterOidSet {
        bw: vec![oid("1.2.3.1")],
        color: vec![oid("1.2.3.2")],
        total: vec![oid("1.2.3.3")],
    };
    let varbinds = vec![SnmpVarBind {
        oid: oid("1.2.3.1"),
        value: SnmpValue::Counter32(77),
    }];
    let resolution = resolve_counters(3, &oids, &varbinds);
    assert_eq!(resolution.mode, CounterMode::Partial);
    assert_eq!(resolution.snapshot.bw, Some(77));
    assert_eq!(resolution.snapshot.color, None);
    assert_eq!(resolution.snapshot.total, None);
}

#[test]
fn negative_integer_is_not_numeric() {
    let value = SnmpValue::Integer(-5);
    assert_eq!(value.as_u64(), None);
    let value = SnmpValue::Integer(5);
    assert_eq!(value.as_u64(), Some(5));
}
