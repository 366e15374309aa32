use printcountpay_core::error::Error;
use printcountpay_core::model::SnmpAddress;
use printcountpay_core::snmp::{
    oid_is_descendant, split_into_batches, MockSnmpClient, Oid, SnmpRequest, SnmpResponse,
    SnmpValue, SnmpVarBind, SnmpWalkRequest, WalkState,
};

#[test]
fn oid_parses_and_formats() {
    let oid: Oid = "1.3.6.1.2.1.1.1.0".parse().expect("parse oid");
    assert_eq!(oid.text(), "1.3.6.1.2.1.1.1.0");
    assert_eq!(oid.as_slice(), &[1, 3, 6, 1, 2, 1, 1, 1, 0]);
}

#[test]
fn oid_round_trip_holds_for_well_formed_text() {
    for text in ["1", "0.0", "1.3.6.1.4.1.367", "4294967295.0.1"] {
        let oid: Oid = text.parse().expect("oid");
        assert_eq!(oid.text(), text);
    }
}

#[test]
fn oid_parse_rejects_bad_text() {
    assert!("".parse::<Oid>().is_err());
    assert!(".".parse::<Oid>().is_err());
    assert!("1.a.2".parse::<Oid>().is_err());
    assert!("4294967296".parse::<Oid>().is_err());
}

#[test]
fn oid_parse_skips_empty_components() {
    let oid: Oid = "1..2.".parse().expect("oid");
    assert_eq!(oid.as_slice(), &[1, 2]);
}

#[test]
fn mock_snmp_returns_queued_response() {
    let mut mock = MockSnmpClient::new();
    let address = SnmpAddress::with_default_port("192.168.1.10".to_string());
    let oid: Oid = "1.3.6.1.2.1.1.3.0".parse().expect("oid");

    mock.push_response(SnmpResponse {
        address: address.clone(),
        varbinds: vec![SnmpVarBind {
            oid: oid.clone(),
            value: SnmpValue::Counter32(123),
        }],
    });

    let request = SnmpRequest::new(address, vec![oid]);
    let response = mock.get(request).expect("mock response");
    assert_eq!(response.varbinds.len(), 1);
    assert_eq!(response.varbinds[0].value.as_u64(), Some(123));
}

#[test]
fn mock_snmp_empty_queue_returns_error() {
    let mut mock = MockSnmpClient::new();
    let address = SnmpAddress::with_default_port("192.168.1.10".to_string());
    let oid: Oid = "1.3.6.1.2.1.1.3.0".parse().expect("oid");
    let request = SnmpRequest::new(address.clone(), vec![oid]);

    let error = mock.get(request).expect_err("expected error");
    match error {
        Error::SnmpFailure {
            address: error_address,
            ..
        } => {
            assert_eq!(error_address, address.text());
        }
        other => panic!("unexpected error: {other:?}"),
    }
}

fn vb(oid: &str, value: u32) -> SnmpVarBind {
    SnmpVarBind {
        oid: oid.parse().expect("oid"),
        value: SnmpValue::Counter32(value),
    }
}

#[test]
fn walk_repeating_identifier_stops_at_first_repeat() {
    let address = SnmpAddress::with_default_port("h".to_string());
    let root: Oid = "1.3".parse().expect("oid");
    let request = SnmpWalkRequest::new(address, root);
    let mut walk = WalkState::start(&request);

    // first step makes progress
    walk.apply_response(&vec![vb("1.3.1", 1)]);
    assert!(!walk.done);
    assert_eq!(walk.results.len(), 1);

    // the device repeats the same identifier twice in a row: the walk stops
    walk.apply_response(&vec![vb("1.3.1", 1), vb("1.3.2", 2)]);
    assert!(walk.done);
    assert_eq!(walk.results.len(), 1);
    assert!(walk.next_query().is_none());
}

#[test]
fn walk_stops_outside_root_subtree() {
    let address = SnmpAddress::with_default_port("h".to_string());
    let root: Oid = "1.3".parse().expect("oid");
    let request = SnmpWalkRequest::new(address, root);
    let mut walk = WalkState::start(&request);

    walk.apply_response(&vec![vb("1.3.1", 1), vb("1.4.1", 9)]);
    assert!(walk.done);
    assert_eq!(walk.results.len(), 1);
    assert_eq!(walk.results[0].oid.text(), "1.3.1");
}

#[test]
fn walk_respects_step_budget() {
    let address = SnmpAddress::with_default_port("h".to_string());
    let root: Oid = "1.3".parse().expect("oid");
    let request = SnmpWalkRequest::new(address, root).with_max_results(2);
    let mut walk = WalkState::start(&request);

    assert!(walk.next_query().is_some());
    walk.apply_response(&vec![vb("1.3.1", 1)]);
    assert!(walk.next_query().is_some());
    walk.apply_response(&vec![vb("1.3.2", 2)]);
    assert!(walk.next_query().is_none());
    assert_eq!(walk.results.len(), 2);
}

#[test]
fn walk_empty_response_finishes() {
    let address = SnmpAddress::with_default_port("h".to_string());
    let root: Oid = "1.3".parse().expect("oid");
    let request = SnmpWalkRequest::new(address, root);
    let mut walk = WalkState::start(&request);
    walk.apply_response(&Vec::new());
    assert!(walk.done);
    assert!(walk.results.is_empty());
}

#[test]
fn batches_keep_order_and_size_bound() {
    let mut oids: Vec<Oid> = Vec::new();
    for i in 0..50u32 {
        oids.push(Oid(vec![1, 3, i]));
    }
    let batches = split_into_batches(&oids);
    assert_eq!(batches.len(), 3);
    assert_eq!(batches[0].len(), 24);
    assert_eq!(batches[1].len(), 24);
    assert_eq!(batches[2].len(), 2);
    let flat: Vec<Oid> = batches.into_iter().flatten().collect();
    assert_eq!(flat, oids);
}

#[test]
fn descendant_test_is_prefix_match() {
    let root: Oid = "1.3.6".parse().expect("oid");
    let below: Oid = "1.3.6.1".parse().expect("oid");
    let beside: Oid = "1.3.7".parse().expect("oid");
    assert!(oid_is_descendant(&root, &below));
    assert!(oid_is_descendant(&root, &root.clone()));
    assert!(!oid_is_descendant(&root, &beside));
}

#[test]
fn value_text_readings() {
    assert_eq!(
        SnmpValue::OctetString(b"Ricoh IM C3000".to_vec()).as_text_lossy(),
        Some("Ricoh IM C3000".to_string())
    );
    assert_eq!(SnmpValue::Counter32(5).as_text_lossy(), None);
    assert_eq!(SnmpValue::Integer(-42).display_text(), "-42");
    assert_eq!(SnmpValue::Timeticks(7).display_text(), "7 ticks");
    assert_eq!(
        SnmpValue::IpAddress([192, 168, 1, 5]).display_text(),
        "192.168.1.5"
    );
    assert_eq!(
        SnmpValue::ObjectIdentifier("1.3.6".parse().expect("oid")).display_text(),
        "1.3.6"
    );
}

#[test]
fn missing_sentinels_are_recognized() {
    assert!(SnmpValue::Null.is_missing());
    assert!(SnmpValue::Other("NoSuchObject".to_string()).is_missing());
    assert!(SnmpValue::Other("NoSuchInstance".to_string()).is_missing());
    assert!(SnmpValue::Other("EndOfMibView".to_string()).is_missing());
    assert!(!SnmpValue::Other("Boolean(true)".to_string()).is_missing());
    assert!(!SnmpValue::Counter32(0).is_missing());
}
