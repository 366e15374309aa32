use printcountpay_core::error::{Error, StorageAction};

#[test]
fn auth_error_texts() {
    let error = Error::SnmpAuth {
        address: "10.0.0.9:161".to_string(),
        details: Some("community mismatch".to_string()),
    };
    assert_eq!(error.user_summary(), "SNMP authentication failed for 10.0.0.9:161.");
    assert_eq!(
        error.technical_detail(),
        "SNMP auth failed for 10.0.0.9:161 (community mismatch)."
    );
}

#[test]
fn timeout_error_texts() {
    let error = Error::SnmpTimeout {
        address: "10.0.0.9:161".to_string(),
        timeout_ms: 2000,
    };
    assert_eq!(error.user_summary(), "SNMP request timed out for 10.0.0.9:161.");
    assert_eq!(error.technical_detail(), "SNMP timeout after 2000ms for 10.0.0.9:161.");
}

#[test]
fn failure_error_texts() {
    let error = Error::SnmpFailure {
        address: "printer.lan:161".to_string(),
        details: "connection refused".to_string(),
    };
    assert_eq!(error.user_summary(), "SNMP error for printer.lan:161.");
    assert_eq!(
        error.technical_detail(),
        "SNMP failure for printer.lan:161: connection refused"
    );
}

#[test]
fn missing_counters_join_categories() {
    let error = Error::MissingCounters {
        printer_id: "p1".to_string(),
        missing: vec!["bw".to_string(), "color".to_string()],
    };
    assert_eq!(error.user_summary(), "Missing counters for printer p1.");
    assert_eq!(error.technical_detail(), "Missing counters for p1: bw, color.");
}

#[test]
fn counter_reset_shows_readings() {
    let error = Error::CounterReset {
        printer_id: "p1".to_string(),
        previous: 900,
        current: 10,
    };
    assert_eq!(error.user_summary(), "Counter reset detected for printer p1.");
    assert_eq!(error.technical_detail(), "Counter reset for p1: 900 -> 10.");
}

#[test]
fn unsupported_model_names_identifier() {
    let error = Error::UnsupportedModel {
        model: "Widget 9".to_string(),
        sys_object_id: Some("1.3.6.1.4.1.99".to_string()),
    };
    assert_eq!(error.user_summary(), "Unsupported Ricoh model: Widget 9.");
    assert_eq!(
        error.technical_detail(),
        "Unsupported model Widget 9. sysObjectID=1.3.6.1.4.1.99"
    );
}

#[test]
fn discovery_failure_scopes_range() {
    let error = Error::DiscoveryFailure {
        range: Some("10.0.0.0/24".to_string()),
        details: "no responses".to_string(),
    };
    assert_eq!(error.user_summary(), "Discovery failed.");
    assert_eq!(
        error.technical_detail(),
        "Discovery failure range=10.0.0.0/24. no responses"
    );
}

#[test]
fn storage_error_texts() {
    let error = Error::Ron {
        action: StorageAction::Load,
        path: Some("printers.ron".to_string()),
        details: "unexpected token".to_string(),
    };
    assert_eq!(error.user_summary(), "Failed to load configuration data.");
    assert_eq!(
        error.technical_detail(),
        "RON load error. path=printers.ron. unexpected token"
    );
    let error = Error::StorageIo {
        action: StorageAction::Save,
        path: None,
        details: "permission denied".to_string(),
    };
    assert_eq!(error.user_summary(), "Failed to save configuration file.");
    assert_eq!(error.technical_detail(), "Storage save error. permission denied");
}
