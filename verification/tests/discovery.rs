use printcountpay_core::discovery::{
    add_manual_printer, apply_printer_name_fallback, build_probe_record, extract_numeric,
    extract_object_id, extract_text, is_printer_keyword_match, netmask_to_prefix,
    normalize_community, parse_ipv4, prefix_to_mask, select_discovery_network, upsert_printer,
    CidrRange, DiscoveryRun, IfaceAddr, ManualAddError, ManualAddOutcome, ProbeOutcome,
};
use printcountpay_core::model::{PrinterId, PrinterRecord, PrinterStatus, SnmpAddress};
use printcountpay_core::snmp::{Oid, SnmpValue, SnmpVarBind};

fn hosts_of(range: &CidrRange) -> Vec<u32> {
    let mut iter = range.iter();
    let mut out = Vec::new();
    while let Some(ip) = iter.next() {
        out.push(ip);
    }
    out
}

fn ip(text: &str) -> u32 {
    parse_ipv4(text).expect("ipv4")
}

#[test]
fn slash_30_yields_two_usable_hosts() {
    let range = CidrRange::parse("10.0.0.0/30").expect("cidr");
    assert_eq!(range.host_count(), 2);
    assert_eq!(hosts_of(&range), vec![ip("10.0.0.1"), ip("10.0.0.2")]);
    assert_eq!(range.network(), ip("10.0.0.0"));
    assert_eq!(range.prefix(), 30);
}

#[test]
fn slash_32_yields_exactly_the_host() {
    let range = CidrRange::parse("10.0.0.5/32").expect("cidr");
    assert_eq!(range.host_count(), 1);
    assert_eq!(hosts_of(&range), vec![ip("10.0.0.5")]);
}

#[test]
fn slash_31_keeps_both_addresses() {
    let range = CidrRange::parse("10.0.0.4/31").expect("cidr");
    assert_eq!(hosts_of(&range), vec![ip("10.0.0.4"), ip("10.0.0.5")]);
}

#[test]
fn cidr_parse_rejects_bad_input() {
    assert!(CidrRange::parse("10.0.0.0").is_err());
    assert!(CidrRange::parse("10.0.0.0/33").is_err());
    assert!(CidrRange::parse("10.0.0/24").is_err());
    assert!(CidrRange::parse("10.0.0.x/24").is_err());
    assert!(CidrRange::parse("10.0.0.0/24/8").is_err());
    assert!(CidrRange::parse("10.0.0.256/24").is_err());
}

#[test]
fn cidr_parse_trims_and_masks() {
    let range = CidrRange::parse("  192.168.1.77/24  ").expect("cidr");
    assert_eq!(range.network(), ip("192.168.1.0"));
    assert_eq!(range.host_count(), 254);
}

#[test]
fn iterator_is_forward_only() {
    let range = CidrRange::parse("10.0.0.0/30").expect("cidr");
    let mut iter = range.iter();
    assert_eq!(iter.next(), Some(ip("10.0.0.1")));
    assert_eq!(iter.next(), Some(ip("10.0.0.2")));
    assert_eq!(iter.next(), None);
    assert_eq!(iter.next(), None);
}

#[test]
fn mask_round_trip() {
    assert_eq!(prefix_to_mask(24), 0xFFFFFF00);
    assert_eq!(prefix_to_mask(0), 0);
    assert_eq!(prefix_to_mask(32), 0xFFFFFFFF);
    assert_eq!(netmask_to_prefix(0xFFFFFF00), Some(24));
    assert_eq!(netmask_to_prefix(0xFFFFFFFF), Some(32));
    assert_eq!(netmask_to_prefix(0xFF00FF00), None);
}

#[test]
fn ipv4_text_is_canonical() {
    assert_eq!(parse_ipv4("10.0.0.1"), Some(0x0A000001));
    assert_eq!(parse_ipv4("10.0.00.1"), None);
    assert_eq!(parse_ipv4("10.0.0"), None);
    assert_eq!(parse_ipv4("10.0.0.1.2"), None);
}

#[test]
fn keyword_match_is_case_insensitive() {
    assert!(is_printer_keyword_match("Some RICOH device"));
    assert!(is_printer_keyword_match("laser printer"));
    assert!(is_printer_keyword_match("KYOCERA ECOSYS"));
    assert!(!is_printer_keyword_match("router"));
}

fn descr_vb(text: &str) -> SnmpVarBind {
    SnmpVarBind {
        oid: "1.3.6.1.2.1.1.1.0".parse().expect("oid"),
        value: SnmpValue::OctetString(text.as_bytes().to_vec()),
    }
}

#[test]
fn extraction_reads_fields() {
    let varbinds = vec![
        descr_vb("Ricoh IM C3000"),
        SnmpVarBind {
            oid: "1.3.6.1.2.1.1.2.0".parse().expect("oid"),
            value: SnmpValue::ObjectIdentifier("1.3.6.1.4.1.367.1".parse().expect("oid")),
        },
        SnmpVarBind {
            oid: "1.3.6.1.2.1.43.10.2.1.4.1.1".parse().expect("oid"),
            value: SnmpValue::Counter32(12345),
        },
    ];
    let descr_oid: Oid = "1.3.6.1.2.1.1.1.0".parse().expect("oid");
    let obj_oid: Oid = "1.3.6.1.2.1.1.2.0".parse().expect("oid");
    let marker_oid: Oid = "1.3.6.1.2.1.43.10.2.1.4.1.1".parse().expect("oid");
    assert_eq!(
        extract_text(&varbinds, &descr_oid),
        Some("Ricoh IM C3000".to_string())
    );
    assert_eq!(
        extract_object_id(&varbinds, &obj_oid).map(|o| o.text()),
        Some("1.3.6.1.4.1.367.1".to_string())
    );
    assert_eq!(extract_numeric(&varbinds, &marker_oid), Some(12345));
    assert_eq!(extract_numeric(&varbinds, &descr_oid), None);
}

#[test]
fn missing_value_yields_no_text() {
    let varbinds = vec![SnmpVarBind {
        oid: "1.3.6.1.2.1.1.1.0".parse().expect("oid"),
        value: SnmpValue::Other("NoSuchObject".to_string()),
    }];
    let descr_oid: Oid = "1.3.6.1.2.1.1.1.0".parse().expect("oid");
    assert_eq!(extract_text(&varbinds, &descr_oid), None);
}

#[test]
fn probe_record_prefers_name_over_description() {
    let address = SnmpAddress::with_default_port("192.168.1.9".to_string());
    let record = build_probe_record(
        address,
        Some("public".to_string()),
        Some("Some printer description".to_string()),
        Some("1.3.6.1.4.1.367.1".parse().expect("oid")),
        Some("Front Office".to_string()),
        false,
        1_725_000_000,
    )
    .expect("printer");
    assert_eq!(record.id.0, "snmp-192.168.1.9");
    assert_eq!(record.model.as_deref(), Some("Front Office"));
    assert_eq!(record.sys_object_id.as_deref(), Some("1.3.6.1.4.1.367.1"));
    assert_eq!(record.status, PrinterStatus::Online);
    assert_eq!(record.last_seen, Some(1_725_000_000));
    assert_eq!(record.ip_or_hostname.as_deref(), Some("192.168.1.9"));
}

#[test]
fn probe_without_evidence_is_not_a_printer() {
    let address = SnmpAddress::with_default_port("192.168.1.9".to_string());
    let record = build_probe_record(
        address,
        None,
        Some("core switch".to_string()),
        None,
        None,
        false,
        0,
    );
    assert!(record.is_none());
}

#[test]
fn marker_presence_alone_classifies() {
    let address = SnmpAddress::with_default_port("h".to_string());
    let record = build_probe_record(address, None, None, None, None, true, 0);
    assert!(record.is_some());
    assert_eq!(record.unwrap().model, None);
}

#[test]
fn empty_community_is_dropped() {
    assert_eq!(normalize_community(Some("  ".to_string())), None);
    assert_eq!(normalize_community(None), None);
    assert_eq!(
        normalize_community(Some("secret".to_string())),
        Some("secret".to_string())
    );
}

#[test]
fn interface_selection_skips_unusable() {
    let interfaces = vec![
        IfaceAddr::Other,
        IfaceAddr::V4 {
            ip: ip("127.0.0.1"),
            netmask: 0xFF000000,
        },
        IfaceAddr::V4 {
            ip: ip("169.254.3.4"),
            netmask: 0xFFFF0000,
        },
        IfaceAddr::V4 {
            ip: ip("10.1.2.3"),
            netmask: 0xFF00FF00,
        },
        IfaceAddr::V4 {
            ip: ip("10.1.2.3"),
            netmask: 0xFFFFFFFF,
        },
        IfaceAddr::V4 {
            ip: ip("192.168.1.77"),
            netmask: 0xFFFFFF00,
        },
    ];
    assert_eq!(
        select_discovery_network(&interfaces),
        Some((ip("192.168.1.0"), 24))
    );
}

#[test]
fn stale_run_results_are_dropped() {
    let mut run = DiscoveryRun::new(24);
    run.start(vec![
        SnmpAddress::with_default_port("10.0.0.1".to_string()),
        SnmpAddress::with_default_port("10.0.0.2".to_string()),
    ]);
    let old_run_id = run.run_id;
    assert!(run.next_probe().is_some());
    run.stop();
    // the probe finishes after the stop: its run identifier is stale
    assert!(!run.on_result(old_run_id, ProbeOutcome::Printer));
    assert_eq!(run.found, 0);
    assert_eq!(run.scanned, 0);
}

fn discovered(host: &str, model: &str, seen: u64) -> PrinterRecord {
    let mut record = PrinterRecord::new(PrinterId::new(format!("snmp-{host}")));
    record.ip_or_hostname = Some(host.to_string());
    record.model = Some(model.to_string());
    record.snmp_address = Some(SnmpAddress::with_default_port(host.to_string()));
    record.status = PrinterStatus::Online;
    record.last_seen = Some(seen);
    record
}

#[test]
fn rediscovery_merges_by_host_and_keeps_identity() {
    let mut printers = vec![discovered("10.0.0.7", "Old model", 1)];
    printers[0].id = PrinterId::new("custom-key".to_string());

    let updated = upsert_printer(&mut printers, discovered("10.0.0.7", "New model", 2));
    assert_eq!(updated, Some(0));
    assert_eq!(printers.len(), 1);
    assert_eq!(printers[0].id.0, "custom-key");
    assert_eq!(printers[0].model.as_deref(), Some("New model"));
    assert_eq!(printers[0].last_seen, Some(2));

    let added = upsert_printer(&mut printers, discovered("10.0.0.8", "Other", 3));
    assert_eq!(added, None);
    assert_eq!(printers.len(), 2);
}

#[test]
fn name_backfill_fills_empty_model() {
    let mut printers = vec![discovered("10.0.0.7", "", 1)];
    printers[0].model = None;
    let changed = apply_printer_name_fallback(
        &mut printers,
        &PrinterId::new("snmp-10.0.0.7".to_string()),
        "  Front Office  ".to_string(),
        false,
        None,
    );
    assert_eq!(changed, Some(0));
    assert_eq!(printers[0].model.as_deref(), Some("Front Office"));
}

#[test]
fn name_backfill_overrides_only_auto_derived_models() {
    // the stored model equals the host, so it was auto-derived
    let mut printers = vec![discovered("10.0.0.7", "10.0.0.7", 1)];
    let id = PrinterId::new("snmp-10.0.0.7".to_string());

    // without permission nothing changes
    let kept = apply_printer_name_fallback(&mut printers, &id, "Better".to_string(), false, None);
    assert_eq!(kept, None);
    assert_eq!(printers[0].model.as_deref(), Some("10.0.0.7"));

    // with permission the auto-derived model is replaced
    let changed = apply_printer_name_fallback(&mut printers, &id, "Better".to_string(), true, None);
    assert_eq!(changed, Some(0));
    assert_eq!(printers[0].model.as_deref(), Some("Better"));

    // a hand-picked model is never replaced
    printers[0].model = Some("Hand picked".to_string());
    let kept = apply_printer_name_fallback(&mut printers, &id, "Other".to_string(), true, None);
    assert_eq!(kept, None);
    assert_eq!(printers[0].model.as_deref(), Some("Hand picked"));
}

#[test]
fn manual_entry_validates_and_merges() {
    let mut printers: Vec<PrinterRecord> = Vec::new();
    assert_eq!(
        add_manual_printer(&mut printers, "Lobby", "  ", "", "", 5),
        Err(ManualAddError::EmptyHost)
    );
    assert_eq!(
        add_manual_printer(&mut printers, "Lobby", "10.0.0.7", "99999", "", 5),
        Err(ManualAddError::InvalidPort)
    );
    assert!(printers.is_empty());

    assert_eq!(
        add_manual_printer(&mut printers, " Lobby ", " 10.0.0.7 ", "", " s3cr3t ", 5),
        Ok(ManualAddOutcome::Added)
    );
    assert_eq!(printers[0].id.0, "manual-10.0.0.7");
    assert_eq!(printers[0].model.as_deref(), Some("Lobby"));
    assert_eq!(printers[0].community.as_deref(), Some("s3cr3t"));
    assert_eq!(printers[0].snmp_address.as_ref().unwrap().port, 161);
    assert_eq!(printers[0].status, PrinterStatus::Unknown);

    // the same host updates in place; blank name and secret keep the old ones
    assert_eq!(
        add_manual_printer(&mut printers, "", "10.0.0.7", "1161", "", 9),
        Ok(ManualAddOutcome::Updated(0))
    );
    assert_eq!(printers.len(), 1);
    assert_eq!(printers[0].model.as_deref(), Some("Lobby"));
    assert_eq!(printers[0].community.as_deref(), Some("s3cr3t"));
    assert_eq!(printers[0].snmp_address.as_ref().unwrap().port, 1161);
    assert_eq!(printers[0].last_seen, Some(9));
}

#[test]
fn name_backfill_never_touches_manual_records() {
    let mut printers = vec![discovered("10.0.0.7", "10.0.0.7", 1)];
    printers[0].id = PrinterId::new("manual-10.0.0.7".to_string());
    let id = PrinterId::new("manual-10.0.0.7".to_string());
    let kept = apply_printer_name_fallback(&mut printers, &id, "Other".to_string(), true, None);
    assert_eq!(kept, None);
    assert_eq!(printers[0].model.as_deref(), Some("10.0.0.7"));
}

#[test]
fn concurrency_ceiling_bounds_in_flight_probes() {
    let mut run = DiscoveryRun::new(2);
    run.start(vec![
        SnmpAddress::with_default_port("10.0.0.1".to_string()),
        SnmpAddress::with_default_port("10.0.0.2".to_string()),
        SnmpAddress::with_default_port("10.0.0.3".to_string()),
    ]);
    assert!(run.next_probe().is_some());
    assert!(run.next_probe().is_some());
    assert!(run.next_probe().is_none());
    let run_id = run.run_id;
    assert!(run.on_result(run_id, ProbeOutcome::NotPrinter));
    assert!(run.next_probe().is_some());
    assert!(run.on_result(run_id, ProbeOutcome::Printer));
    assert!(run.on_result(run_id, ProbeOutcome::Failed));
    assert!(run.next_probe().is_none());
    assert!(!run.active);
    assert_eq!(run.scanned, 3);
    assert_eq!(run.found, 1);
    assert_eq!(run.errors, 1);
}
