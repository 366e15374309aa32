use printcountpay_core::model::{PrinterId, PrinterRecord};
use printcountpay_core::ricoh::{CounterAvailability, CounterStrategy, RicohMatch, RicohProfile};

#[test]
fn identifies_ricoh_from_oid() {
    let profile = RicohProfile::identify(Some("1.3.6.1.4.1.367.3.2.1"), Some("Generic Printer"));
    assert_eq!(profile.match_status, RicohMatch::Unmapped);
    assert!(profile.notes.iter().any(|note| note.contains("Ricoh identified")));
}

#[test]
fn identifies_color_model_from_descr() {
    let profile = RicohProfile::identify(None, Some("Ricoh IM C3000"));
    assert_eq!(profile.match_status, RicohMatch::Known);
    assert_eq!(profile.counters.color, true);
    assert_eq!(profile.strategy, CounterStrategy::BwColorPreferred);
    assert_eq!(profile.model.as_deref(), Some("IM C3000"));
}

#[test]
fn identifies_mono_model_from_descr() {
    let profile = RicohProfile::identify(None, Some("RICOH IM 4000"));
    assert_eq!(profile.match_status, RicohMatch::Known);
    assert_eq!(profile.counters.color, false);
    assert_eq!(profile.strategy, CounterStrategy::BwOnly);
    assert_eq!(profile.model.as_deref(), Some("IM 4000"));
}

#[test]
fn non_ricoh_is_marked() {
    let profile = RicohProfile::identify(None, Some("HP LaserJet 5000"));
    assert_eq!(profile.match_status, RicohMatch::NotRicoh);
    assert_eq!(profile.counters, CounterAvailability::none());
}

#[test]
fn blank_inputs_are_treated_as_absent() {
    let profile = RicohProfile::identify(Some("   "), Some(""));
    assert_eq!(profile.match_status, RicohMatch::NotRicoh);
    assert_eq!(profile.sys_object_id, None);
    assert_eq!(profile.sys_descr, None);
    assert!(profile.notes.is_empty());
}

#[test]
fn keyword_without_model_text_is_unmapped() {
    let profile = RicohProfile::identify(None, Some("RICOH"));
    assert_eq!(profile.match_status, RicohMatch::Unmapped);
    assert_eq!(profile.model, None);
    assert_eq!(profile.strategy, CounterStrategy::Unknown);
    assert!(profile
        .notes
        .iter()
        .any(|note| note == "Ricoh model string not found."));
}

#[test]
fn mono_profile_offers_bw_and_total_only() {
    let profile = RicohProfile::identify(None, Some("ricoh MP 2014"));
    assert_eq!(profile.match_status, RicohMatch::Known);
    assert!(profile.counters.bw);
    assert!(!profile.counters.color);
    assert!(profile.counters.total);
}

#[test]
fn from_printer_uses_stored_fields() {
    let mut record = PrinterRecord::new(PrinterId::new("p1".to_string()));
    record.model = Some("Ricoh IM C3000".to_string());
    let profile = RicohProfile::from_printer(&record);
    assert_eq!(profile.match_status, RicohMatch::Known);
    assert_eq!(profile.model.as_deref(), Some("IM C3000"));
}
