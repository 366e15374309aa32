//! Error taxonomy shared by every layer. Each error renders a short
//! user-facing summary and a verbose technical detail string.
use vstd::prelude::*;
use vstd::string::*;

use crate::text::{dec_digits, join_with, lemma_join_with_push, u64_dec};

verus! {

/// Which persistence operation failed.
#[derive(Debug, Clone, Copy, PartialEq, Eq, Structural)]
pub enum StorageAction {
    Load,
    Save,
}

/// The lower-case name of the persistence operation.
pub open spec fn storage_action_text(a: StorageAction) -> Seq<char> {
    match a {
        StorageAction::Load => "load"@,
        StorageAction::Save => "save"@,
    }
}

impl StorageAction {
    pub fn label(&self) -> (r: &'static str)
        ensures
            r@ == storage_action_text(*self),
    {
        match self {
            StorageAction::Load => "load",
            StorageAction::Save => "save",
        }
    }
}

/// Failure taxonomy of the core: authentication mismatch, timeout, generic
/// transport faults, unsupported models, counter problems, discovery and
/// persistence failures.
#[derive(Debug, Clone)]
pub enum Error {
    SnmpAuth { address: String, details: Option<String> },
    SnmpTimeout { address: String, timeout_ms: u64 },
    SnmpFailure { address: String, details: String },
    UnsupportedModel { model: String, sys_object_id: Option<String> },
    MissingCounters { printer_id: String, missing: Vec<String> },
    CounterReset { printer_id: String, previous: u64, current: u64 },
    DiscoveryFailure { range: Option<String>, details: String },
    Ron { action: StorageAction, path: Option<String>, details: String },
    StorageIo { action: StorageAction, path: Option<String>, details: String },
}

/// The short user-facing summary of an error.
pub open spec fn summary_spec(e: Error) -> Seq<char> {
    match e {
        Error::SnmpAuth { address, .. } => "SNMP authentication failed for "@ + address@ + "."@,
        Error::SnmpTimeout { address, .. } => "SNMP request timed out for "@ + address@ + "."@,
        Error::SnmpFailure { address, .. } => "SNMP error for "@ + address@ + "."@,
        Error::UnsupportedModel { model, .. } => "Unsupported Ricoh model: "@ + model@ + "."@,
        Error::MissingCounters { printer_id, .. } => "Missing counters for printer "@
            + printer_id@ + "."@,
        Error::CounterReset { printer_id, .. } => "Counter reset detected for printer "@
            + printer_id@ + "."@,
        Error::DiscoveryFailure { .. } => "Discovery failed."@,
        Error::Ron { action, .. } => "Failed to "@ + storage_action_text(action)
            + " configuration data."@,
        Error::StorageIo { action, .. } => "Failed to "@ + storage_action_text(action)
            + " configuration file."@,
    }
}

/// The verbose technical detail of an error.
pub open spec fn detail_spec(e: Error) -> Seq<char> {
    match e {
        Error::SnmpAuth { address, details } => "SNMP auth failed for "@ + address@ + (
        match details {
            Some(d) => " ("@ + d@ + ")"@,
            None => Seq::<char>::empty(),
        }) + "."@,
        Error::SnmpTimeout { address, timeout_ms } => "SNMP timeout after "@ + dec_digits(
            timeout_ms as int,
        ) + "ms for "@ + address@ + "."@,
        Error::SnmpFailure { address, details } => "SNMP failure for "@ + address@ + ": "@
            + details@,
        Error::UnsupportedModel { model, sys_object_id } => "Unsupported model "@ + model@ + "."@
            + (match sys_object_id {
            Some(id) => " sysObjectID="@ + id@,
            None => Seq::<char>::empty(),
        }),
        Error::MissingCounters { printer_id, missing } => "Missing counters for "@ + printer_id@
            + ": "@ + join_with(missing@.map_values(|m: String| m@), ", "@) + "."@,
        Error::CounterReset { printer_id, previous, current } => "Counter reset for "@
            + printer_id@ + ": "@ + dec_digits(previous as int) + " -> "@ + dec_digits(
            current as int,
        ) + "."@,
        Error::DiscoveryFailure { range, details } => "Discovery failure"@ + (match range {
            Some(r) => " range="@ + r@ + "."@,
            None => Seq::<char>::empty(),
        }) + " "@ + details@,
        Error::Ron { action, path, details } => "RON "@ + storage_action_text(action) + " error."@
            + (match path {
            Some(p) => " path="@ + p@ + "."@,
            None => Seq::<char>::empty(),
        }) + " "@ + details@,
        Error::StorageIo { action, path, details } => "Storage "@ + storage_action_text(action)
            + " error."@ + (match path {
            Some(p) => " path="@ + p@ + "."@,
            None => Seq::<char>::empty(),
        }) + " "@ + details@,
    }
}

impl Error {
    /// The short summary that callers display to the user.
    pub fn user_summary(&self) -> (r: String)
        ensures
            r@ == summary_spec(*self),
    {
        proof {
            reveal_strlit("SNMP authentication failed for ");
            reveal_strlit("SNMP request timed out for ");
            reveal_strlit("SNMP error for ");
            reveal_strlit("Unsupported Ricoh model: ");
            reveal_strlit("Missing counters for printer ");
            reveal_strlit("Counter reset detected for printer ");
            reveal_strlit("Discovery failed.");
            reveal_strlit("Failed to ");
            reveal_strlit(" configuration data.");
            reveal_strlit(" configuration file.");
            reveal_strlit(".");
        }
        match self {
            Error::SnmpAuth { address, .. } => {
                let mut r = String::from_str("SNMP authentication failed for ");
                r.append(address.as_str());
                r.append(".");
                proof {
                    assert(r@ =~= summary_spec(*self));
                }
                r
            },
            Error::SnmpTimeout { address, .. } => {
                let mut r = String::from_str("SNMP request timed out for ");
                r.append(address.as_str());
                r.append(".");
                proof {
                    assert(r@ =~= summary_spec(*self));
                }
                r
            },
            Error::SnmpFailure { address, .. } => {
                let mut r = String::from_str("SNMP error for ");
                r.append(address.as_str());
                r.append(".");
                proof {
                    assert(r@ =~= summary_spec(*self));
                }
                r
            },
            Error::UnsupportedModel { model, .. } => {
                let mut r = String::from_str("Unsupported Ricoh model: ");
                r.append(model.as_str());
                r.append(".");
                proof {
                    assert(r@ =~= summary_spec(*self));
                }
                r
            },
            Error::MissingCounters { printer_id, .. } => {
                let mut r = String::from_str("Missing counters for printer ");
                r.append(printer_id.as_str());
                r.append(".");
                proof {
                    assert(r@ =~= summary_spec(*self));
                }
                r
            },
            Error::CounterReset { printer_id, .. } => {
                let mut r = String::from_str("Counter reset detected for printer ");
                r.append(printer_id.as_str());
                r.append(".");
                proof {
                    assert(r@ =~= summary_spec(*self));
                }
                r
            },
            Error::DiscoveryFailure { .. } => {
                let r = String::from_str("Discovery failed.");
                proof {
                    assert(r@ =~= summary_spec(*self));
                }
                r
            },
            Error::Ron { action, .. } => {
                let mut r = String::from_str("Failed to ");
                r.append(action.label());
                r.append(" configuration data.");
                proof {
                    assert(r@ =~= summary_spec(*self));
                }
                r
            },
            Error::StorageIo { action, .. } => {
                let mut r = String::from_str("Failed to ");
                r.append(action.label());
                r.append(" configuration file.");
                proof {
                    assert(r@ =~= summary_spec(*self));
                }
                r
            },
        }
    }

    /// The verbose detail that callers log or export.
    pub fn technical_detail(&self) -> (r: String)
        ensures
            r@ == detail_spec(*self),
    {
        proof {
            reveal_strlit("SNMP auth failed for ");
            reveal_strlit("SNMP timeout after ");
            reveal_strlit("ms for ");
            reveal_strlit("SNMP failure for ");
            reveal_strlit("Unsupported model ");
            reveal_strlit(" sysObjectID=");
            reveal_strlit("Missing counters for ");
            reveal_strlit("Counter reset for ");
            reveal_strlit(" -> ");
            reveal_strlit("Discovery failure");
            reveal_strlit(" range=");
            reveal_strlit("RON ");
            reveal_strlit("Storage ");
            reveal_strlit(" error.");
            reveal_strlit(" path=");
            reveal_strlit(" (");
            reveal_strlit(")");
            reveal_strlit(".");
            reveal_strlit(": ");
            reveal_strlit(", ");
            reveal_strlit(" ");
        }
        match self {
            Error::SnmpAuth { address, details } => {
                let mut r = String::from_str("SNMP auth failed for ");
                r.append(address.as_str());
                match details {
                    Some(d) => {
                        r.append(" (");
                        r.append(d.as_str());
                        r.append(")");
                    },
                    None => {},
                }
                r.append(".");
                proof {
                    assert(r@ =~= detail_spec(*self));
                }
                r
            },
            Error::SnmpTimeout { address, timeout_ms } => {
                let mut r = String::from_str("SNMP timeout after ");
                r.append(u64_dec(*timeout_ms).as_str());
                r.append("ms for ");
                r.append(address.as_str());
                r.append(".");
                proof {
                    assert(r@ =~= detail_spec(*self));
                }
                r
            },
            Error::SnmpFailure { address, details } => {
                let mut r = String::from_str("SNMP failure for ");
                r.append(address.as_str());
                r.append(": ");
                r.append(details.as_str());
                proof {
                    assert(r@ =~= detail_spec(*self));
                }
                r
            },
            Error::UnsupportedModel { model, sys_object_id } => {
                let mut r = String::from_str("Unsupported model ");
                r.append(model.as_str());
                r.append(".");
                match sys_object_id {
                    Some(id) => {
                        r.append(" sysObjectID=");
                        r.append(id.as_str());
                    },
                    None => {},
                }
                proof {
                    assert(r@ =~= detail_spec(*self));
                }
                r
            },
            Error::MissingCounters { printer_id, missing } => {
                let mut r = String::from_str("Missing counters for ");
                r.append(printer_id.as_str());
                r.append(": ");
                r.append(comma_join(missing).as_str());
                r.append(".");
                proof {
                    assert(r@ =~= detail_spec(*self));
                }
                r
            },
            Error::CounterReset { printer_id, previous, current } => {
                let mut r = String::from_str("Counter reset for ");
                r.append(printer_id.as_str());
                r.append(": ");
                r.append(u64_dec(*previous).as_str());
                r.append(" -> ");
                r.append(u64_dec(*current).as_str());
                r.append(".");
                proof {
                    assert(r@ =~= detail_spec(*self));
                }
                r
            },
            Error::DiscoveryFailure { range, details } => {
                let mut r = String::from_str("Discovery failure");
                match range {
                    Some(text) => {
                        r.append(" range=");
                        r.append(text.as_str());
                        r.append(".");
                    },
                    None => {},
                }
                r.append(" ");
                r.append(details.as_str());
                proof {
                    assert(r@ =~= detail_spec(*self));
                }
                r
            },
            Error::Ron { action, path, details } => {
                let mut r = String::from_str("RON ");
                r.append(action.label());
                r.append(" error.");
                match path {
                    Some(p) => {
                        r.append(" path=");
                        r.append(p.as_str());
                        r.append(".");
                    },
                    None => {},
                }
                r.append(" ");
                r.append(details.as_str());
                proof {
                    assert(r@ =~= detail_spec(*self));
                }
                r
            },
            Error::StorageIo { action, path, details } => {
                let mut r = String::from_str("Storage ");
                r.append(action.label());
                r.append(" error.");
                match path {
                    Some(p) => {
                        r.append(" path=");
                        r.append(p.as_str());
                        r.append(".");
                    },
                    None => {},
                }
                r.append(" ");
                r.append(details.as_str());
                proof {
                    assert(r@ =~= detail_spec(*self));
                }
                r
            },
        }
    }
}

/// Joins a list of texts with a comma and a space.
fn comma_join(items: &Vec<String>) -> (r: String)
    ensures
        r@ == join_with(items@.map_values(|m: String| m@), ", "@),
{
    let ghost parts = items@.map_values(|m: String| m@);
    if items.len() == 0 {
        let r = String::new();
        proof {
            assert(parts.len() == 0);
        }
        return r;
    }
    let mut r = items[0].clone();
    let mut i: usize = 1;
    proof {
        assert(items@.take(1).map_values(|m: String| m@) =~= seq![items@[0]@]);
        assert(join_with(seq![items@[0]@], ", "@) == items@[0]@);
    }
    while i < items.len()
        invariant
            1 <= i <= items@.len(),
            r@ == join_with(items@.take(i as int).map_values(|m: String| m@), ", "@),
        decreases items@.len() - i,
    {
        let ghost prev = items@.take(i as int).map_values(|m: String| m@);
        r.append(", ");
        r.append(items[i].as_str());
        proof {
            reveal_strlit(", ");
            lemma_join_with_push(prev, items@[i as int]@, ", "@);
            assert(items@.take(i as int + 1).map_values(|m: String| m@) =~= prev.push(
                items@[i as int]@,
            ));
            assert(r@ =~= join_with(prev, ", "@) + ", "@ + items@[i as int]@);
        }
        i += 1;
    }
    proof {
        assert(items@.take(items@.len() as int) =~= items@);
    }
    r
}

} // verus!
