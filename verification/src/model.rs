//! Core data model: printer identity, addressing, status, and counter
//! snapshots shared by discovery, polling, and counter resolution.
use vstd::prelude::*;
use vstd::string::*;

use crate::text::{dec_digits, u64_dec};

verus! {

/// Seconds since the Unix epoch, as reported by a caller-supplied clock.
pub type EpochSeconds = u64;

/// The well-known SNMP management port.
pub const DEFAULT_SNMP_PORT: u16 = 161;

pub fn default_snmp_port() -> (r: u16)
    ensures
        r == DEFAULT_SNMP_PORT,
{
    DEFAULT_SNMP_PORT
}

/// Stable identity key of a printer record.
#[derive(Debug, Clone)]
pub struct PrinterId(pub String);

impl PrinterId {
    pub fn new(value: String) -> (r: Self)
        ensures
            r.0@ == value@,
    {
        PrinterId(value)
    }

    /// The key as text.
    pub fn text(&self) -> (r: String)
        ensures
            r@ == self.0@,
    {
        self.0.clone()
    }

    /// Compares two keys character for character.
    pub fn eq_id(&self, other: &PrinterId) -> (r: bool)
        ensures
            r == (self.0@ == other.0@),
    {
        crate::text::str_eq(self.0.as_str(), other.0.as_str())
    }
}

/// The `host:port` rendering of an address.
pub open spec fn addr_text(host: Seq<char>, port: u16) -> Seq<char> {
    host + seq![':'] + dec_digits(port as int)
}

/// Host (textual address or name) and management port of a device.
#[derive(Debug, Clone)]
pub struct SnmpAddress {
    pub host: String,
    pub port: u16,
}

impl SnmpAddress {
    pub fn new(host: String, port: u16) -> (r: Self)
        ensures
            r.host@ == host@,
            r.port == port,
    {
        SnmpAddress { host, port }
    }

    pub fn with_default_port(host: String) -> (r: Self)
        ensures
            r.host@ == host@,
            r.port == DEFAULT_SNMP_PORT,
    {
        SnmpAddress { host, port: DEFAULT_SNMP_PORT }
    }

    /// A verified copy of the address.
    pub fn dup(&self) -> (r: Self)
        ensures
            r == *self,
    {
        SnmpAddress { host: self.host.clone(), port: self.port }
    }

    /// Renders the address as `host:port`.
    pub fn text(&self) -> (r: String)
        ensures
            r@ == addr_text(self.host@, self.port),
    {
        let mut r = self.host.clone();
        r.append(":");
        r.append(u64_dec(self.port as u64).as_str());
        proof {
            reveal_strlit(":");
            assert(r@ =~= addr_text(self.host@, self.port));
        }
        r
    }
}

/// Liveness classification of a printer record.
#[derive(Debug, Clone, Copy, PartialEq, Eq, Structural)]
pub enum PrinterStatus {
    Unknown,
    Online,
    Offline,
    Error,
}

impl Default for PrinterStatus {
    fn default() -> (r: Self)
        ensures
            r == PrinterStatus::Unknown,
    {
        PrinterStatus::Unknown
    }
}

/// A discovered or manually entered printer. Optional fields stay absent
/// until discovery or polling fills them in.
#[derive(Debug, Clone)]
pub struct PrinterRecord {
    pub id: PrinterId,
    pub ip_or_hostname: Option<String>,
    pub model: Option<String>,
    pub sys_object_id: Option<String>,
    pub snmp_address: Option<SnmpAddress>,
    pub community: Option<String>,
    pub status: PrinterStatus,
    pub last_seen: Option<EpochSeconds>,
}

impl PrinterRecord {
    pub fn new(id: PrinterId) -> (r: Self)
        ensures
            r.id == id,
            r.ip_or_hostname.is_none(),
            r.model.is_none(),
            r.sys_object_id.is_none(),
            r.snmp_address.is_none(),
            r.community.is_none(),
            r.status == PrinterStatus::Unknown,
            r.last_seen.is_none(),
    {
        PrinterRecord {
            id,
            ip_or_hostname: None,
            model: None,
            sys_object_id: None,
            snmp_address: None,
            community: None,
            status: PrinterStatus::Unknown,
            last_seen: None,
        }
    }
}

/// The identifiers, as text, that produced each resolved counter category.
#[derive(Debug, Clone)]
pub struct CounterOids {
    pub bw: Option<String>,
    pub color: Option<String>,
    pub total: Option<String>,
}

impl Default for CounterOids {
    fn default() -> (r: Self)
        ensures
            r.bw.is_none(),
            r.color.is_none(),
            r.total.is_none(),
    {
        CounterOids { bw: None, color: None, total: None }
    }
}

/// Page-usage readings of one poll, by counter category, with the audit
/// identifiers that produced them.
#[derive(Debug, Clone)]
pub struct CounterSnapshot {
    pub bw: Option<u64>,
    pub color: Option<u64>,
    pub total: Option<u64>,
    pub timestamp: EpochSeconds,
    pub source_oids: CounterOids,
}

impl CounterSnapshot {
    pub fn new(timestamp: EpochSeconds) -> (r: Self)
        ensures
            r.bw.is_none(),
            r.color.is_none(),
            r.total.is_none(),
            r.timestamp == timestamp,
            r.source_oids.bw.is_none(),
            r.source_oids.color.is_none(),
            r.source_oids.total.is_none(),
    {
        CounterSnapshot {
            bw: None,
            color: None,
            total: None,
            timestamp,
            source_oids: CounterOids { bw: None, color: None, total: None },
        }
    }
}

} // verus!
