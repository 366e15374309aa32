//! SNMP data model and protocol logic: identifiers, values, requests,
//! configuration, the walk state machine, and the in-memory queued client
//! used for deterministic testing.
use vstd::prelude::*;
use vstd::string::*;

use crate::error::Error;
use crate::model::{addr_text, SnmpAddress};
use crate::text::{
    all_digits, dec_digits, dec_val, is_digit, join, lemma_dec_digits_val,
    lemma_dec_val_prefix_le, lemma_dec_val_push, lemma_split_first_sep, lemma_split_join, split,
    str_eq, u64_dec,
};

verus! {

/// Parses a sequence of split parts into identifier arcs: empty parts are
/// skipped, a part that is not all digits or whose value does not fit in
/// 32 bits fails the whole parse.
pub open spec fn arcs_of_parts(parts: Seq<Seq<char>>) -> Option<Seq<u32>>
    decreases parts.len(),
{
    if parts.len() == 0 {
        Some(Seq::<u32>::empty())
    } else if parts[0].len() == 0 {
        arcs_of_parts(parts.drop_first())
    } else if all_digits(parts[0]) && dec_val(parts[0]) <= u32::MAX {
        match arcs_of_parts(parts.drop_first()) {
            Some(rest) => Some(seq![dec_val(parts[0]) as u32] + rest),
            None => None,
        }
    } else {
        None
    }
}

/// The meaning of a dotted identifier string: split on dots, skip empty
/// components, require at least one numeric component.
pub open spec fn parse_arcs(s: Seq<char>) -> Option<Seq<u32>> {
    match arcs_of_parts(split(s, '.')) {
        Some(arcs) => if arcs.len() == 0 {
            None
        } else {
            Some(arcs)
        },
        None => None,
    }
}

/// The canonical dotted text of identifier arcs.
pub open spec fn oid_text(arcs: Seq<u32>) -> Seq<char> {
    join(arcs.map_values(|a: u32| dec_digits(a as int)), '.')
}

/// Hierarchical numeric identifier naming a protocol-exposed value.
#[derive(Debug, Clone)]
pub struct Oid(pub Vec<u32>);

impl View for Oid {
    type V = Seq<u32>;

    open spec fn view(&self) -> Seq<u32> {
        self.0@
    }
}

impl PartialEq for Oid {
    fn eq(&self, other: &Oid) -> (r: bool) {
        oid_eq(self, other)
    }
}

impl Eq for Oid {

}

impl vstd::std_specs::cmp::PartialEqSpecImpl for Oid {
    open spec fn obeys_eq_spec() -> bool {
        true
    }

    open spec fn eq_spec(&self, other: &Oid) -> bool {
        self@ == other@
    }
}

/// Compares two identifiers arc for arc.
pub fn oid_eq(a: &Oid, b: &Oid) -> (r: bool)
    ensures
        r == (a@ == b@),
{
    if a.0.len() != b.0.len() {
        proof {
            assert(a@ != b@);
        }
        return false;
    }
    let mut i: usize = 0;
    while i < a.0.len()
        invariant
            0 <= i <= a@.len(),
            a@.len() == b@.len(),
            forall|j: int| 0 <= j < i ==> a@[j] == b@[j],
        decreases a@.len() - i,
    {
        if a.0[i] != b.0[i] {
            proof {
                assert(a@[i as int] != b@[i as int]);
            }
            return false;
        }
        i += 1;
    }
    proof {
        assert(a@ =~= b@);
    }
    true
}

/// Failure to read a dotted identifier: carries the offending component.
#[derive(Debug, Clone)]
pub struct OidParseError {
    pub component: String,
}

impl OidParseError {
    /// Renders the failure for display.
    pub fn message(&self) -> (r: String)
        ensures
            r@ == "invalid OID component: "@ + self.component@,
    {
        proof {
            reveal_strlit("invalid OID component: ");
        }
        let mut r = String::from_str("invalid OID component: ");
        r.append(self.component.as_str());
        r
    }
}

impl Oid {
    pub fn from_slice(slice: &[u32]) -> (r: Self)
        ensures
            r@ == slice@,
    {
        let mut arcs: Vec<u32> = Vec::new();
        let mut i: usize = 0;
        while i < slice.len()
            invariant
                0 <= i <= slice@.len(),
                arcs@ =~= slice@.take(i as int),
            decreases slice@.len() - i,
        {
            arcs.push(slice[i]);
            i += 1;
        }
        proof {
            assert(slice@.take(slice@.len() as int) =~= slice@);
        }
        Oid(arcs)
    }

    /// A verified copy of the identifier.
    pub fn dup(&self) -> (r: Self)
        ensures
            r@ == self@,
    {
        Oid::from_slice(self.0.as_slice())
    }

    pub fn as_slice(&self) -> (r: &[u32])
        ensures
            r@ == self@,
    {
        self.0.as_slice()
    }

    /// Renders the identifier as dot-joined decimal components.
    pub fn text(&self) -> (r: String)
        ensures
            r@ == oid_text(self@),
    {
        let ghost parts = self@.map_values(|a: u32| dec_digits(a as int));
        if self.0.len() == 0 {
            let r = String::new();
            proof {
                assert(parts.len() == 0);
            }
            return r;
        }
        let mut r = u64_dec(self.0[0] as u64);
        let mut i: usize = 1;
        proof {
            assert(self@.take(1).map_values(|a: u32| dec_digits(a as int)) =~= seq![
                dec_digits(self@[0] as int),
            ]);
            assert(join(seq![dec_digits(self@[0] as int)], '.') == dec_digits(self@[0] as int));
        }
        while i < self.0.len()
            invariant
                1 <= i <= self@.len(),
                r@ == join(self@.take(i as int).map_values(|a: u32| dec_digits(a as int)), '.'),
            decreases self@.len() - i,
        {
            let ghost prev = self@.take(i as int).map_values(|a: u32| dec_digits(a as int));
            r.append(".");
            r.append(u64_dec(self.0[i] as u64).as_str());
            proof {
                reveal_strlit(".");
                crate::text::lemma_join_push(prev, dec_digits(self@[i as int] as int), '.');
                assert(self@.take(i as int + 1).map_values(|a: u32| dec_digits(a as int))
                    =~= prev.push(dec_digits(self@[i as int] as int)));
                assert(r@ =~= join(prev, '.') + seq!['.'] + dec_digits(self@[i as int] as int));
            }
            i += 1;
        }
        proof {
            assert(self@.take(self@.len() as int) =~= self@);
        }
        r
    }
}

/// Partial parse state: arcs already read, followed by the text that remains.
pub open spec fn arcs_result(acc: Seq<u32>, rest: Seq<char>) -> Option<Seq<u32>> {
    match arcs_of_parts(split(rest, '.')) {
        Some(t) => Some(acc + t),
        None => None,
    }
}

impl Oid {
    /// Reads a dot-joined numeric identifier. Empty components are skipped;
    /// the parse fails when no component remains or a component is not a
    /// 32-bit decimal number.
    pub fn parse_text(s: &str) -> (r: Result<Oid, OidParseError>)
        ensures
            match r {
                Ok(oid) => parse_arcs(s@) == Some(oid@),
                Err(_) => parse_arcs(s@).is_none(),
            },
    {
        let len = s.unicode_len();
        let mut arcs: Vec<u32> = Vec::new();
        let mut pos: usize = 0;
        proof {
            assert(s@.skip(0) =~= s@);
            match arcs_of_parts(split(s@, '.')) {
                Some(t) => {
                    assert(arcs@ + t =~= t);
                },
                None => {},
            }
        }
        while pos < len
            invariant
                0 <= pos <= len,
                len == s@.len(),
                arcs_result(arcs@, s@.skip(pos as int)) == arcs_of_parts(split(s@, '.')),
            decreases len - pos,
        {
            let ghost rest = s@.skip(pos as int);
            let mut j: usize = pos;
            while j < len && s.get_char(j) != '.'
                invariant
                    pos <= j <= len,
                    len == s@.len(),
                    forall|p: int| pos <= p < j ==> s@[p] != '.',
                decreases len - j,
            {
                j += 1;
            }
            proof {
                assert(forall|m: int| 0 <= m < rest.len() ==> rest[m] == s@[pos + m]);
                lemma_split_first_sep(rest, '.', j - pos as int);
            }
            if j == pos {
                // empty component before a dot: skip it
                proof {
                    assert(s@[j as int] == '.');
                    assert(rest[0] == '.');
                    assert(split(rest, '.') =~~= seq![rest.take(0)] + split(rest.skip(1), '.'));
                    let parts = split(rest, '.');
                    assert(parts[0].len() == 0);
                    assert(parts.drop_first() =~= split(rest.skip(1), '.'));
                    assert(rest.skip(1) =~= s@.skip(pos as int + 1));
                }
                pos = j + 1;
                continue;
            }
            let ghost comp = s@.subrange(pos as int, j as int);
            proof {
                assert(comp =~= rest.take(j - pos as int));
                if j < len {
                    assert(s@[j as int] == '.');
                    assert(rest[j - pos as int] == '.');
                    assert(split(rest, '.') =~~= seq![comp] + split(
                        rest.skip(j - pos as int + 1),
                        '.',
                    ));
                } else {
                    assert(split(rest, '.') =~~= seq![comp]);
                }
                assert(split(rest, '.')[0] == comp);
                assert(comp.len() > 0);
            }
            let mut val: u64 = 0;
            let mut i: usize = pos;
            proof {
                assert(s@.subrange(pos as int, pos as int) =~= Seq::<char>::empty());
            }
            while i < j
                invariant
                    pos <= i <= j <= len,
                    len == s@.len(),
                    pos < j,
                    comp == s@.subrange(pos as int, j as int),
                    all_digits(s@.subrange(pos as int, i as int)),
                    val == dec_val(s@.subrange(pos as int, i as int)),
                    val <= u32::MAX as u64,
                    arcs_result(arcs@, s@.skip(pos as int)) == arcs_of_parts(split(s@, '.')),
                    split(s@.skip(pos as int), '.')[0] == comp,
                    arcs_of_parts(split(s@.skip(pos as int), '.')).is_none() ==> arcs_of_parts(
                        split(s@, '.'),
                    ).is_none(),
                    forall|p: int| pos <= p < j ==> s@[p] != '.',
                    j < len ==> s@[j as int] == '.',
                decreases j - i,
            {
                let ghost pre = s@.subrange(pos as int, i as int);
                let c = s.get_char(i);
                let cu = c as u32;
                if cu < 48 || cu > 57 {
                    proof {
                        assert(comp[i - pos as int] == s@[i as int]);
                        assert(!is_digit(comp[i - pos as int]));
                        assert(!all_digits(comp));
                        let parts = split(s@.skip(pos as int), '.');
                        assert(parts[0] == comp);
                        assert(arcs_of_parts(parts).is_none());
                    }
                    return Err(OidParseError { component: s.substring_char(pos, j).to_owned() });
                }
                let d = (cu - 48) as u64;
                let newval = val * 10 + d;
                proof {
                    let pre2 = s@.subrange(pos as int, i as int + 1);
                    assert(pre2.drop_last() =~= pre);
                    assert(pre2.last() == s@[i as int]);
                    lemma_dec_val_push(pre, s@[i as int]);
                    assert(crate::text::digit_val(s@[i as int]) == d);
                    assert(dec_val(pre2) == newval);
                    assert(all_digits(pre2));
                }
                if newval > 4294967295u64 {
                    proof {
                        let pre2 = s@.subrange(pos as int, i as int + 1);
                        let parts = split(s@.skip(pos as int), '.');
                        if all_digits(comp) {
                            assert(pre2 =~= comp.subrange(0, pre2.len() as int));
                            lemma_dec_val_prefix_le(pre2, comp);
                            assert(dec_val(comp) > u32::MAX);
                            assert(arcs_of_parts(parts).is_none());
                        } else {
                            assert(arcs_of_parts(parts).is_none());
                        }
                    }
                    return Err(OidParseError { component: s.substring_char(pos, j).to_owned() });
                }
                val = newval;
                i += 1;
            }
            proof {
                assert(s@.subrange(pos as int, i as int) =~= comp);
                assert(all_digits(comp));
                assert(dec_val(comp) == val);
            }
            let arc: u32 = val as u32;
            proof {
                assert(arc as int == dec_val(comp));
            }
            let ghost old_arcs = arcs@;
            arcs.push(arc);
            proof {
                let parts = split(s@.skip(pos as int), '.');
                let tailparts = parts.drop_first();
                assert(forall|m: int| 0 <= m < rest.len() ==> rest[m] == s@[pos + m]);
                lemma_split_first_sep(rest, '.', j - pos as int);
                assert(arcs_of_parts(Seq::<Seq<char>>::empty()) == Some(Seq::<u32>::empty()));
                assert(rest.take(j - pos as int) =~= comp);
                if j < len {
                    assert(rest[j - pos as int] == '.');
                    assert(rest.skip(j - pos as int + 1) =~= s@.skip(j as int + 1));
                }
                if j < len {
                    assert(parts =~~= seq![comp] + split(s@.skip(j as int + 1), '.'));
                    assert(tailparts =~= split(s@.skip(j as int + 1), '.'));
                } else {
                    assert(parts =~~= seq![comp]);
                    assert(tailparts =~= Seq::<Seq<char>>::empty());
                    assert(arcs_of_parts(tailparts) == Some(Seq::<u32>::empty()));
                    assert(s@.skip(len as int) =~= Seq::<char>::empty());
                    assert(split(Seq::<char>::empty(), '.') =~~= seq![Seq::<char>::empty()]);
                    assert(split(s@.skip(len as int), '.')[0].len() == 0);
                    assert(split(s@.skip(len as int), '.').drop_first()
                        =~= Seq::<Seq<char>>::empty());
                    assert(arcs_of_parts(split(s@.skip(len as int), '.')) == Some(
                        Seq::<u32>::empty(),
                    ));
                }
                match arcs_of_parts(tailparts) {
                    Some(t) => {
                        assert(arcs_of_parts(parts) == Some(seq![arc] + t));
                        assert(old_arcs + (seq![arc] + t) =~= arcs@ + t);
                    },
                    None => {
                        assert(arcs_of_parts(parts).is_none());
                    },
                }
            }
            if j < len {
                pos = j + 1;
            } else {
                pos = j;
            }
        }
        proof {
            assert(s@.skip(len as int) =~= Seq::<char>::empty());
            assert(split(Seq::<char>::empty(), '.') =~~= seq![Seq::<char>::empty()]);
            assert(split(s@.skip(len as int), '.').drop_first() =~= Seq::<Seq<char>>::empty());
            assert(arcs_of_parts(Seq::<Seq<char>>::empty()) == Some(Seq::<u32>::empty()));
            assert(arcs_of_parts(split(s@.skip(len as int), '.')) == Some(Seq::<u32>::empty()));
            assert(arcs@ + Seq::<u32>::empty() =~= arcs@);
        }
        if arcs.len() == 0 {
            return Err(OidParseError { component: s.to_owned() });
        }
        Ok(Oid(arcs))
    }
}

impl core::str::FromStr for Oid {
    type Err = OidParseError;

    fn from_str(s: &str) -> Result<Oid, OidParseError> {
        Oid::parse_text(s)
    }
}

/// Round trip: formatting any non-empty identifier and parsing the text
/// yields the identifier back.
pub proof fn lemma_identifier_round_trip(arcs: Seq<u32>)
    requires
        arcs.len() >= 1,
    ensures
        parse_arcs(oid_text(arcs)) == Some(arcs),
    decreases arcs.len(),
{
    let parts = arcs.map_values(|a: u32| dec_digits(a as int));
    assert forall|i: int, k: int|
        0 <= i < parts.len() && 0 <= k < parts[i].len() implies #[trigger] parts[i][k]
        != '.' by {
        lemma_dec_digits_val(arcs[i] as int);
        assert(is_digit(parts[i][k]));
        assert(parts[i][k] as u32 != 46);
    }
    lemma_split_join(parts, '.');
    lemma_arcs_of_digit_parts(arcs);
}

/// Largest identifier set sent in one GET query; larger sets are batched.
pub const MAX_OIDS_PER_GET: usize = 24;

/// Mathematical value of a protocol scalar.
pub enum ValueV {
    Null,
    Integer(i64),
    Unsigned32(u32),
    Counter32(u32),
    Counter64(u64),
    Timeticks(u32),
    OctetString(Seq<u8>),
    ObjectIdentifier(Seq<u32>),
    IpAddress(Seq<u8>),
    Opaque(Seq<u8>),
    Other(Seq<char>),
}

/// Tagged value union of the protocol scalar types.
#[derive(Debug, Clone)]
pub enum SnmpValue {
    Null,
    Integer(i64),
    Unsigned32(u32),
    Counter32(u32),
    Counter64(u64),
    Timeticks(u32),
    OctetString(Vec<u8>),
    ObjectIdentifier(Oid),
    IpAddress([u8; 4]),
    Opaque(Vec<u8>),
    Other(String),
}

impl View for SnmpValue {
    type V = ValueV;

    open spec fn view(&self) -> ValueV {
        match self {
            SnmpValue::Null => ValueV::Null,
            SnmpValue::Integer(v) => ValueV::Integer(*v),
            SnmpValue::Unsigned32(v) => ValueV::Unsigned32(*v),
            SnmpValue::Counter32(v) => ValueV::Counter32(*v),
            SnmpValue::Counter64(v) => ValueV::Counter64(*v),
            SnmpValue::Timeticks(v) => ValueV::Timeticks(*v),
            SnmpValue::OctetString(b) => ValueV::OctetString(b@),
            SnmpValue::ObjectIdentifier(oid) => ValueV::ObjectIdentifier(oid@),
            SnmpValue::IpAddress(b) => ValueV::IpAddress(b@),
            SnmpValue::Opaque(b) => ValueV::Opaque(b@),
            SnmpValue::Other(s) => ValueV::Other(s@),
        }
    }
}

/// The name given to what `String::from_utf8_lossy` returns: a function of
/// the bytes alone.
pub uninterp spec fn utf8_lossy_of(bytes: Seq<u8>) -> Seq<char>;

/// Relies on String::from_utf8_lossy: decodes bytes as UTF-8, replacing
/// invalid sequences; the result depends on the bytes alone, and no byte
/// gives an empty decoding.
#[verifier::external_body]
fn utf8_lossy(bytes: &Vec<u8>) -> (r: String)
    ensures
        r@ == utf8_lossy_of(bytes@),
        bytes@.len() == 0 ==> r@.len() == 0,
        bytes@.len() > 0 ==> r@.len() > 0,
{
    String::from_utf8_lossy(bytes.as_slice()).to_string()
}

/// Numeric reading of a value: counters and unsigned variants convert
/// directly, signed integers only when non-negative, everything else fails.
pub open spec fn as_u64_spec(v: ValueV) -> Option<u64> {
    match v {
        ValueV::Unsigned32(x) => Some(x as u64),
        ValueV::Counter32(x) => Some(x as u64),
        ValueV::Counter64(x) => Some(x),
        ValueV::Integer(x) => if x >= 0 {
            Some(x as u64)
        } else {
            None
        },
        _ => None,
    }
}

/// True for the null value and the protocol's no-such-object sentinels.
pub open spec fn is_missing_spec(v: ValueV) -> bool {
    match v {
        ValueV::Null => true,
        ValueV::Other(s) => s == "NoSuchObject"@ || s == "NoSuchInstance"@ || s
            == "EndOfMibView"@,
        _ => false,
    }
}

/// Lossy textual reading: defined for the byte-string variants only.
pub open spec fn as_text_spec(v: ValueV) -> Option<Seq<char>> {
    match v {
        ValueV::OctetString(b) => Some(utf8_lossy_of(b)),
        ValueV::Opaque(b) => Some(utf8_lossy_of(b)),
        _ => None,
    }
}

/// Signed decimal text.
pub open spec fn int_text(n: int) -> Seq<char> {
    if n < 0 {
        seq!['-'] + dec_digits(-n)
    } else {
        dec_digits(n)
    }
}

/// Display form of a value, used in exports and diagnostics.
pub open spec fn display_spec(v: ValueV) -> Seq<char> {
    match v {
        ValueV::Null => "null"@,
        ValueV::Integer(x) => int_text(x as int),
        ValueV::Unsigned32(x) => dec_digits(x as int),
        ValueV::Counter32(x) => dec_digits(x as int),
        ValueV::Counter64(x) => dec_digits(x as int),
        ValueV::Timeticks(x) => dec_digits(x as int) + " ticks"@,
        ValueV::OctetString(b) => utf8_lossy_of(b),
        ValueV::Opaque(b) => utf8_lossy_of(b),
        ValueV::ObjectIdentifier(arcs) => oid_text(arcs),
        ValueV::IpAddress(b) => oid_text(b.map_values(|x: u8| x as u32)),
        ValueV::Other(s) => s,
    }
}

/// Copies a byte vector.
fn copy_bytes(v: &Vec<u8>) -> (r: Vec<u8>)
    ensures
        r@ == v@,
{
    let mut out: Vec<u8> = Vec::new();
    let mut i: usize = 0;
    while i < v.len()
        invariant
            0 <= i <= v@.len(),
            out@ =~= v@.take(i as int),
        decreases v@.len() - i,
    {
        out.push(v[i]);
        i += 1;
    }
    proof {
        assert(v@.take(v@.len() as int) =~= v@);
    }
    out
}

impl SnmpValue {
    /// Numeric reading; see `as_u64_spec`.
    pub fn as_u64(&self) -> (r: Option<u64>)
        ensures
            r == as_u64_spec(self@),
    {
        match self {
            SnmpValue::Unsigned32(v) => Some(*v as u64),
            SnmpValue::Counter32(v) => Some(*v as u64),
            SnmpValue::Counter64(v) => Some(*v),
            SnmpValue::Integer(v) => if *v >= 0 {
                Some(*v as u64)
            } else {
                None
            },
            _ => None,
        }
    }

    /// Lossy textual reading; see `as_text_spec`.
    pub fn as_text_lossy(&self) -> (r: Option<String>)
        ensures
            match r {
                Some(s) => as_text_spec(self@) == Some(s@),
                None => as_text_spec(self@).is_none(),
            },
    {
        match self {
            SnmpValue::OctetString(b) => Some(utf8_lossy(b)),
            SnmpValue::Opaque(b) => Some(utf8_lossy(b)),
            _ => None,
        }
    }

    /// True for null and the no-such-object sentinels; see `is_missing_spec`.
    pub fn is_missing(&self) -> (r: bool)
        ensures
            r == is_missing_spec(self@),
    {
        match self {
            SnmpValue::Null => true,
            SnmpValue::Other(s) => str_eq(s.as_str(), "NoSuchObject") || str_eq(
                s.as_str(),
                "NoSuchInstance",
            ) || str_eq(s.as_str(), "EndOfMibView"),
            _ => false,
        }
    }

    /// Display form; see `display_spec`.
    pub fn display_text(&self) -> (r: String)
        ensures
            r@ == display_spec(self@),
    {
        match self {
            SnmpValue::Null => {
                let r = String::from_str("null");
                proof {
                    reveal_strlit("null");
                }
                r
            },
            SnmpValue::Integer(v) => {
                if *v >= 0 {
                    let r = u64_dec(*v as u64);
                    proof {
                        assert((*v as u64) as int == *v as int);
                    }
                    r
                } else {
                    let m: u64 = ((-(*v + 1)) as u64) + 1;
                    let mut r = String::from_str("-");
                    r.append(u64_dec(m).as_str());
                    proof {
                        reveal_strlit("-");
                        assert(m as int == -(*v as int));
                        assert(r@ =~= int_text(*v as int));
                    }
                    r
                }
            },
            SnmpValue::Unsigned32(v) => u64_dec(*v as u64),
            SnmpValue::Counter32(v) => u64_dec(*v as u64),
            SnmpValue::Counter64(v) => u64_dec(*v),
            SnmpValue::Timeticks(v) => {
                let mut r = u64_dec(*v as u64);
                r.append(" ticks");
                proof {
                    reveal_strlit(" ticks");
                }
                r
            },
            SnmpValue::OctetString(b) => utf8_lossy(b),
            SnmpValue::Opaque(b) => utf8_lossy(b),
            SnmpValue::ObjectIdentifier(oid) => oid.text(),
            SnmpValue::IpAddress(b) => {
                let mut arcs: Vec<u32> = Vec::new();
                arcs.push(b[0] as u32);
                arcs.push(b[1] as u32);
                arcs.push(b[2] as u32);
                arcs.push(b[3] as u32);
                let quad = Oid(arcs);
                let r = quad.text();
                proof {
                    assert(quad@ =~= b@.map_values(|x: u8| x as u32));
                }
                r
            },
            SnmpValue::Other(s) => s.clone(),
        }
    }

    /// A verified copy of the value.
    pub fn dup(&self) -> (r: Self)
        ensures
            r@ == self@,
    {
        match self {
            SnmpValue::Null => SnmpValue::Null,
            SnmpValue::Integer(v) => SnmpValue::Integer(*v),
            SnmpValue::Unsigned32(v) => SnmpValue::Unsigned32(*v),
            SnmpValue::Counter32(v) => SnmpValue::Counter32(*v),
            SnmpValue::Counter64(v) => SnmpValue::Counter64(*v),
            SnmpValue::Timeticks(v) => SnmpValue::Timeticks(*v),
            SnmpValue::OctetString(b) => SnmpValue::OctetString(copy_bytes(b)),
            SnmpValue::ObjectIdentifier(oid) => SnmpValue::ObjectIdentifier(oid.dup()),
            SnmpValue::IpAddress(b) => SnmpValue::IpAddress(*b),
            SnmpValue::Opaque(b) => SnmpValue::Opaque(copy_bytes(b)),
            SnmpValue::Other(s) => SnmpValue::Other(s.clone()),
        }
    }
}

/// Mathematical value of an identifier/value pair.
pub struct VarBindV {
    pub oid: Seq<u32>,
    pub value: ValueV,
}

/// An identifier/value pair returned by a protocol operation.
#[derive(Debug, Clone)]
pub struct SnmpVarBind {
    pub oid: Oid,
    pub value: SnmpValue,
}

impl View for SnmpVarBind {
    type V = VarBindV;

    open spec fn view(&self) -> VarBindV {
        VarBindV { oid: self.oid@, value: self.value@ }
    }
}

impl SnmpVarBind {
    /// A verified copy of the pair.
    pub fn dup(&self) -> (r: Self)
        ensures
            r@ == self@,
    {
        SnmpVarBind { oid: self.oid.dup(), value: self.value.dup() }
    }
}

/// The views of a sequence of pairs.
pub open spec fn vbs_view(vbs: Seq<SnmpVarBind>) -> Seq<VarBindV> {
    vbs.map_values(|vb: SnmpVarBind| vb@)
}

/// Default secret, per-attempt budget and retry count for protocol calls.
#[derive(Debug, Clone)]
pub struct SnmpConfig {
    pub community: String,
    pub timeout_ms: u64,
    pub retries: u32,
}

impl Default for SnmpConfig {
    fn default() -> (r: Self)
        ensures
            r.community@ == "public"@,
            r.timeout_ms == 2000,
            r.retries == 1,
    {
        SnmpConfig { community: String::from_str("public"), timeout_ms: 2000, retries: 1 }
    }
}

/// A GET request: target address, optional secret, identifiers to fetch.
#[derive(Debug, Clone)]
pub struct SnmpRequest {
    pub address: SnmpAddress,
    pub community: Option<String>,
    pub oids: Vec<Oid>,
}

impl SnmpRequest {
    pub fn new(address: SnmpAddress, oids: Vec<Oid>) -> (r: Self)
        ensures
            r.address == address,
            r.community.is_none(),
            r.oids == oids,
    {
        SnmpRequest { address, community: None, oids }
    }

    pub fn with_community(self, community: String) -> (r: Self)
        ensures
            r.address == self.address,
            r.community == Some(community),
            r.oids == self.oids,
    {
        SnmpRequest { community: Some(community), ..self }
    }
}

/// A WALK request: target address, optional secret, subtree root, and a
/// step bound (zero means unbounded).
#[derive(Debug, Clone)]
pub struct SnmpWalkRequest {
    pub address: SnmpAddress,
    pub community: Option<String>,
    pub root_oid: Oid,
    pub max_results: usize,
}

impl SnmpWalkRequest {
    pub fn new(address: SnmpAddress, root_oid: Oid) -> (r: Self)
        ensures
            r.address == address,
            r.community.is_none(),
            r.root_oid == root_oid,
            r.max_results == 64,
    {
        SnmpWalkRequest { address, community: None, root_oid, max_results: 64 }
    }

    pub fn with_community(self, community: String) -> (r: Self)
        ensures
            r.address == self.address,
            r.community == Some(community),
            r.root_oid == self.root_oid,
            r.max_results == self.max_results,
    {
        SnmpWalkRequest { community: Some(community), ..self }
    }

    pub fn with_max_results(self, max_results: usize) -> (r: Self)
        ensures
            r.address == self.address,
            r.community == self.community,
            r.root_oid == self.root_oid,
            r.max_results == max_results,
    {
        SnmpWalkRequest { max_results, ..self }
    }
}

/// What a protocol operation returned: the responding address and the
/// identifier/value pairs, in discovery order.
#[derive(Debug, Clone)]
pub struct SnmpResponse {
    pub address: SnmpAddress,
    pub varbinds: Vec<SnmpVarBind>,
}

/// The candidate lies at or below the root of the identifier hierarchy.
pub open spec fn oid_starts_with(candidate: Seq<u32>, root: Seq<u32>) -> bool {
    root.len() <= candidate.len() && candidate.subrange(0, root.len() as int) == root
}

/// Prefix test on identifiers: is `candidate` a descendant of `root`?
pub fn oid_is_descendant(root: &Oid, candidate: &Oid) -> (r: bool)
    ensures
        r == oid_starts_with(candidate@, root@),
{
    if candidate.0.len() < root.0.len() {
        return false;
    }
    let mut i: usize = 0;
    while i < root.0.len()
        invariant
            0 <= i <= root@.len(),
            root@.len() <= candidate@.len(),
            forall|j: int| 0 <= j < i ==> candidate@[j] == root@[j],
        decreases root@.len() - i,
    {
        if candidate.0[i] != root.0[i] {
            proof {
                assert(candidate@.subrange(0, root@.len() as int)[i as int] != root@[i as int]);
            }
            return false;
        }
        i += 1;
    }
    proof {
        assert(candidate@.subrange(0, root@.len() as int) =~= root@);
    }
    true
}

/// Round trip, text first: any well-formed dotted numeric string — the
/// canonical text of some non-empty identifier — parses, and formatting the
/// parse yields the string back.
pub proof fn lemma_format_parse_round_trip(s: Seq<char>)
    requires
        exists|arcs: Seq<u32>| arcs.len() >= 1 && s == oid_text(arcs),
    ensures
        parse_arcs(s).is_some(),
        oid_text(parse_arcs(s).unwrap()) == s,
{
    let arcs = choose|arcs: Seq<u32>| arcs.len() >= 1 && s == oid_text(arcs);
    lemma_identifier_round_trip(arcs);
}

/// Parsing the canonical digit parts of a sequence of arcs yields the arcs.
proof fn lemma_arcs_of_digit_parts(arcs: Seq<u32>)
    ensures
        arcs_of_parts(arcs.map_values(|a: u32| dec_digits(a as int))) == Some(arcs),
    decreases arcs.len(),
{
    let parts = arcs.map_values(|a: u32| dec_digits(a as int));
    if arcs.len() == 0 {
        assert(parts.len() == 0);
        assert(Seq::<u32>::empty() =~= arcs);
    } else {
        lemma_arcs_of_digit_parts(arcs.drop_first());
        lemma_dec_digits_val(arcs[0] as int);
        assert(parts[0] == dec_digits(arcs[0] as int));
        assert(parts[0].len() > 0);
        assert(all_digits(parts[0]));
        assert(dec_val(parts[0]) == arcs[0] as int);
        assert(parts.drop_first() =~= arcs.drop_first().map_values(
            |a: u32| dec_digits(a as int),
        ));
        assert(seq![dec_val(parts[0]) as u32] + arcs.drop_first() =~= arcs);
    }
}

/// One walk iteration over the pairs a GET-NEXT returned. Processing stops,
/// and the walk is finished, at the first pair whose identifier is empty,
/// escapes the root's subtree, or repeats the cursor; every pair before that
/// is accepted and advances the cursor.
pub open spec fn walk_accept(root: Seq<u32>, cursor: Seq<u32>, vbs: Seq<VarBindV>) -> (
    Seq<VarBindV>,
    Seq<u32>,
    bool,
)
    decreases vbs.len(),
{
    if vbs.len() == 0 {
        (Seq::<VarBindV>::empty(), cursor, false)
    } else {
        let vb = vbs[0];
        if vb.oid.len() == 0 || !oid_starts_with(vb.oid, root) || vb.oid == cursor {
            (Seq::<VarBindV>::empty(), cursor, true)
        } else {
            let rest = walk_accept(root, vb.oid, vbs.drop_first());
            (seq![vb] + rest.0, rest.1, rest.2)
        }
    }
}

/// Stall guard: a response whose first pair repeats the cursor accepts
/// nothing and finishes the walk.
pub proof fn lemma_walk_stall(root: Seq<u32>, cursor: Seq<u32>, vbs: Seq<VarBindV>)
    requires
        vbs.len() > 0,
        vbs[0].oid == cursor,
    ensures
        walk_accept(root, cursor, vbs).0 =~= Seq::<VarBindV>::empty(),
        walk_accept(root, cursor, vbs).1 == cursor,
        walk_accept(root, cursor, vbs).2,
{
}

/// Termination: a response that repeats the same identifier twice in a row
/// always finishes the walk, whatever the cursor was — the walk never loops
/// on such a sequence.
pub proof fn lemma_walk_repeat_finishes(
    root: Seq<u32>,
    cursor: Seq<u32>,
    vbs: Seq<VarBindV>,
    i: int,
)
    requires
        0 <= i < vbs.len() - 1,
        vbs[i + 1].oid == vbs[i].oid,
    ensures
        walk_accept(root, cursor, vbs).2,
    decreases vbs.len(),
{
    let vb = vbs[0];
    if vb.oid.len() == 0 || !oid_starts_with(vb.oid, root) || vb.oid == cursor {
    } else {
        if i == 0 {
            assert(vbs.drop_first()[0].oid == vb.oid);
            lemma_walk_stall(root, vb.oid, vbs.drop_first());
        } else {
            assert(vbs.drop_first()[i - 1] == vbs[i]);
            assert(vbs.drop_first()[i] == vbs[i + 1]);
            lemma_walk_repeat_finishes(root, vb.oid, vbs.drop_first(), i - 1);
        }
    }
}

/// The running state of a WALK: the subtree root, the cursor the next
/// GET-NEXT starts from, the accepted pairs so far, the step count, the step
/// bound (zero means unbounded), and whether the walk is finished.
#[derive(Debug, Clone)]
pub struct WalkState {
    pub root: Oid,
    pub cursor: Oid,
    pub results: Vec<SnmpVarBind>,
    pub steps: usize,
    pub max_results: usize,
    pub done: bool,
}

impl WalkState {
    /// Starts a walk at the requested root.
    pub fn start(request: &SnmpWalkRequest) -> (r: Self)
        ensures
            r.root@ == request.root_oid@,
            r.cursor@ == request.root_oid@,
            r.results@ =~= Seq::<SnmpVarBind>::empty(),
            r.steps == 0,
            r.max_results == request.max_results,
            !r.done,
    {
        WalkState {
            root: request.root_oid.dup(),
            cursor: request.root_oid.dup(),
            results: Vec::new(),
            steps: 0,
            max_results: request.max_results,
            done: false,
        }
    }

    /// The identifier the next GET-NEXT should start from, or nothing when
    /// the walk is finished or its step budget is spent.
    pub fn next_query(&self) -> (r: Option<Oid>)
        ensures
            match r {
                Some(oid) => oid@ == self.cursor@ && !self.done && (self.max_results == 0
                    || self.steps < self.max_results),
                None => self.done || (self.max_results != 0 && self.steps >= self.max_results),
            },
    {
        if self.done {
            return None;
        }
        if self.max_results != 0 && self.steps >= self.max_results {
            return None;
        }
        Some(self.cursor.dup())
    }

    /// Feeds the pairs one GET-NEXT returned into the walk: accepted pairs
    /// are appended in discovery order, the cursor advances to the last
    /// accepted identifier, and the walk finishes on any stop condition or
    /// on an empty response.
    pub fn apply_response(&mut self, vbs: &Vec<SnmpVarBind>)
        requires
            !old(self).done,
        ensures
            final(self).root == old(self).root,
            final(self).max_results == old(self).max_results,
            final(self).steps == if old(self).steps < usize::MAX {
                (old(self).steps + 1) as usize
            } else {
                old(self).steps
            },
            ({
                let step = walk_accept(old(self).root@, old(self).cursor@, vbs_view(vbs@));
                &&& vbs_view(final(self).results@) =~= vbs_view(old(self).results@) + step.0
                &&& final(self).cursor@ == step.1
                &&& final(self).done == (step.2 || vbs@.len() == 0)
            }),
    {
        if self.steps < usize::MAX {
            self.steps = self.steps + 1;
        }
        if vbs.len() == 0 {
            self.done = true;
            proof {
                let step = walk_accept(old(self).root@, old(self).cursor@, vbs_view(vbs@));
                assert(vbs_view(vbs@).len() == 0);
                assert(step.0 =~= Seq::<VarBindV>::empty());
                assert(vbs_view(self.results@) =~= vbs_view(old(self).results@) + step.0);
            }
            return ;
        }
        let ghost step_full = walk_accept(old(self).root@, old(self).cursor@, vbs_view(vbs@));
        let ghost len0 = old(self).results@.len() as int;
        let mut i: usize = 0;
        let mut stopped = false;
        proof {
            assert(vbs_view(vbs@).skip(0) =~= vbs_view(vbs@));
            assert(vbs_view(self.results@).skip(len0) =~= Seq::<VarBindV>::empty());
        }
        while i < vbs.len() && !stopped
            invariant
                0 <= i <= vbs@.len(),
                self.root == old(self).root,
                self.max_results == old(self).max_results,
                self.steps == if old(self).steps < usize::MAX {
                    (old(self).steps + 1) as usize
                } else {
                    old(self).steps
                },
                0 <= len0 <= self.results@.len(),
                self.results@.subrange(0, len0) =~= old(self).results@,
                !stopped ==> ({
                    let sub = walk_accept(self.root@, self.cursor@, vbs_view(vbs@).skip(i as int));
                    &&& step_full.0 =~= vbs_view(self.results@).skip(len0) + sub.0
                    &&& step_full.1 == sub.1
                    &&& step_full.2 == sub.2
                }),
                stopped ==> ({
                    &&& step_full.0 =~= vbs_view(self.results@).skip(len0)
                    &&& step_full.1 == self.cursor@
                    &&& step_full.2
                }),
            decreases vbs@.len() - i,
        {
            let vb = &vbs[i];
            let ghost subpre = walk_accept(self.root@, self.cursor@, vbs_view(vbs@).skip(i as int));
            proof {
                assert(vbs_view(vbs@).skip(i as int)[0] == vbs@[i as int]@);
                assert(vbs_view(vbs@).skip(i as int).drop_first() =~= vbs_view(vbs@).skip(
                    i as int + 1,
                ));
            }
            if vb.oid.0.len() == 0 {
                stopped = true;
            } else if !oid_is_descendant(&self.root, &vb.oid) {
                stopped = true;
            } else if oid_eq(&vb.oid, &self.cursor) {
                stopped = true;
            } else {
                let ghost results_pre = self.results@;
                self.results.push(vb.dup());
                self.cursor = vb.oid.dup();
                proof {
                    assert(vbs_view(self.results@) =~= vbs_view(results_pre).push(vbs@[i as int]@));
                    assert(vbs_view(self.results@).skip(len0) =~= vbs_view(results_pre).skip(len0)
                        + seq![vbs@[i as int]@]);
                    assert(self.results@.subrange(0, len0) =~= results_pre.subrange(0, len0));
                    let subpost = walk_accept(
                        self.root@,
                        self.cursor@,
                        vbs_view(vbs@).skip(i as int + 1),
                    );
                    assert(subpre.0 =~= seq![vbs@[i as int]@] + subpost.0);
                    assert(vbs_view(self.results@).skip(len0) + subpost.0 =~= vbs_view(
                        results_pre,
                    ).skip(len0) + subpre.0);
                }
            }
            i += 1;
        }
        if !stopped {
            proof {
                assert(vbs_view(vbs@).skip(vbs@.len() as int) =~= Seq::<VarBindV>::empty());
                assert(step_full.0 =~= vbs_view(self.results@).skip(len0));
            }
        }
        self.done = stopped;
        proof {
            assert(vbs_view(self.results@) =~= vbs_view(self.results@.subrange(0, len0)) + vbs_view(
                self.results@,
            ).skip(len0));
            assert(vbs_view(self.results@.subrange(0, len0)) =~= vbs_view(old(self).results@));
        }
    }
}

/// The views of a sequence of identifiers.
pub open spec fn oids_view(s: Seq<Oid>) -> Seq<Seq<u32>> {
    s.map_values(|o: Oid| o@)
}

/// Splits an identifier list into GET batches of at most `MAX_OIDS_PER_GET`,
/// preserving submission order.
pub fn split_into_batches(oids: &Vec<Oid>) -> (r: Vec<Vec<Oid>>)
    ensures
        r@.map_values(|b: Vec<Oid>| oids_view(b@)).flatten() =~= oids_view(oids@),
        forall|i: int| 0 <= i < r@.len() ==> 0 < #[trigger] r@[i]@.len() <= MAX_OIDS_PER_GET,
{
    let mut r: Vec<Vec<Oid>> = Vec::new();
    let mut pos: usize = 0;
    proof {
        assert(r@.map_values(|b: Vec<Oid>| oids_view(b@)).flatten() =~= Seq::<Seq<u32>>::empty());
        assert(oids_view(oids@).take(0) =~= Seq::<Seq<u32>>::empty());
    }
    while pos < oids.len()
        invariant
            0 <= pos <= oids@.len(),
            r@.map_values(|b: Vec<Oid>| oids_view(b@)).flatten() =~= oids_view(oids@).take(
                pos as int,
            ),
            forall|i: int| 0 <= i < r@.len() ==> 0 < #[trigger] r@[i]@.len() <= MAX_OIDS_PER_GET,
        decreases oids@.len() - pos,
    {
        let ghost r0 = r@;
        let ghost pos0 = pos as int;
        let mut batch: Vec<Oid> = Vec::new();
        let mut k: usize = 0;
        proof {
            assert(oids_view(batch@) =~= oids_view(oids@).subrange(pos0, pos0));
        }
        while k < MAX_OIDS_PER_GET && pos < oids.len()
            invariant
                0 <= k <= MAX_OIDS_PER_GET,
                0 <= pos0 <= pos as int <= oids@.len(),
                pos as int == pos0 + k,
                batch@.len() == k,
                oids_view(batch@) =~= oids_view(oids@).subrange(pos0, pos as int),
            decreases oids@.len() - pos,
        {
            let ghost batch0 = batch@;
            batch.push(oids[pos].dup());
            proof {
                assert(oids_view(batch@) =~= oids_view(batch0).push(oids@[pos as int]@));
                assert(oids_view(oids@).subrange(pos0, pos as int + 1) =~= oids_view(
                    oids@,
                ).subrange(pos0, pos as int) + seq![oids@[pos as int]@]);
            }
            pos += 1;
            k += 1;
        }
        proof {
            assert(batch@.len() > 0);
        }
        let ghost batchv = oids_view(batch@);
        r.push(batch);
        proof {
            let mapped0 = r0.map_values(|b: Vec<Oid>| oids_view(b@));
            let mapped = r@.map_values(|b: Vec<Oid>| oids_view(b@));
            assert(mapped =~= mapped0.push(batchv));
            mapped0.lemma_flatten_push(batchv);
            assert(mapped.flatten() =~= mapped0.flatten() + batchv);
            assert(oids_view(oids@).take(pos0) + oids_view(oids@).subrange(pos0, pos as int)
                =~= oids_view(oids@).take(pos as int));
        }
    }
    proof {
        assert(oids_view(oids@).take(oids@.len() as int) =~= oids_view(oids@));
    }
    r
}

/// Whether a failed attempt should be retried: the configured retry count
/// bounds how often one request is re-issued after the first try.
pub fn should_retry(attempts: u32, retries: u32) -> (r: bool)
    ensures
        r == (attempts < retries),
{
    attempts < retries
}

/// Dispatch-selected protocol configuration holder of the transport-backed
/// client; the asynchronous transport calls themselves live outside the
/// verified core and drive `WalkState` and `split_into_batches`.
#[derive(Debug, Clone)]
pub struct SnmpV2cClient {
    pub config: SnmpConfig,
}

impl SnmpV2cClient {
    pub fn new(config: SnmpConfig) -> (r: Self)
        ensures
            r.config == config,
    {
        SnmpV2cClient { config }
    }

    pub fn config(&self) -> (r: &SnmpConfig)
        ensures
            *r == self.config,
    {
        &self.config
    }
}

/// In-memory queued test double: `get` answers from a pushed queue of
/// responses and errors, in order, and fails once the queue is empty.
#[derive(Debug, Clone)]
pub struct MockSnmpClient {
    pub config: SnmpConfig,
    pub queue: Vec<Result<SnmpResponse, Error>>,
}

impl MockSnmpClient {
    pub fn new() -> (r: Self)
        ensures
            r.queue@ =~= Seq::<Result<SnmpResponse, Error>>::empty(),
            r.config.community@ == "public"@,
            r.config.timeout_ms == 2000,
            r.config.retries == 1,
    {
        MockSnmpClient { config: SnmpConfig::default(), queue: Vec::new() }
    }

    pub fn with_config(config: SnmpConfig) -> (r: Self)
        ensures
            r.queue@ =~= Seq::<Result<SnmpResponse, Error>>::empty(),
            r.config == config,
    {
        MockSnmpClient { config, queue: Vec::new() }
    }

    pub fn config(&self) -> (r: &SnmpConfig)
        ensures
            *r == self.config,
    {
        &self.config
    }

    pub fn push_response(&mut self, response: SnmpResponse)
        ensures
            final(self).queue@ =~= old(self).queue@.push(Ok(response)),
            final(self).config == old(self).config,
    {
        self.queue.push(Ok(response));
    }

    pub fn push_error(&mut self, error: Error)
        ensures
            final(self).queue@ =~= old(self).queue@.push(Err(error)),
            final(self).config == old(self).config,
    {
        self.queue.push(Err(error));
    }

    /// Answers with the oldest queued result; an empty queue yields a
    /// transport failure naming the requested address.
    pub fn get(&mut self, request: SnmpRequest) -> (r: Result<SnmpResponse, Error>)
        ensures
            final(self).config == old(self).config,
            old(self).queue@.len() > 0 ==> r == old(self).queue@[0] && final(self).queue@ =~= old(
                self,
            ).queue@.drop_first(),
            old(self).queue@.len() == 0 ==> final(self).queue@ =~= old(self).queue@ && (match r {
                Err(Error::SnmpFailure { address, details }) => address@ == addr_text(
                    request.address.host@,
                    request.address.port,
                ) && details@ == "MockSnmpClient queue is empty"@,
                _ => false,
            }),
    {
        if self.queue.len() > 0 {
            let r = self.queue.remove(0);
            proof {
                assert(self.queue@ =~= old(self).queue@.drop_first());
            }
            r
        } else {
            let details = String::from_str("MockSnmpClient queue is empty");
            proof {
                reveal_strlit("MockSnmpClient queue is empty");
            }
            Err(Error::SnmpFailure { address: request.address.text(), details })
        }
    }
}

} // verus!
