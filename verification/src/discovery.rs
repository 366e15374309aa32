//! Host discovery: network-range enumeration from address/prefix text,
//! printer classification from probe responses, and the bookkeeping of a
//! bounded-concurrency discovery run with run-scoped cancellation.
use vstd::arithmetic::power2::{
    lemma2_to64, lemma_pow2_pos, lemma_pow2_strictly_increases, lemma_pow2_unfold, pow2,
};
use vstd::prelude::*;
use vstd::string::*;

use crate::counters::find_vb;
use crate::model::{EpochSeconds, PrinterId, PrinterRecord, PrinterStatus, SnmpAddress};
use crate::snmp::{
    as_text_spec, as_u64_spec, display_spec, is_missing_spec, oid_text, vbs_view, Oid,
    SnmpVarBind, ValueV, VarBindV,
};
use crate::text::{
    all_digits, canonical_dec, contains_ci, contains_ci_str, dec_digits, dec_val, is_digit,
    lemma_dec_val_prefix_le, lemma_dec_val_push, lemma_split_first_sep, split, trim, trim_spec,
    u64_dec,
};

verus! {

/// Reads one dotted-quad component into octets: every part must be a
/// canonical decimal number of at most 255 — no empty parts, no redundant
/// leading zero.
pub open spec fn octets_of_parts(parts: Seq<Seq<char>>) -> Option<Seq<u32>>
    decreases parts.len(),
{
    if parts.len() == 0 {
        Some(Seq::<u32>::empty())
    } else if canonical_dec(parts[0]) && dec_val(parts[0]) <= 255 {
        match octets_of_parts(parts.drop_first()) {
            Some(rest) => Some(seq![dec_val(parts[0]) as u32] + rest),
            None => None,
        }
    } else {
        None
    }
}

/// The numeric value of four address octets, most significant first.
pub open spec fn quad_value(o: Seq<u32>) -> int {
    o[0] * 0x1000000 + o[1] * 0x10000 + o[2] * 0x100 + o[3]
}

/// The meaning of dotted-quad address text: exactly four canonical decimal
/// octets.
pub open spec fn ipv4_parse(s: Seq<char>) -> Option<u32> {
    match octets_of_parts(split(s, '.')) {
        Some(o) => if o.len() == 4 {
            Some(quad_value(o) as u32)
        } else {
            None
        },
        None => None,
    }
}

/// The four octets of a numeric address, most significant first.
pub open spec fn octets_of(ip: int) -> Seq<u32> {
    seq![
        (ip / 0x1000000) as u32,
        ((ip / 0x10000) % 0x100) as u32,
        ((ip / 0x100) % 0x100) as u32,
        (ip % 0x100) as u32,
    ]
}

/// The dotted-quad text of a numeric address.
pub open spec fn ipv4_text(ip: int) -> Seq<char> {
    oid_text(octets_of(ip).map_values(|o: u32| o))
}

/// Renders a numeric address as dotted-quad text.
pub fn ipv4_to_text(ip: u32) -> (r: String)
    ensures
        r@ == ipv4_text(ip as int),
{
    let mut arcs: Vec<u32> = Vec::new();
    arcs.push(ip / 0x1000000);
    arcs.push((ip / 0x10000) % 0x100);
    arcs.push((ip / 0x100) % 0x100);
    arcs.push(ip % 0x100);
    let quad = Oid(arcs);
    let r = quad.text();
    proof {
        assert(quad@ =~= octets_of(ip as int).map_values(|o: u32| o));
    }
    r
}

/// Partial parse state of a dotted quad: octets already read, text left.
pub open spec fn octets_result(acc: Seq<u32>, rest: Seq<char>) -> Option<Seq<u32>> {
    match octets_of_parts(split(rest, '.')) {
        Some(t) => Some(acc + t),
        None => None,
    }
}

/// Reads dotted-quad address text: exactly four decimal octets, each at
/// most 255, written canonically (no redundant leading zero).
pub fn parse_ipv4(s: &str) -> (r: Option<u32>)
    ensures
        r == ipv4_parse(s@),
{
    let len = s.unicode_len();
    let mut octets: Vec<u32> = Vec::new();
    let mut pos: usize = 0;
    proof {
        assert(s@.skip(0) =~= s@);
        match octets_of_parts(split(s@, '.')) {
            Some(t) => {
                assert(octets@ + t =~= t);
            },
            None => {},
        }
    }
    loop
        invariant
            0 <= pos <= len,
            len == s@.len(),
            forall|m: int| 0 <= m < octets@.len() ==> #[trigger] octets@[m] <= 255,
            octets_result(octets@, s@.skip(pos as int)) == octets_of_parts(split(s@, '.')),
        decreases len - pos + 1,
    {
        let ghost rest = s@.skip(pos as int);
        let mut j: usize = pos;
        while j < len && s.get_char(j) != '.'
            invariant
                pos <= j <= len,
                len == s@.len(),
                forall|p: int| pos <= p < j ==> s@[p] != '.',
            decreases len - j,
        {
            j += 1;
        }
        let ghost comp = s@.subrange(pos as int, j as int);
        proof {
            assert(forall|m: int| 0 <= m < rest.len() ==> rest[m] == s@[pos + m]);
            lemma_split_first_sep(rest, '.', j - pos as int);
            assert(rest.take(j - pos as int) =~= comp);
            if j < len {
                assert(rest[j - pos as int] == '.');
                assert(rest.skip(j - pos as int + 1) =~= s@.skip(j as int + 1));
            }
            assert(split(rest, '.')[0] == comp);
        }
        if j == pos {
            // empty component: never canonical
            proof {
                assert(!canonical_dec(comp));
                assert(octets_of_parts(split(rest, '.')).is_none());
            }
            return None;
        }
        let mut val: u64 = 0;
        let mut i: usize = pos;
        proof {
            assert(s@.subrange(pos as int, pos as int) =~= Seq::<char>::empty());
        }
        while i < j
            invariant
                pos <= i <= j <= len,
                len == s@.len(),
                pos < j,
                comp == s@.subrange(pos as int, j as int),
                all_digits(s@.subrange(pos as int, i as int)),
                val == dec_val(s@.subrange(pos as int, i as int)),
                val <= 255,
                octets_result(octets@, s@.skip(pos as int)) == octets_of_parts(split(s@, '.')),
                split(s@.skip(pos as int), '.')[0] == comp,
                octets_of_parts(split(s@.skip(pos as int), '.')).is_none() ==> octets_of_parts(
                    split(s@, '.'),
                ).is_none(),
                forall|p: int| pos <= p < j ==> s@[p] != '.',
                j < len ==> s@[j as int] == '.',
            decreases j - i,
        {
            let ghost pre = s@.subrange(pos as int, i as int);
            let c = s.get_char(i);
            let cu = c as u32;
            if cu < 48 || cu > 57 {
                proof {
                    assert(comp[i - pos as int] == s@[i as int]);
                    assert(!is_digit(comp[i - pos as int]));
                    assert(!all_digits(comp));
                    assert(!canonical_dec(comp));
                    assert(octets_of_parts(split(s@.skip(pos as int), '.')).is_none());
                }
                return None;
            }
            let d = (cu - 48) as u64;
            proof {
                let pre2 = s@.subrange(pos as int, i as int + 1);
                assert(pre2.drop_last() =~= pre);
                assert(pre2.last() == s@[i as int]);
                lemma_dec_val_push(pre, s@[i as int]);
                assert(crate::text::digit_val(s@[i as int]) == d);
                assert(all_digits(pre2));
            }
            let newval = val * 10 + d;
            if newval > 255 {
                proof {
                    let pre2 = s@.subrange(pos as int, i as int + 1);
                    if all_digits(comp) {
                        assert(pre2 =~= comp.subrange(0, pre2.len() as int));
                        lemma_dec_val_prefix_le(pre2, comp);
                        assert(dec_val(comp) > 255);
                        assert(octets_of_parts(split(s@.skip(pos as int), '.')).is_none());
                    } else {
                        assert(!canonical_dec(comp));
                        assert(octets_of_parts(split(s@.skip(pos as int), '.')).is_none());
                    }
                }
                return None;
            }
            val = newval;
            i += 1;
        }
        proof {
            assert(s@.subrange(pos as int, i as int) =~= comp);
            assert(all_digits(comp));
            assert(dec_val(comp) == val);
        }
        // canonical form: no redundant leading zero
        if j > pos + 1 && s.get_char(pos) == '0' {
            proof {
                assert(comp[0] == '0');
                assert(crate::text::digit_char(0) as u32 == 48);
                assert(comp[0] == crate::text::digit_char(0));
                assert(!canonical_dec(comp));
                assert(octets_of_parts(split(s@.skip(pos as int), '.')).is_none());
            }
            return None;
        }
        proof {
            if comp.len() > 1 {
                assert(s@[pos as int] != '0');
                assert(comp[0] == s@[pos as int]);
                assert(crate::text::digit_char(0) as u32 == 48);
                assert(comp[0] != crate::text::digit_char(0));
            }
            assert(canonical_dec(comp));
        }
        if octets.len() >= 4 {
            // a fifth component can never make a quad
            proof {
                let parts = split(s@, '.');
                match octets_of_parts(parts) {
                    Some(t) => {
                        assert(octets_result(octets@, s@.skip(pos as int)) == Some(t));
                        let tail = octets_of_parts(split(s@.skip(pos as int), '.'));
                        match tail {
                            Some(tl) => {
                                assert(t =~= octets@ + tl);
                                assert(split(s@.skip(pos as int), '.').len() >= 1);
                                assert(split(s@.skip(pos as int), '.')[0] == comp);
                                assert(tl.len() >= 1);
                                assert(t.len() >= 5);
                            },
                            None => {},
                        }
                    },
                    None => {},
                }
            }
            return None;
        }
        let ghost old_octets = octets@;
        octets.push(val as u32);
        proof {
            let parts = split(s@.skip(pos as int), '.');
            let tailparts = parts.drop_first();
            assert(forall|m: int| 0 <= m < rest.len() ==> rest[m] == s@[pos + m]);
            lemma_split_first_sep(rest, '.', j - pos as int);
            assert(octets_of_parts(Seq::<Seq<char>>::empty()) == Some(Seq::<u32>::empty()));
            assert(rest.take(j - pos as int) =~= comp);
            if j < len {
                assert(rest[j - pos as int] == '.');
                assert(rest.skip(j - pos as int + 1) =~= s@.skip(j as int + 1));
                assert(parts =~~= seq![comp] + split(s@.skip(j as int + 1), '.'));
                assert(tailparts =~= split(s@.skip(j as int + 1), '.'));
            } else {
                assert(parts =~~= seq![comp]);
                assert(tailparts =~= Seq::<Seq<char>>::empty());
            }
            match octets_of_parts(tailparts) {
                Some(t) => {
                    assert(octets_of_parts(parts) == Some(seq![val as u32] + t));
                    assert(old_octets + (seq![val as u32] + t) =~= octets@ + t);
                },
                None => {
                    assert(octets_of_parts(parts).is_none());
                },
            }
        }
        if j < len {
            pos = j + 1;
        } else {
            // end of input after a complete component
            proof {
                let full = octets_of_parts(split(s@, '.'));
                assert(octets_of_parts(split(s@.skip(pos as int), '.')) == Some(
                    seq![val as u32] + Seq::<u32>::empty(),
                ));
                assert(old_octets + (seq![val as u32] + Seq::<u32>::empty()) =~= octets@);
                assert(full == Some(octets@));
            }
            if octets.len() == 4 {
                let value = (octets[0] * 0x1000000) + (octets[1] * 0x10000) + (octets[2] * 0x100)
                    + octets[3];
                proof {
                    assert(quad_value(octets@) == value as int);
                }
                return Some(value);
            } else {
                return None;
            }
        }
    }
}

/// The size of the host block a prefix length spans.
pub open spec fn block_of(p: int) -> int {
    pow2((32 - p) as nat) as int
}

/// The network boundary: the address rounded down to its block.
pub open spec fn network_of(ip: int, p: int) -> int {
    ip - ip % block_of(p)
}

/// The broadcast boundary: the last address of the block.
pub open spec fn broadcast_of(ip: int, p: int) -> int {
    network_of(ip, p) + block_of(p) - 1
}

/// The numeric value of the bitmask a prefix length denotes.
pub open spec fn mask_of(p: int) -> int {
    0x100000000 - block_of(p)
}

/// First usable host: the network address is excluded up to prefix 30.
pub open spec fn range_start(ip: int, p: int) -> int {
    if p <= 30 {
        network_of(ip, p) + 1
    } else {
        network_of(ip, p)
    }
}

/// Last usable host: the broadcast address is excluded up to prefix 30.
pub open spec fn range_end(ip: int, p: int) -> int {
    if p <= 30 {
        broadcast_of(ip, p) - 1
    } else {
        broadcast_of(ip, p)
    }
}

/// Computes the block size of a prefix length.
fn block_u64(prefix: u8) -> (r: u64)
    requires
        prefix <= 32,
    ensures
        r as int == block_of(prefix as int),
        1 <= r <= 0x100000000,
{
    let e: u8 = 32 - prefix;
    let mut b: u64 = 1;
    let mut i: u8 = 0;
    proof {
        lemma2_to64();
    }
    while i < e
        invariant
            0 <= i <= e <= 32,
            b as int == pow2(i as nat),
            b <= 0x100000000,
        decreases e - i,
    {
        proof {
            lemma_pow2_unfold((i + 1) as nat);
            lemma2_to64();
            if i < 31 {
                lemma_pow2_strictly_increases((i + 1) as nat, 32);
            }
        }
        b = b * 2;
        i += 1;
        proof {
            if i < e {
                lemma_pow2_strictly_increases(i as nat, 32);
            }
        }
    }
    proof {
        lemma_pow2_pos((32 - prefix) as nat);
    }
    b
}

proof fn lemma_block_multiple_bound(bb: int, q: int, rr: int, mt: int)
    requires
        bb * q + rr < bb * mt,
        rr >= 0,
        q >= 0,
        bb > 0,
    ensures
        bb * q >= 0,
        bb * q + bb <= bb * mt,
{
    assert(q < mt) by (nonlinear_arith)
        requires
            bb * q + rr < bb * mt,
            rr >= 0,
            bb > 0,
    ;
    assert(bb * q >= 0) by (nonlinear_arith)
        requires
            q >= 0,
            bb > 0,
    ;
    assert(bb * q + bb <= bb * mt) by (nonlinear_arith)
        requires
            q <= mt - 1,
            bb > 0,
    ;
}

/// A prefix-length component: decimal digits valued at most 255.
pub open spec fn prefix_num(p: Seq<char>) -> Option<int> {
    if p.len() > 0 && all_digits(p) && dec_val(p) <= 255 {
        Some(dec_val(p))
    } else {
        None
    }
}

/// The meaning of range text: trimmed `address/prefix` with a well-formed
/// dotted-quad address and a prefix length of at most 32.
pub open spec fn cidr_spec(s: Seq<char>) -> Option<(u32, u8)> {
    let t = trim_spec(s);
    let parts = split(t, '/');
    if parts.len() != 2 {
        None
    } else {
        match ipv4_parse(parts[0]) {
            Some(ip) => match prefix_num(parts[1]) {
                Some(pv) => if pv <= 32 {
                    Some((ip, pv as u8))
                } else {
                    None
                },
                None => None,
            },
            None => None,
        }
    }
}

/// Failure to read range text; carries a human-readable reason.
#[derive(Debug, Clone)]
pub struct CidrParseError {
    pub details: String,
}

/// A bounded, iterable network range: usable host boundaries, network
/// address, and prefix length.
#[derive(Debug, Clone)]
pub struct CidrRange {
    pub start: u32,
    pub end: u32,
    pub network: u32,
    pub prefix: u8,
}

/// A forward-only, finite walk over the hosts of a range; construct a new
/// one (via `CidrRange::iter`) to iterate again.
#[derive(Debug, Clone)]
pub struct CidrIter {
    pub current: u64,
    pub end: u64,
}

impl CidrRange {
    /// The usable host boundaries never wrap the whole address space.
    pub open spec fn wf(self) -> bool {
        self.start > 0 || self.end < 0xFFFFFFFFu32
    }

    /// Reads `address/prefix` range text: the address must be a well-formed
    /// dotted quad and the prefix at most 32. Up to prefix 30 the network
    /// and broadcast addresses are excluded from the usable range.
    pub fn parse(value: &str) -> (r: Result<CidrRange, CidrParseError>)
        ensures
            match r {
                Ok(range) => cidr_spec(value@).is_some() && ({
                    let ip = cidr_spec(value@).unwrap().0 as int;
                    let p = cidr_spec(value@).unwrap().1;
                    &&& range.prefix == p
                    &&& range.network as int == network_of(ip, p as int)
                    &&& range.start as int == range_start(ip, p as int)
                    &&& range.end as int == range_end(ip, p as int)
                    &&& range.wf()
                }),
                Err(_) => cidr_spec(value@).is_none(),
            },
    {
        proof {
            reveal_strlit("CIDR must include a /prefix");
            reveal_strlit("Invalid IPv4 address: ");
            reveal_strlit("Invalid prefix length: ");
            reveal_strlit("Prefix length out of range: ");
        }
        let t = trim(value);
        let ghost tv = trim_spec(value@);
        let len = t.unicode_len();
        let mut k: usize = 0;
        while k < len && t.get_char(k) != '/'
            invariant
                0 <= k <= len,
                len == t@.len(),
                forall|p: int| 0 <= p < k ==> t@[p] != '/',
            decreases len - k,
        {
            k += 1;
        }
        proof {
            lemma_split_first_sep(t@, '/', k as int);
        }
        if k == len {
            proof {
                assert(split(tv, '/').len() == 1);
            }
            return Err(CidrParseError { details: String::from_str("CIDR must include a /prefix") });
        }
        // reject a second separator: the prefix component must be last
        let mut k2: usize = k + 1;
        while k2 < len && t.get_char(k2) != '/'
            invariant
                k + 1 <= k2 <= len,
                len == t@.len(),
                forall|p: int| k + 1 <= p < k2 ==> t@[p] != '/',
            decreases len - k2,
        {
            k2 += 1;
        }
        let ghost restv = t@.skip(k as int + 1);
        proof {
            assert(forall|m: int| 0 <= m < restv.len() ==> restv[m] == t@[k + 1 + m]);
            lemma_split_first_sep(restv, '/', k2 - k as int - 1);
        }
        if k2 < len {
            proof {
                assert(restv[k2 - k as int - 1] == '/');
                assert(split(restv, '/').len() >= 2);
                assert(split(tv, '/').len() >= 3);
            }
            return Err(
                CidrParseError { details: String::from_str("CIDR must include a /prefix") },
            );
        }
        proof {
            assert(split(restv, '/') =~~= seq![restv]);
            assert(split(tv, '/') =~~= seq![t@.take(k as int), restv]);
            assert(split(tv, '/').len() == 2);
            assert(split(tv, '/')[0] == t@.take(k as int));
            assert(split(tv, '/')[1] == restv);
        }
        let addr = t.substring_char(0, k);
        let prefix_text = t.substring_char(k + 1, len);
        proof {
            assert(addr@ =~= t@.take(k as int));
            assert(prefix_text@ =~= restv);
        }
        let ip = match parse_ipv4(addr) {
            Some(ip) => ip,
            None => {
                let mut details = String::from_str("Invalid IPv4 address: ");
                details.append(addr);
                return Err(CidrParseError { details });
            },
        };
        let plen = prefix_text.unicode_len();
        let mut pv: u64 = 0;
        let mut i: usize = 0;
        if plen == 0 {
            let mut details = String::from_str("Invalid prefix length: ");
            details.append(prefix_text);
            return Err(CidrParseError { details });
        }
        proof {
            assert(prefix_text@.subrange(0, 0) =~= Seq::<char>::empty());
        }
        while i < plen
            invariant
                0 <= i <= plen,
                plen == prefix_text@.len(),
                all_digits(prefix_text@.subrange(0, i as int)),
                pv == dec_val(prefix_text@.subrange(0, i as int)),
                pv <= 255,
                cidr_spec(value@) == (match prefix_num(prefix_text@) {
                    Some(pvv) => if pvv <= 32 {
                        Some((ip, pvv as u8))
                    } else {
                        Option::<(u32, u8)>::None
                    },
                    None => Option::<(u32, u8)>::None,
                }),
            decreases plen - i,
        {
            let ghost pre = prefix_text@.subrange(0, i as int);
            let c = prefix_text.get_char(i);
            let cu = c as u32;
            if cu < 48 || cu > 57 {
                proof {
                    assert(!is_digit(prefix_text@[i as int]));
                    assert(!all_digits(prefix_text@));
                    assert(prefix_num(prefix_text@).is_none());
                }
                let mut details = String::from_str("Invalid prefix length: ");
                details.append(prefix_text);
                return Err(CidrParseError { details });
            }
            let d = (cu - 48) as u64;
            proof {
                let pre2 = prefix_text@.subrange(0, i as int + 1);
                assert(pre2.drop_last() =~= pre);
                assert(pre2.last() == prefix_text@[i as int]);
                lemma_dec_val_push(pre, prefix_text@[i as int]);
                assert(crate::text::digit_val(prefix_text@[i as int]) == d);
                assert(all_digits(pre2));
            }
            let newval = pv * 10 + d;
            if newval > 255 {
                proof {
                    let pre2 = prefix_text@.subrange(0, i as int + 1);
                    if all_digits(prefix_text@) {
                        assert(pre2 =~= prefix_text@.subrange(0, pre2.len() as int));
                        lemma_dec_val_prefix_le(pre2, prefix_text@);
                        assert(dec_val(prefix_text@) > 255);
                        assert(prefix_num(prefix_text@).is_none());
                    } else {
                        assert(prefix_num(prefix_text@).is_none());
                    }
                }
                let mut details = String::from_str("Invalid prefix length: ");
                details.append(prefix_text);
                return Err(CidrParseError { details });
            }
            pv = newval;
            i += 1;
        }
        proof {
            assert(prefix_text@.subrange(0, plen as int) =~= prefix_text@);
            assert(prefix_num(prefix_text@) == Some(dec_val(prefix_text@)));
        }
        if pv > 32 {
            let mut details = String::from_str("Prefix length out of range: ");
            details.append(prefix_text);
            return Err(CidrParseError { details });
        }
        let prefix: u8 = pv as u8;
        let block = block_u64(prefix);
        let ip64: u64 = ip as u64;
        let q64: u64 = ip64 / block;
        let r64: u64 = ip64 % block;
        proof {
            vstd::arithmetic::div_mod::lemma_fundamental_div_mod(ip64 as int, block as int);
            vstd::arithmetic::power2::lemma_pow2_adds((32 - prefix) as nat, prefix as nat);
            lemma2_to64();
            let bb = block as int;
            let mt = pow2(prefix as nat) as int;
            assert(bb * mt == 0x100000000);
            lemma_block_multiple_bound(bb, q64 as int, r64 as int, mt);
            assert(r64 <= ip64);
        }
        let network64: u64 = ip64 - r64;
        let broadcast64: u64 = network64 + block - 1;
        proof {
            let bb = block as int;
            let mt = pow2(prefix as nat) as int;
            assert(network64 as int == bb * q64 as int);
            assert(network64 as int + block as int <= 0x100000000);
            assert(ip64 % block < block);
            assert(network64 as int == network_of(ip as int, prefix as int));
            assert(broadcast64 as int == broadcast_of(ip as int, prefix as int));
            assert(broadcast64 <= 0xFFFFFFFF);
        }
        let (start64, end64): (u64, u64) = if prefix <= 30 {
            proof {
                lemma_pow2_strictly_increases(1nat, (32 - prefix) as nat);
                lemma2_to64();
                assert(block >= 4);
            }
            (network64 + 1, broadcast64 - 1)
        } else {
            (network64, broadcast64)
        };
        Ok(
            CidrRange {
                start: start64 as u32,
                end: end64 as u32,
                network: network64 as u32,
                prefix,
            },
        )
    }

    /// A fresh forward-only walk over the usable hosts.
    pub fn iter(&self) -> (r: CidrIter)
        ensures
            r.current == self.start,
            r.end == self.end,
    {
        CidrIter { current: self.start as u64, end: self.end as u64 }
    }

    /// How many usable hosts the range holds.
    pub fn host_count(&self) -> (r: u32)
        requires
            self.wf(),
        ensures
            r as int == if self.end < self.start {
                0
            } else {
                self.end - self.start + 1
            },
    {
        if self.end < self.start {
            0
        } else {
            self.end - self.start + 1
        }
    }

    /// The network address in numeric form.
    pub fn network(&self) -> (r: u32)
        ensures
            r == self.network,
    {
        self.network
    }

    /// The prefix length.
    pub fn prefix(&self) -> (r: u8)
        ensures
            r == self.prefix,
    {
        self.prefix
    }
}

impl CidrIter {
    /// The next host address, in ascending order; the walk cannot restart.
    pub fn next(&mut self) -> (r: Option<u32>)
        requires
            old(self).end <= 0xFFFFFFFF,
            old(self).current <= 0x100000000,
        ensures
            final(self).end == old(self).end,
            match r {
                Some(ip) => old(self).current <= old(self).end && ip == old(self).current
                    && final(self).current == old(self).current + 1,
                None => old(self).current > old(self).end && final(self).current == old(
                    self,
                ).current,
            },
    {
        if self.current > self.end {
            return None;
        }
        let ip = self.current as u32;
        self.current = self.current + 1;
        Some(ip)
    }
}

/// Computes the bitmask a prefix length denotes.
pub fn prefix_to_mask(prefix: u8) -> (r: u32)
    requires
        prefix <= 32,
    ensures
        r as int == mask_of(prefix as int),
{
    let block = block_u64(prefix);
    let m64: u64 = 0x100000000u64 - block;
    m64 as u32
}

/// Recovers the prefix length of a contiguous netmask; a mask that no
/// prefix length denotes yields nothing.
pub fn netmask_to_prefix(mask: u32) -> (r: Option<u8>)
    ensures
        match r {
            Some(p) => p <= 32 && mask as int == mask_of(p as int),
            None => forall|p: int| 0 <= p <= 32 ==> mask as int != mask_of(p),
        },
{
    let mut p: u8 = 0;
    while p <= 32
        invariant
            0 <= p <= 33,
            forall|q: int| 0 <= q < p ==> mask as int != mask_of(q),
        decreases 33 - p,
    {
        let block = block_u64(p);
        let m64: u64 = 0x100000000u64 - block;
        if mask as u64 == m64 {
            return Some(p);
        }
        p += 1;
    }
    None
}

/// The fixed case-insensitive keyword list that classifies a device
/// description as printer-like.
pub open spec fn keyword_match_spec(s: Seq<char>) -> bool {
    ||| contains_ci(s, "printer"@)
    ||| contains_ci(s, "mfp"@)
    ||| contains_ci(s, "ricoh"@)
    ||| contains_ci(s, "xerox"@)
    ||| contains_ci(s, "canon"@)
    ||| contains_ci(s, "hp"@)
    ||| contains_ci(s, "hewlett"@)
    ||| contains_ci(s, "lexmark"@)
    ||| contains_ci(s, "konica"@)
    ||| contains_ci(s, "kyocera"@)
    ||| contains_ci(s, "brother"@)
    ||| contains_ci(s, "epson"@)
    ||| contains_ci(s, "sharp"@)
    ||| contains_ci(s, "samsung"@)
}

/// Tests a device description against the printer keyword list.
pub fn is_printer_keyword_match(value: &str) -> (r: bool)
    ensures
        r == keyword_match_spec(value@),
{
    contains_ci_str(value, "printer") || contains_ci_str(value, "mfp") || contains_ci_str(
        value,
        "ricoh",
    ) || contains_ci_str(value, "xerox") || contains_ci_str(value, "canon") || contains_ci_str(
        value,
        "hp",
    ) || contains_ci_str(value, "hewlett") || contains_ci_str(value, "lexmark")
        || contains_ci_str(value, "konica") || contains_ci_str(value, "kyocera")
        || contains_ci_str(value, "brother") || contains_ci_str(value, "epson")
        || contains_ci_str(value, "sharp") || contains_ci_str(value, "samsung")
}

/// Textual reading of the pair carrying the identifier: absent pairs and
/// missing-value sentinels yield nothing; byte strings decode lossily and
/// any other value falls back to its display form.
pub open spec fn extract_text_spec(vbs: Seq<VarBindV>, oid: Seq<u32>) -> Option<Seq<char>> {
    match find_vb(vbs, oid) {
        None => None,
        Some(vb) => if is_missing_spec(vb.value) {
            None
        } else {
            match as_text_spec(vb.value) {
                Some(t) => Some(t),
                None => Some(display_spec(vb.value)),
            }
        },
    }
}

/// Reads the pair carrying the identifier as text; see `extract_text_spec`.
pub fn extract_text(varbinds: &Vec<SnmpVarBind>, oid: &Oid) -> (r: Option<String>)
    ensures
        match r {
            Some(s) => extract_text_spec(vbs_view(varbinds@), oid@) == Some(s@),
            None => extract_text_spec(vbs_view(varbinds@), oid@).is_none(),
        },
{
    match crate::counters::find_vb_index(varbinds, oid) {
        None => None,
        Some(ix) => {
            let vb = &varbinds[ix];
            if vb.value.is_missing() {
                return None;
            }
            match vb.value.as_text_lossy() {
                Some(text) => Some(text),
                None => Some(vb.value.display_text()),
            }
        },
    }
}

/// Numeric reading of the pair carrying the identifier.
pub open spec fn extract_numeric_spec(vbs: Seq<VarBindV>, oid: Seq<u32>) -> Option<u64> {
    match find_vb(vbs, oid) {
        None => None,
        Some(vb) => as_u64_spec(vb.value),
    }
}

/// Reads the pair carrying the identifier as a number.
pub fn extract_numeric(varbinds: &Vec<SnmpVarBind>, oid: &Oid) -> (r: Option<u64>)
    ensures
        r == extract_numeric_spec(vbs_view(varbinds@), oid@),
{
    match crate::counters::find_vb_index(varbinds, oid) {
        None => None,
        Some(ix) => varbinds[ix].value.as_u64(),
    }
}

/// Nested-identifier reading of the pair carrying the identifier.
pub open spec fn extract_object_id_spec(vbs: Seq<VarBindV>, oid: Seq<u32>) -> Option<Seq<u32>> {
    match find_vb(vbs, oid) {
        None => None,
        Some(vb) => match vb.value {
            ValueV::ObjectIdentifier(arcs) => Some(arcs),
            _ => None,
        },
    }
}

/// Reads the pair carrying the identifier as a nested identifier.
pub fn extract_object_id(varbinds: &Vec<SnmpVarBind>, oid: &Oid) -> (r: Option<Oid>)
    ensures
        match r {
            Some(o) => extract_object_id_spec(vbs_view(varbinds@), oid@) == Some(o@),
            None => extract_object_id_spec(vbs_view(varbinds@), oid@).is_none(),
        },
{
    match crate::counters::find_vb_index(varbinds, oid) {
        None => None,
        Some(ix) => match &varbinds[ix].value {
            crate::snmp::SnmpValue::ObjectIdentifier(value) => Some(value.dup()),
            _ => None,
        },
    }
}

/// The device-description identifier probed first.
pub fn sys_descr_oid() -> (r: Oid)
    ensures
        r@ =~= seq![1u32, 3u32, 6u32, 1u32, 2u32, 1u32, 1u32, 1u32, 0u32],
{
    Oid(vec![1, 3, 6, 1, 2, 1, 1, 1, 0])
}

/// The vendor-identifier field probed first.
pub fn sys_object_id_oid() -> (r: Oid)
    ensures
        r@ =~= seq![1u32, 3u32, 6u32, 1u32, 2u32, 1u32, 1u32, 2u32, 0u32],
{
    Oid(vec![1, 3, 6, 1, 2, 1, 1, 2, 0])
}

/// The human-readable printer name field probed second.
pub fn printer_name_oid() -> (r: Oid)
    ensures
        r@ =~= seq![1u32, 3u32, 6u32, 1u32, 2u32, 1u32, 43u32, 5u32, 1u32, 1u32, 16u32, 1u32],
{
    Oid(vec![1, 3, 6, 1, 2, 1, 43, 5, 1, 1, 16, 1])
}

/// The marker lifecycle presence field probed third.
pub fn marker_life_count_oid() -> (r: Oid)
    ensures
        r@ =~= seq![
            1u32,
            3u32,
            6u32,
            1u32,
            2u32,
            1u32,
            43u32,
            10u32,
            2u32,
            1u32,
            4u32,
            1u32,
            1u32,
        ],
{
    Oid(vec![1, 3, 6, 1, 2, 1, 43, 10, 2, 1, 4, 1, 1])
}

/// Keeps a shared secret only when it holds more than whitespace.
pub fn normalize_community(community: Option<String>) -> (r: Option<String>)
    ensures
        match community {
            Some(s) => if trim_spec(s@).len() > 0 {
                r == Some(s)
            } else {
                r.is_none()
            },
            None => r.is_none(),
        },
{
    match community {
        Some(s) => {
            let keep = trim(s.as_str()).unicode_len() > 0;
            if keep {
                Some(s)
            } else {
                None
            }
        },
        None => None,
    }
}

/// The classification rule: a device is a printer when the name probe
/// succeeded, the marker field was present and numeric, or the description
/// matches the keyword list.
pub open spec fn probe_is_printer(
    printer_name: Option<Seq<char>>,
    marker_present: bool,
    sys_descr: Option<Seq<char>>,
) -> bool {
    ||| printer_name.is_some()
    ||| marker_present
    ||| (match sys_descr {
        Some(s) => keyword_match_spec(s),
        None => false,
    })
}

/// The view of an optional text field.
pub open spec fn opt_string_view(o: Option<String>) -> Option<Seq<char>> {
    match o {
        Some(s) => Some(s@),
        None => None,
    }
}

/// Builds the discovered-device record from probe evidence, or nothing when
/// the evidence does not classify the host as a printer. The record's model
/// prefers the probed name over the description, and the record is marked
/// online as of the supplied timestamp.
pub fn build_probe_record(
    address: SnmpAddress,
    community: Option<String>,
    sys_descr: Option<String>,
    sys_object_id: Option<Oid>,
    printer_name: Option<String>,
    marker_present: bool,
    now: EpochSeconds,
) -> (r: Option<PrinterRecord>)
    ensures
        ({
            let is_printer = probe_is_printer(
                opt_string_view(printer_name),
                marker_present,
                opt_string_view(sys_descr),
            );
            match r {
                Some(rec) => {
                    &&& is_printer
                    &&& rec.id.0@ == "snmp-"@ + address.host@
                    &&& opt_string_view(rec.ip_or_hostname) == Some(address.host@)
                    &&& opt_string_view(rec.model) == (match opt_string_view(printer_name) {
                        Some(n) => Some(n),
                        None => opt_string_view(sys_descr),
                    })
                    &&& (match rec.sys_object_id {
                        Some(t) => sys_object_id.is_some() && t@ == oid_text(
                            sys_object_id.unwrap()@,
                        ),
                        None => sys_object_id.is_none(),
                    })
                    &&& rec.snmp_address == Some(address)
                    &&& rec.community == community
                    &&& rec.status == PrinterStatus::Online
                    &&& rec.last_seen == Some(now)
                },
                None => !is_printer,
            }
        }),
{
    proof {
        reveal_strlit("snmp-");
    }
    let keyword_hit = match &sys_descr {
        Some(text) => is_printer_keyword_match(text.as_str()),
        None => false,
    };
    let is_printer = printer_name.is_some() || marker_present || keyword_hit;
    if !is_printer {
        return None;
    }
    let mut id_text = String::from_str("snmp-");
    id_text.append(address.host.as_str());
    let host = address.host.clone();
    let sys_object_id_text = match &sys_object_id {
        Some(oid) => Some(oid.text()),
        None => None,
    };
    let model = match printer_name {
        Some(name) => Some(name),
        None => sys_descr,
    };
    Some(
        PrinterRecord {
            id: PrinterId::new(id_text),
            ip_or_hostname: Some(host),
            model,
            sys_object_id: sys_object_id_text,
            snmp_address: Some(address),
            community,
            status: PrinterStatus::Online,
            last_seen: Some(now),
        },
    )
}

/// One interface address of the machine, as plain values: a numeric
/// address and netmask, or an address family the discovery does not use.
#[derive(Debug, Clone, Copy, PartialEq, Eq, Structural)]
pub enum IfaceAddr {
    V4 { ip: u32, netmask: u32 },
    Other,
}

/// The loopback block 127.0.0.0/8.
pub open spec fn is_loopback(ip: int) -> bool {
    ip / 0x1000000 == 127
}

/// The link-local block 169.254.0.0/16.
pub open spec fn is_link_local(ip: int) -> bool {
    ip / 0x1000000 == 169 && (ip / 0x10000) % 0x100 == 254
}

/// What one interface contributes to discovery: its network and prefix,
/// unless it is loopback or link-local, its netmask is not contiguous, or
/// it is a single-host interface.
pub open spec fn iface_candidate(i: IfaceAddr) -> Option<(u32, u8)> {
    match i {
        IfaceAddr::V4 { ip, netmask } => {
            if is_loopback(ip as int) || is_link_local(ip as int) {
                None
            } else if !(exists|p: int| 0 <= p <= 32 && netmask as int == mask_of(p)) {
                None
            } else {
                let p = choose|p: int| 0 <= p <= 32 && netmask as int == mask_of(p);
                if p == 32 {
                    None
                } else {
                    Some((network_of(ip as int, p) as u32, p as u8))
                }
            }
        },
        IfaceAddr::Other => None,
    }
}

/// The first interface that contributes a candidate network.
pub open spec fn select_spec(list: Seq<IfaceAddr>) -> Option<(u32, u8)>
    decreases list.len(),
{
    if list.len() == 0 {
        None
    } else {
        match iface_candidate(list[0]) {
            Some(c) => Some(c),
            None => select_spec(list.drop_first()),
        }
    }
}

proof fn lemma_mask_of_injective(p1: int, p2: int)
    requires
        0 <= p1 <= 32,
        0 <= p2 <= 32,
        mask_of(p1) == mask_of(p2),
    ensures
        p1 == p2,
{
    if p1 < p2 {
        lemma_pow2_strictly_increases((32 - p2) as nat, (32 - p1) as nat);
    } else if p2 < p1 {
        lemma_pow2_strictly_increases((32 - p1) as nat, (32 - p2) as nat);
    }
}

/// Evaluates one interface; see `iface_candidate`.
fn iface_candidate_exec(iface: IfaceAddr) -> (r: Option<(u32, u8)>)
    ensures
        r == iface_candidate(iface),
{
    match iface {
        IfaceAddr::V4 { ip, netmask } => {
            if ip / 0x1000000 == 127 {
                return None;
            }
            if ip / 0x1000000 == 169 && (ip / 0x10000) % 0x100 == 254 {
                return None;
            }
            match netmask_to_prefix(netmask) {
                Some(p) => {
                    proof {
                        assert(exists|q: int|
                            0 <= q <= 32 && netmask as int == mask_of(q)) by {
                            assert(0 <= p as int <= 32 && netmask as int == mask_of(p as int));
                        }
                        let pc = choose|q: int| 0 <= q <= 32 && netmask as int == mask_of(q);
                        lemma_mask_of_injective(pc, p as int);
                    }
                    if p == 32 {
                        return None;
                    }
                    let block = block_u64(p);
                    let ip64: u64 = ip as u64;
                    let r64: u64 = ip64 % block;
                    proof {
                        vstd::arithmetic::div_mod::lemma_fundamental_div_mod(
                            ip64 as int,
                            block as int,
                        );
                        let bb = block as int;
                        let q64 = ip64 as int / bb;
                        assert(bb * q64 >= 0) by (nonlinear_arith)
                            requires
                                q64 >= 0,
                                bb > 0,
                        ;
                        assert(r64 <= ip64);
                    }
                    let network = ip - (r64 as u32);
                    proof {
                        assert(network as int == network_of(ip as int, p as int));
                    }
                    Some((network, p))
                },
                None => {
                    proof {
                        assert(forall|q: int| 0 <= q <= 32 ==> netmask as int != mask_of(q));
                    }
                    None
                },
            }
        },
        IfaceAddr::Other => None,
    }
}

/// Picks the first usable interface network; see `select_spec`.
pub fn select_discovery_network(interfaces: &Vec<IfaceAddr>) -> (r: Option<(u32, u8)>)
    ensures
        r == select_spec(interfaces@),
{
    let mut i: usize = 0;
    proof {
        assert(interfaces@.skip(0) =~= interfaces@);
    }
    while i < interfaces.len()
        invariant
            0 <= i <= interfaces@.len(),
            select_spec(interfaces@) == select_spec(interfaces@.skip(i as int)),
        decreases interfaces@.len() - i,
    {
        proof {
            assert(interfaces@.skip(i as int)[0] == interfaces@[i as int]);
            assert(interfaces@.skip(i as int).drop_first() =~= interfaces@.skip(i as int + 1));
        }
        match iface_candidate_exec(interfaces[i]) {
            Some(c) => {
                return Some(c);
            },
            None => {},
        }
        i += 1;
    }
    proof {
        assert(interfaces@.skip(interfaces@.len() as int) =~= Seq::<IfaceAddr>::empty());
    }
    None
}

/// Relies on get_if_addrs::get_if_addrs for the machine's interface list;
/// which interfaces exist depends on the machine, so nothing is promised of
/// the contents, and a listing failure yields an empty list.
#[verifier::external_body]
fn host_interfaces() -> Vec<IfaceAddr> {
    match get_if_addrs::get_if_addrs() {
        Ok(list) => list
            .into_iter()
            .map(
                |iface| match iface.addr {
                    get_if_addrs::IfAddr::V4(v4) => IfaceAddr::V4 {
                        ip: u32::from(v4.ip),
                        netmask: u32::from(v4.netmask),
                    },
                    get_if_addrs::IfAddr::V6(_) => IfaceAddr::Other,
                },
            )
            .collect(),
        Err(_) => Vec::new(),
    }
}

/// Proposes a discovery range from the machine's own interfaces: the first
/// usable interface network, as `address/prefix` text.
pub fn default_discovery_cidr() -> (r: Option<String>)
    ensures
        match r {
            Some(s) => exists|net: u32, p: u8|
                s@ == ipv4_text(net as int) + seq!['/'] + dec_digits(p as int),
            None => true,
        },
{
    let interfaces = host_interfaces();
    match select_discovery_network(&interfaces) {
        Some((net, p)) => {
            let mut s = ipv4_to_text(net);
            s.append("/");
            s.append(u64_dec(p as u64).as_str());
            proof {
                reveal_strlit("/");
                assert(s@ =~= ipv4_text(net as int) + seq!['/'] + dec_digits(p as int));
            }
            Some(s)
        },
        None => None,
    }
}

/// The merge key of a record: the host of its protocol address, when set.
pub open spec fn host_of(record: PrinterRecord) -> Option<Seq<char>> {
    match record.snmp_address {
        Some(address) => Some(address.host@),
        None => None,
    }
}

/// Merges a freshly discovered record into the list by host: the first
/// record sharing the merge key is overwritten field by field, keeping only
/// its identity key; with no match the record is appended. The index of the
/// merged record is returned when one was overwritten.
pub fn upsert_printer(printers: &mut Vec<PrinterRecord>, record: PrinterRecord) -> (r: Option<
    usize,
>)
    ensures
        match r {
            Some(i) => {
                &&& i < old(printers)@.len()
                &&& host_of(old(printers)@[i as int]) == host_of(record)
                &&& (forall|j: int|
                    0 <= j < i ==> host_of(#[trigger] old(printers)@[j]) != host_of(record))
                &&& final(printers)@ =~= old(printers)@.update(
                    i as int,
                    (PrinterRecord {
                        id: old(printers)@[i as int].id,
                        ip_or_hostname: record.ip_or_hostname,
                        model: record.model,
                        sys_object_id: record.sys_object_id,
                        snmp_address: record.snmp_address,
                        community: record.community,
                        status: record.status,
                        last_seen: record.last_seen,
                    }),
                )
            },
            None => {
                &&& (forall|j: int|
                    0 <= j < old(printers)@.len() ==> host_of(#[trigger] old(printers)@[j])
                        != host_of(record))
                &&& final(printers)@ =~= old(printers)@.push(record)
            },
        },
{
    let key_is_some = record.snmp_address.is_some();
    let mut i: usize = 0;
    while i < printers.len()
        invariant
            0 <= i <= printers@.len(),
            printers@ == old(printers)@,
            key_is_some == record.snmp_address.is_some(),
            forall|j: int| 0 <= j < i ==> host_of(#[trigger] printers@[j]) != host_of(record),
        decreases printers@.len() - i,
    {
        let matches = match (&printers[i].snmp_address, &record.snmp_address) {
            (Some(existing), Some(incoming)) => crate::text::str_eq(
                existing.host.as_str(),
                incoming.host.as_str(),
            ),
            (None, None) => true,
            _ => false,
        };
        if matches {
            proof {
                assert(host_of(printers@[i as int]) == host_of(record));
            }
            let existing = printers.remove(i);
            let merged = PrinterRecord {
                id: existing.id,
                ip_or_hostname: record.ip_or_hostname,
                model: record.model,
                sys_object_id: record.sys_object_id,
                snmp_address: record.snmp_address,
                community: record.community,
                status: record.status,
                last_seen: record.last_seen,
            };
            printers.insert(i, merged);
            proof {
                assert(final(printers)@ =~= old(printers)@.update(
                    i as int,
                    final(printers)@[i as int],
                ));
            }
            return Some(i);
        }
        proof {
            assert(host_of(printers@[i as int]) != host_of(record));
        }
        i += 1;
    }
    printers.push(record);
    None
}

/// The manual-entry merge key: a record matches a host when either its
/// protocol address or its stored host name equals it.
pub open spec fn matches_host(record: PrinterRecord, host: Seq<char>) -> bool {
    ||| (match record.snmp_address {
        Some(address) => address.host@ == host,
        None => false,
    })
    ||| (match record.ip_or_hostname {
        Some(h) => h@ == host,
        None => false,
    })
}

/// The meaning of a manual port field: empty means the well-known port,
/// otherwise the digits must form a 16-bit number.
pub open spec fn port_input_spec(s: Seq<char>) -> Option<u16> {
    if s.len() == 0 {
        Some(crate::model::DEFAULT_SNMP_PORT)
    } else if all_digits(s) && dec_val(s) <= u16::MAX {
        Some(dec_val(s) as u16)
    } else {
        None
    }
}

/// Reads a manual port field; see `port_input_spec`.
pub fn parse_port_input(value: &str) -> (r: Option<u16>)
    ensures
        r == port_input_spec(trim_spec(value@)),
{
    let t = trim(value);
    let len = t.unicode_len();
    if len == 0 {
        return Some(crate::model::DEFAULT_SNMP_PORT);
    }
    let mut val: u32 = 0;
    let mut i: usize = 0;
    proof {
        assert(t@.subrange(0, 0) =~= Seq::<char>::empty());
    }
    while i < len
        invariant
            0 <= i <= len,
            len == t@.len(),
            t@ == trim_spec(value@),
            all_digits(t@.subrange(0, i as int)),
            val == dec_val(t@.subrange(0, i as int)),
            val <= u16::MAX,
        decreases len - i,
    {
        let ghost pre = t@.subrange(0, i as int);
        let c = t.get_char(i);
        let cu = c as u32;
        if cu < 48 || cu > 57 {
            proof {
                assert(!is_digit(t@[i as int]));
                assert(!all_digits(t@));
            }
            return None;
        }
        let d = cu - 48;
        proof {
            let pre2 = t@.subrange(0, i as int + 1);
            assert(pre2.drop_last() =~= pre);
            assert(pre2.last() == t@[i as int]);
            lemma_dec_val_push(pre, t@[i as int]);
            assert(crate::text::digit_val(t@[i as int]) == d);
            assert(all_digits(pre2));
        }
        let newval = val * 10 + d;
        if newval > 65535 {
            proof {
                let pre2 = t@.subrange(0, i as int + 1);
                if all_digits(t@) {
                    assert(pre2 =~= t@.subrange(0, pre2.len() as int));
                    lemma_dec_val_prefix_le(pre2, t@);
                    assert(dec_val(t@) > u16::MAX);
                }
            }
            return None;
        }
        val = newval;
        i += 1;
    }
    proof {
        assert(t@.subrange(0, len as int) =~= t@);
    }
    Some(val as u16)
}

/// Why a manual entry was rejected.
#[derive(Debug, Clone, Copy, PartialEq, Eq, Structural)]
pub enum ManualAddError {
    EmptyHost,
    InvalidPort,
}

/// What a manual entry did to the list.
#[derive(Debug, Clone, Copy, PartialEq, Eq, Structural)]
pub enum ManualAddOutcome {
    Updated(usize),
    Added,
}

/// Enters a printer by hand. Inputs are trimmed; the host must not be
/// empty and the port must be readable. A record already matching the host
/// is updated in place — the name and the secret only when given — and a
/// fresh record is appended otherwise, keyed `manual-` plus the host.
pub fn add_manual_printer(
    printers: &mut Vec<PrinterRecord>,
    name: &str,
    host: &str,
    port_text: &str,
    community: &str,
    now: EpochSeconds,
) -> (r: Result<ManualAddOutcome, ManualAddError>)
    ensures
        ({
            let name_t = trim_spec(name@);
            let host_t = trim_spec(host@);
            let community_t = trim_spec(community@);
            match r {
                Err(ManualAddError::EmptyHost) => host_t.len() == 0 && final(printers)@ == old(
                    printers,
                )@,
                Err(ManualAddError::InvalidPort) => host_t.len() > 0 && port_input_spec(
                    trim_spec(port_text@),
                ).is_none() && final(printers)@ == old(printers)@,
                Ok(ManualAddOutcome::Updated(i)) => {
                    let port = port_input_spec(trim_spec(port_text@)).unwrap();
                    &&& host_t.len() > 0
                    &&& port_input_spec(trim_spec(port_text@)).is_some()
                    &&& i < old(printers)@.len()
                    &&& matches_host(old(printers)@[i as int], host_t)
                    &&& (forall|j: int|
                        0 <= j < i ==> !matches_host(#[trigger] old(printers)@[j], host_t))
                    &&& final(printers)@.len() == old(printers)@.len()
                    &&& (forall|j: int|
                        0 <= j < old(printers)@.len() && j != i ==> final(printers)@[j] == old(
                            printers,
                        )@[j])
                    &&& ({
                        let updated = final(printers)@[i as int];
                        let before = old(printers)@[i as int];
                        &&& updated.id == before.id
                        &&& updated.sys_object_id == before.sys_object_id
                        &&& updated.status == before.status
                        &&& (match updated.model {
                            Some(m) => if name_t.len() > 0 {
                                m@ == name_t
                            } else {
                                before.model == Some(m)
                            },
                            None => name_t.len() == 0 && before.model.is_none(),
                        })
                        &&& (match updated.ip_or_hostname {
                            Some(h) => h@ == host_t,
                            None => false,
                        })
                        &&& (match updated.snmp_address {
                            Some(a) => a.host@ == host_t && a.port == port,
                            None => false,
                        })
                        &&& (match updated.community {
                            Some(c) => if community_t.len() > 0 {
                                c@ == community_t
                            } else {
                                before.community == Some(c)
                            },
                            None => community_t.len() == 0 && before.community.is_none(),
                        })
                        &&& updated.last_seen == Some(now)
                    })
                },
                Ok(ManualAddOutcome::Added) => {
                    let port = port_input_spec(trim_spec(port_text@)).unwrap();
                    &&& host_t.len() > 0
                    &&& port_input_spec(trim_spec(port_text@)).is_some()
                    &&& (forall|j: int|
                        0 <= j < old(printers)@.len() ==> !matches_host(
                            #[trigger] old(printers)@[j],
                            host_t,
                        ))
                    &&& final(printers)@.len() == old(printers)@.len() + 1
                    &&& (forall|j: int|
                        0 <= j < old(printers)@.len() ==> final(printers)@[j] == old(
                            printers,
                        )@[j])
                    &&& ({
                        let added = final(printers)@.last();
                        &&& added.id.0@ == "manual-"@ + host_t
                        &&& (match added.model {
                            Some(m) => name_t.len() > 0 && m@ == name_t,
                            None => name_t.len() == 0,
                        })
                        &&& (match added.ip_or_hostname {
                            Some(h) => h@ == host_t,
                            None => false,
                        })
                        &&& (match added.snmp_address {
                            Some(a) => a.host@ == host_t && a.port == port,
                            None => false,
                        })
                        &&& (match added.community {
                            Some(c) => community_t.len() > 0 && c@ == community_t,
                            None => community_t.len() == 0,
                        })
                        &&& added.sys_object_id.is_none()
                        &&& added.status == PrinterStatus::Unknown
                        &&& added.last_seen == Some(now)
                    })
                },
            }
        }),
{
    proof {
        reveal_strlit("manual-");
    }
    let name_t = trim(name);
    let host_t = trim(host);
    let community_t = trim(community);
    if host_t.unicode_len() == 0 {
        return Err(ManualAddError::EmptyHost);
    }
    let port = match parse_port_input(port_text) {
        Some(port) => port,
        None => {
            return Err(ManualAddError::InvalidPort);
        },
    };
    let mut i: usize = 0;
    while i < printers.len()
        invariant
            0 <= i <= printers@.len(),
            printers@ == old(printers)@,
            host_t@ == trim_spec(host@),
            name_t@ == trim_spec(name@),
            community_t@ == trim_spec(community@),
            trim_spec(host@).len() > 0,
            port_input_spec(trim_spec(port_text@)) == Some(port),
            forall|j: int| 0 <= j < i ==> !matches_host(#[trigger] printers@[j], host_t@),
        decreases printers@.len() - i,
    {
        let hit = {
            let record = &printers[i];
            let by_address = match &record.snmp_address {
                Some(address) => crate::text::str_eq(address.host.as_str(), host_t),
                None => false,
            };
            let by_name = match &record.ip_or_hostname {
                Some(h) => crate::text::str_eq(h.as_str(), host_t),
                None => false,
            };
            by_address || by_name
        };
        if hit {
            proof {
                assert(matches_host(printers@[i as int], host_t@));
            }
            let existing = printers.remove(i);
            let updated = PrinterRecord {
                model: if !name_t.is_empty() {
                    Some(name_t.to_owned())
                } else {
                    existing.model
                },
                ip_or_hostname: Some(host_t.to_owned()),
                snmp_address: Some(SnmpAddress::new(host_t.to_owned(), port)),
                community: if !community_t.is_empty() {
                    Some(community_t.to_owned())
                } else {
                    existing.community
                },
                last_seen: Some(now),
                ..existing
            };
            printers.insert(i, updated);
            proof {
                assert(printers@ =~= old(printers)@.update(i as int, printers@[i as int]));
            }
            return Ok(ManualAddOutcome::Updated(i));
        }
        proof {
            assert(!matches_host(printers@[i as int], host_t@));
        }
        i += 1;
    }
    let mut id_text = String::from_str("manual-");
    id_text.append(host_t);
    proof {
        assert(id_text@ =~= "manual-"@ + trim_spec(host@));
    }
    let record = PrinterRecord {
        id: PrinterId::new(id_text),
        ip_or_hostname: Some(host_t.to_owned()),
        model: if !name_t.is_empty() {
            Some(name_t.to_owned())
        } else {
            None
        },
        sys_object_id: None,
        snmp_address: Some(SnmpAddress::new(host_t.to_owned(), port)),
        community: if !community_t.is_empty() {
            Some(community_t.to_owned())
        } else {
            None
        },
        status: PrinterStatus::Unknown,
        last_seen: Some(now),
    };
    printers.push(record);
    Ok(ManualAddOutcome::Added)
}

/// What a polled human-readable name does to a record's model text: an
/// empty stored model is always backfilled; a manually entered record is
/// never overridden; otherwise an override is applied only when allowed and
/// only when the stored model was itself auto-derived (it equals the
/// trimmed description or the trimmed host), and differs from the new name.
/// The result is the new model text, or nothing when the model keeps.
pub open spec fn backfill_model(
    record: PrinterRecord,
    name: Seq<char>,
    allow_override: bool,
    sys_descr: Option<Seq<char>>,
) -> Option<Seq<char>> {
    let existing = match record.model {
        Some(m) => trim_spec(m@),
        None => Seq::<char>::empty(),
    };
    if existing.len() == 0 {
        Some(name)
    } else if crate::text::starts_with(record.id.0@, "manual-"@) {
        None
    } else if !allow_override {
        None
    } else {
        let by_descr = match sys_descr {
            Some(d) => trim_spec(d).len() > 0 && existing == trim_spec(d),
            None => false,
        };
        let by_host = match record.ip_or_hostname {
            Some(h) => trim_spec(h@).len() > 0 && existing == trim_spec(h@),
            None => false,
        };
        if (by_descr || by_host) && existing != name {
            Some(name)
        } else {
            None
        }
    }
}

/// Applies a polled name to the identified record; see `backfill_model`.
/// A blank name, or an unknown identity key, changes nothing. The index of
/// the record whose model was replaced is returned.
pub fn apply_printer_name_fallback(
    printers: &mut Vec<PrinterRecord>,
    printer_id: &PrinterId,
    name: String,
    allow_override: bool,
    sys_descr: Option<&str>,
) -> (r: Option<usize>)
    ensures
        trim_spec(name@).len() == 0 ==> r.is_none() && final(printers)@ == old(printers)@,
        match r {
            Some(i) => {
                &&& trim_spec(name@).len() > 0
                &&& i < old(printers)@.len()
                &&& old(printers)@[i as int].id.0@ == printer_id.0@
                &&& (forall|j: int|
                    0 <= j < i ==> (#[trigger] old(printers)@[j]).id.0@ != printer_id.0@)
                &&& backfill_model(
                    old(printers)@[i as int],
                    trim_spec(name@),
                    allow_override,
                    match sys_descr {
                        Some(d) => Some(d@),
                        None => None,
                    },
                ) == Some(trim_spec(name@))
                &&& (match final(printers)@[i as int].model {
                    Some(m) => m@ == trim_spec(name@),
                    None => false,
                })
                &&& final(printers)@ =~= old(printers)@.update(
                    i as int,
                    (PrinterRecord {
                        model: final(printers)@[i as int].model,
                        ..old(printers)@[i as int]
                    }),
                )
            },
            None => {
                &&& final(printers)@ == old(printers)@
                &&& (trim_spec(name@).len() == 0 || (forall|j: int|
                    0 <= j < old(printers)@.len() ==> (#[trigger] old(printers)@[j]).id.0@
                        != printer_id.0@) || (exists|i: int|
                    {
                        &&& 0 <= i < old(printers)@.len()
                        &&& (#[trigger] old(printers)@[i]).id.0@ == printer_id.0@
                        &&& backfill_model(
                            old(printers)@[i],
                            trim_spec(name@),
                            allow_override,
                            match sys_descr {
                                Some(d) => Some(d@),
                                None => None,
                            },
                        ).is_none()
                    }))
            },
        },
{
    let trimmed = trim(name.as_str());
    if trimmed.unicode_len() == 0 {
        return None;
    }
    let new_name = trimmed.to_owned();
    let mut i: usize = 0;
    while i < printers.len()
        invariant
            0 <= i <= printers@.len(),
            printers@ == old(printers)@,
            new_name@ == trim_spec(name@),
            trim_spec(name@).len() > 0,
            forall|j: int| 0 <= j < i ==> (#[trigger] printers@[j]).id.0@ != printer_id.0@,
        decreases printers@.len() - i,
    {
        if printers[i].id.eq_id(printer_id) {
            let record = &printers[i];
            let existing_empty = match &record.model {
                Some(m) => trim(m.as_str()).unicode_len() == 0,
                None => true,
            };
            let is_manual = crate::text::has_prefix(record.id.0.as_str(), "manual-");
            let mut replace = false;
            if existing_empty {
                replace = true;
            } else if !is_manual && allow_override {
                let auto_derived = {
                    let by_descr = match (&record.model, sys_descr) {
                        (Some(m), Some(d)) => {
                            let dt = trim(d);
                            dt.unicode_len() > 0 && crate::text::str_eq(trim(m.as_str()), dt)
                        },
                        _ => false,
                    };
                    let by_host = match (&record.model, &record.ip_or_hostname) {
                        (Some(m), Some(h)) => {
                            let ht = trim(h.as_str());
                            ht.unicode_len() > 0 && crate::text::str_eq(trim(m.as_str()), ht)
                        },
                        _ => false,
                    };
                    by_descr || by_host
                };
                let differs = match &record.model {
                    Some(m) => !crate::text::str_eq(trim(m.as_str()), new_name.as_str()),
                    None => true,
                };
                replace = auto_derived && differs;
            }
            if replace {
                let existing = printers.remove(i);
                let updated = PrinterRecord { model: Some(new_name), ..existing };
                printers.insert(i, updated);
                proof {
                    assert(final(printers)@ =~= old(printers)@.update(
                        i as int,
                        final(printers)@[i as int],
                    ));
                }
                return Some(i);
            }
            return None;
        }
        proof {
            assert(printers@[i as int].id.0@ != printer_id.0@);
        }
        i += 1;
    }
    None
}

/// Which way one probe ended, for run bookkeeping.
#[derive(Debug, Clone, Copy, PartialEq, Eq, Structural)]
pub enum ProbeOutcome {
    Printer,
    NotPrinter,
    Failed,
}

/// The bookkeeping of one discovery run: a monotonically advancing run
/// identifier, the pending host queue, the in-flight probe count bounded by
/// the concurrency ceiling, and progress counters. Results carrying a stale
/// run identifier are recognized and dropped without any effect.
#[derive(Debug, Clone)]
pub struct DiscoveryRun {
    pub run_id: u64,
    pub active: bool,
    pub queue: Vec<SnmpAddress>,
    pub next: usize,
    pub in_flight: usize,
    pub scanned: u64,
    pub found: u64,
    pub errors: u64,
    pub concurrency: usize,
}

impl DiscoveryRun {
    /// A fresh, inactive run holder with the given concurrency ceiling.
    pub fn new(concurrency: usize) -> (r: Self)
        ensures
            r.run_id == 0,
            !r.active,
            r.queue@.len() == 0,
            r.next == 0,
            r.in_flight == 0,
            r.scanned == 0,
            r.found == 0,
            r.errors == 0,
            r.concurrency == concurrency,
    {
        DiscoveryRun {
            run_id: 0,
            active: false,
            queue: Vec::new(),
            next: 0,
            in_flight: 0,
            scanned: 0,
            found: 0,
            errors: 0,
            concurrency,
        }
    }

    /// Starts a new run over the given hosts: the run identifier advances,
    /// so results of any earlier run are recognized as stale.
    pub fn start(&mut self, hosts: Vec<SnmpAddress>)
        ensures
            final(self).run_id == if old(self).run_id == u64::MAX {
                0u64
            } else {
                (old(self).run_id + 1) as u64
            },
            final(self).active,
            final(self).queue == hosts,
            final(self).next == 0,
            final(self).in_flight == 0,
            final(self).scanned == 0,
            final(self).found == 0,
            final(self).errors == 0,
            final(self).concurrency == old(self).concurrency,
    {
        self.run_id = if self.run_id == u64::MAX {
            0
        } else {
            self.run_id + 1
        };
        self.active = true;
        self.queue = hosts;
        self.next = 0;
        self.in_flight = 0;
        self.scanned = 0;
        self.found = 0;
        self.errors = 0;
    }

    /// Stops the run at once: the identifier advances (so in-flight results
    /// become stale) and the pending host queue is discarded.
    pub fn stop(&mut self)
        ensures
            final(self).run_id == if old(self).run_id == u64::MAX {
                0u64
            } else {
                (old(self).run_id + 1) as u64
            },
            !final(self).active,
            final(self).queue@.len() == 0,
            final(self).next == 0,
            final(self).in_flight == 0,
            final(self).scanned == old(self).scanned,
            final(self).found == old(self).found,
            final(self).errors == old(self).errors,
            final(self).concurrency == old(self).concurrency,
    {
        self.active = false;
        self.queue = Vec::new();
        self.next = 0;
        self.in_flight = 0;
        self.run_id = if self.run_id == u64::MAX {
            0
        } else {
            self.run_id + 1
        };
    }

    /// Hands out the next queued host for probing while the run is active and
    /// the concurrency ceiling leaves room.
    pub fn next_probe(&mut self) -> (r: Option<SnmpAddress>)
        ensures
            final(self).run_id == old(self).run_id,
            final(self).active == old(self).active,
            final(self).queue == old(self).queue,
            final(self).scanned == old(self).scanned,
            final(self).found == old(self).found,
            final(self).errors == old(self).errors,
            final(self).concurrency == old(self).concurrency,
            if old(self).active && old(self).in_flight < old(self).concurrency && old(self).next
                < old(self).queue@.len() {
                &&& r == Some(old(self).queue@[old(self).next as int])
                &&& final(self).next == old(self).next + 1
                &&& final(self).in_flight == old(self).in_flight + 1
            } else {
                &&& r.is_none()
                &&& final(self).next == old(self).next
                &&& final(self).in_flight == old(self).in_flight
            },
    {
        if !self.active {
            return None;
        }
        if self.in_flight >= self.concurrency {
            return None;
        }
        if self.next >= self.queue.len() {
            return None;
        }
        let address = self.queue[self.next].dup();
        self.next = self.next + 1;
        self.in_flight = self.in_flight + 1;
        Some(address)
    }

    /// Accounts for one finished probe. A result tagged with a stale run
    /// identifier is dropped: it changes nothing and is not accepted. A
    /// current result updates the progress counters, and the run completes
    /// when the queue is exhausted and nothing is in flight.
    pub fn on_result(&mut self, run_id: u64, outcome: ProbeOutcome) -> (accepted: bool)
        ensures
            final(self).run_id == old(self).run_id,
            final(self).queue == old(self).queue,
            final(self).next == old(self).next,
            final(self).concurrency == old(self).concurrency,
            run_id != old(self).run_id ==> !accepted && final(self).active == old(self).active
                && final(self).in_flight == old(self).in_flight && final(self).scanned == old(
                self,
            ).scanned && final(self).found == old(self).found && final(self).errors == old(
                self,
            ).errors,
            run_id == old(self).run_id ==> {
                &&& accepted
                &&& final(self).in_flight == if old(self).in_flight > 0 {
                    (old(self).in_flight - 1) as usize
                } else {
                    0usize
                }
                &&& final(self).scanned == if old(self).scanned < u64::MAX {
                    (old(self).scanned + 1) as u64
                } else {
                    old(self).scanned
                }
                &&& final(self).found == if outcome == ProbeOutcome::Printer && old(self).found
                    < u64::MAX {
                    (old(self).found + 1) as u64
                } else {
                    old(self).found
                }
                &&& final(self).errors == if outcome == ProbeOutcome::Failed && old(self).errors
                    < u64::MAX {
                    (old(self).errors + 1) as u64
                } else {
                    old(self).errors
                }
                &&& final(self).active == (old(self).active && !(old(self).next
                    >= old(self).queue@.len() && final(self).in_flight == 0))
            },
    {
        if run_id != self.run_id {
            return false;
        }
        if self.in_flight > 0 {
            self.in_flight = self.in_flight - 1;
        }
        if self.scanned < u64::MAX {
            self.scanned = self.scanned + 1;
        }
        match outcome {
            ProbeOutcome::Printer => {
                if self.found < u64::MAX {
                    self.found = self.found + 1;
                }
            },
            ProbeOutcome::NotPrinter => {},
            ProbeOutcome::Failed => {
                if self.errors < u64::MAX {
                    self.errors = self.errors + 1;
                }
            },
        }
        if self.next >= self.queue.len() && self.in_flight == 0 {
            self.active = false;
        }
        true
    }
}

} // verus!
