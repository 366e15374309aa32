//! Polling and recording support: the default counter mapping, identifier
//! list formatting and parsing, response field extraction, page-count
//! deltas, and cost arithmetic in cents.
use vstd::prelude::*;
use vstd::string::*;

use crate::counters::{find_vb, find_vb_index, CounterOidSet};
use crate::model::PrinterStatus;
use crate::snmp::{
    as_text_spec, as_u64_spec, display_spec, is_missing_spec, oid_text, oids_view, parse_arcs,
    vbs_view, Oid, SnmpVarBind, VarBindV,
};
use crate::text::{
    dec_digits, is_space, join_with, lemma_join_with_push, lemma_split_pred_first, split_pred,
    trim, trim_spec, u64_dec,
};

verus! {

/// The display label of a printer status.
pub open spec fn status_text(status: PrinterStatus) -> Seq<char> {
    match status {
        PrinterStatus::Unknown => "Unknown"@,
        PrinterStatus::Online => "Online"@,
        PrinterStatus::Offline => "Offline"@,
        PrinterStatus::Error => "Error"@,
    }
}

pub fn status_label(status: PrinterStatus) -> (r: &'static str)
    ensures
        r@ == status_text(status),
{
    match status {
        PrinterStatus::Unknown => "Unknown",
        PrinterStatus::Online => "Online",
        PrinterStatus::Offline => "Offline",
        PrinterStatus::Error => "Error",
    }
}

/// The vendor black/white copier count identifier.
pub open spec fn ricoh_bw_copier() -> Seq<u32> {
    seq![1u32, 3u32, 6u32, 1u32, 4u32, 1u32, 367u32, 3u32, 2u32, 1u32, 2u32, 19u32, 5u32, 1u32,
        9u32, 18u32]
}

/// The vendor black/white printer count identifier.
pub open spec fn ricoh_bw_printer() -> Seq<u32> {
    seq![1u32, 3u32, 6u32, 1u32, 4u32, 1u32, 367u32, 3u32, 2u32, 1u32, 2u32, 19u32, 5u32, 1u32,
        9u32, 61u32]
}

/// The vendor color copier count identifier.
pub open spec fn ricoh_color_copier() -> Seq<u32> {
    seq![1u32, 3u32, 6u32, 1u32, 4u32, 1u32, 367u32, 3u32, 2u32, 1u32, 2u32, 19u32, 5u32, 1u32,
        9u32, 17u32]
}

/// The vendor color printer count identifier.
pub open spec fn ricoh_color_printer() -> Seq<u32> {
    seq![1u32, 3u32, 6u32, 1u32, 4u32, 1u32, 367u32, 3u32, 2u32, 1u32, 2u32, 19u32, 5u32, 1u32,
        9u32, 60u32]
}

/// The first generic marker lifecycle count identifier.
pub open spec fn marker_life_1() -> Seq<u32> {
    seq![1u32, 3u32, 6u32, 1u32, 2u32, 1u32, 43u32, 10u32, 2u32, 1u32, 4u32, 1u32, 1u32]
}

/// The second generic marker lifecycle count identifier.
pub open spec fn marker_life_2() -> Seq<u32> {
    seq![1u32, 3u32, 6u32, 1u32, 2u32, 1u32, 43u32, 10u32, 2u32, 1u32, 4u32, 1u32, 2u32]
}

/// The third generic marker lifecycle count identifier.
pub open spec fn marker_life_3() -> Seq<u32> {
    seq![1u32, 3u32, 6u32, 1u32, 2u32, 1u32, 43u32, 10u32, 2u32, 1u32, 4u32, 1u32, 3u32]
}

/// The built-in counter mapping: vendor split counters first, the generic
/// marker counts as later candidates, the third marker count as total.
pub fn default_counter_oids() -> (r: CounterOidSet)
    ensures
        oids_view(r.bw@) =~= seq![ricoh_bw_copier(), ricoh_bw_printer(), marker_life_1()],
        oids_view(r.color@) =~= seq![ricoh_color_copier(), ricoh_color_printer(), marker_life_2()],
        oids_view(r.total@) =~= seq![marker_life_3()],
{
    let bw: Vec<Oid> = vec![
        Oid(vec![1, 3, 6, 1, 4, 1, 367, 3, 2, 1, 2, 19, 5, 1, 9, 18]),
        Oid(vec![1, 3, 6, 1, 4, 1, 367, 3, 2, 1, 2, 19, 5, 1, 9, 61]),
        Oid(vec![1, 3, 6, 1, 2, 1, 43, 10, 2, 1, 4, 1, 1]),
    ];
    let color: Vec<Oid> = vec![
        Oid(vec![1, 3, 6, 1, 4, 1, 367, 3, 2, 1, 2, 19, 5, 1, 9, 17]),
        Oid(vec![1, 3, 6, 1, 4, 1, 367, 3, 2, 1, 2, 19, 5, 1, 9, 60]),
        Oid(vec![1, 3, 6, 1, 2, 1, 43, 10, 2, 1, 4, 1, 2]),
    ];
    let total: Vec<Oid> = vec![Oid(vec![1, 3, 6, 1, 2, 1, 43, 10, 2, 1, 4, 1, 3])];
    let r = CounterOidSet { bw, color, total };
    proof {
        assert(oids_view(r.bw@) =~= seq![ricoh_bw_copier(), ricoh_bw_printer(), marker_life_1()]);
        assert(oids_view(r.color@) =~= seq![
            ricoh_color_copier(),
            ricoh_color_printer(),
            marker_life_2(),
        ]);
        assert(oids_view(r.total@) =~= seq![marker_life_3()]);
    }
    r
}

/// Renders identifiers as text joined by a comma and a space.
pub fn format_oid_list(oids: &Vec<Oid>) -> (r: String)
    ensures
        r@ == join_with(oids_view(oids@).map_values(|o: Seq<u32>| oid_text(o)), ", "@),
{
    let ghost parts = oids_view(oids@).map_values(|o: Seq<u32>| oid_text(o));
    if oids.len() == 0 {
        let r = String::new();
        proof {
            assert(parts.len() == 0);
        }
        return r;
    }
    let mut r = oids[0].text();
    let mut i: usize = 1;
    proof {
        assert(oids_view(oids@.take(1)).map_values(|o: Seq<u32>| oid_text(o)) =~= seq![
            oid_text(oids@[0]@),
        ]);
        assert(join_with(seq![oid_text(oids@[0]@)], ", "@) == oid_text(oids@[0]@));
    }
    while i < oids.len()
        invariant
            1 <= i <= oids@.len(),
            r@ == join_with(
                oids_view(oids@.take(i as int)).map_values(|o: Seq<u32>| oid_text(o)),
                ", "@,
            ),
        decreases oids@.len() - i,
    {
        let ghost prev = oids_view(oids@.take(i as int)).map_values(|o: Seq<u32>| oid_text(o));
        r.append(", ");
        r.append(oids[i].text().as_str());
        proof {
            reveal_strlit(", ");
            lemma_join_with_push(prev, oid_text(oids@[i as int]@), ", "@);
            assert(oids_view(oids@.take(i as int + 1)).map_values(|o: Seq<u32>| oid_text(o))
                =~= prev.push(oid_text(oids@[i as int]@)));
            assert(r@ =~= join_with(prev, ", "@) + ", "@ + oid_text(oids@[i as int]@));
        }
        i += 1;
    }
    proof {
        assert(oids@.take(oids@.len() as int) =~= oids@);
    }
    r
}

/// Renders the three category lists of a mapping.
pub fn format_counter_oids(oids: &CounterOidSet) -> (r: (String, String, String))
    ensures
        r.0@ == join_with(oids_view(oids.bw@).map_values(|o: Seq<u32>| oid_text(o)), ", "@),
        r.1@ == join_with(oids_view(oids.color@).map_values(|o: Seq<u32>| oid_text(o)), ", "@),
        r.2@ == join_with(oids_view(oids.total@).map_values(|o: Seq<u32>| oid_text(o)), ", "@),
{
    (format_oid_list(&oids.bw), format_oid_list(&oids.color), format_oid_list(&oids.total))
}

/// The characters that separate identifiers in list input: commas and
/// whitespace.
pub open spec fn list_sep() -> spec_fn(char) -> bool {
    |c: char| c == ',' || is_space(c)
}

/// Parses the non-empty tokens of an identifier list; any token that is not
/// a well-formed identifier fails the whole list.
pub open spec fn oids_of_tokens(parts: Seq<Seq<char>>) -> Option<Seq<Seq<u32>>>
    decreases parts.len(),
{
    if parts.len() == 0 {
        Some(Seq::<Seq<u32>>::empty())
    } else if parts[0].len() == 0 {
        oids_of_tokens(parts.drop_first())
    } else {
        match parse_arcs(parts[0]) {
            Some(arcs) => match oids_of_tokens(parts.drop_first()) {
                Some(rest) => Some(seq![arcs] + rest),
                None => None,
            },
            None => None,
        }
    }
}

/// The meaning of identifier list input: tokens separated by commas or
/// whitespace, each a well-formed dotted identifier.
pub open spec fn oid_list_spec(s: Seq<char>) -> Option<Seq<Seq<u32>>> {
    oids_of_tokens(split_pred(s, list_sep()))
}

/// Reads a comma- or whitespace-separated identifier list.
pub fn parse_oid_list(value: &str) -> (r: Result<Vec<Oid>, String>)
    ensures
        match r {
            Ok(v) => oid_list_spec(value@) == Some(oids_view(v@)),
            Err(_) => oid_list_spec(value@).is_none(),
        },
{
    let len = value.unicode_len();
    let mut oids: Vec<Oid> = Vec::new();
    let mut pos: usize = 0;
    proof {
        assert(value@.skip(0) =~= value@);
        match oids_of_tokens(split_pred(value@, list_sep())) {
            Some(t) => {
                assert(oids_view(oids@) + t =~= t);
            },
            None => {},
        }
    }
    while pos < len
        invariant
            0 <= pos <= len,
            len == value@.len(),
            (match oids_of_tokens(split_pred(value@.skip(pos as int), list_sep())) {
                Some(t) => oid_list_spec(value@) == Some(oids_view(oids@) + t),
                None => oid_list_spec(value@).is_none(),
            }),
        decreases len - pos,
    {
        let ghost rest = value@.skip(pos as int);
        let mut j: usize = pos;
        while j < len && !(value.get_char(j) == ',' || crate::text::is_space_char(
            value.get_char(j),
        ))
            invariant
                pos <= j <= len,
                len == value@.len(),
                forall|p: int| pos <= p < j ==> !(list_sep()(#[trigger] value@[p])),
            decreases len - j,
        {
            proof {
                assert(!(list_sep()(value@[j as int])));
            }
            j += 1;
        }
        let ghost comp = value@.subrange(pos as int, j as int);
        proof {
            assert(forall|m: int| 0 <= m < rest.len() ==> rest[m] == value@[pos + m]);
            lemma_split_pred_first(rest, list_sep(), j - pos as int);
            assert(rest.take(j - pos as int) =~= comp);
            if j < len {
                assert(list_sep()(value@[j as int]));
                assert(list_sep()(rest[j - pos as int]));
                assert(rest.skip(j - pos as int + 1) =~= value@.skip(j as int + 1));
            }
            assert(split_pred(rest, list_sep())[0] == comp);
        }
        if j == pos {
            // separator right here: an empty token is skipped
            proof {
                let parts = split_pred(rest, list_sep());
                assert(parts[0].len() == 0);
                assert(parts.drop_first() =~= split_pred(value@.skip(pos as int + 1), list_sep()));
            }
            pos = j + 1;
            continue ;
        }
        let token = value.substring_char(pos, j);
        proof {
            assert(token@ =~= comp);
        }
        match Oid::parse_text(token) {
            Ok(oid) => {
                let ghost old_oids = oids@;
                oids.push(oid);
                proof {
                    let parts = split_pred(rest, list_sep());
                    let tailparts = parts.drop_first();
                    if j < len {
                        assert(parts =~~= seq![comp] + split_pred(
                            value@.skip(j as int + 1),
                            list_sep(),
                        ));
                        assert(tailparts =~= split_pred(value@.skip(j as int + 1), list_sep()));
                    } else {
                        assert(parts =~~= seq![comp]);
                        assert(tailparts =~= Seq::<Seq<char>>::empty());
                    }
                    assert(oids_of_tokens(Seq::<Seq<char>>::empty()) == Some(
                        Seq::<Seq<u32>>::empty(),
                    ));
                    match oids_of_tokens(tailparts) {
                        Some(t) => {
                            assert(oids_of_tokens(parts) == Some(seq![oid@] + t));
                            assert(old_oids.push(oid) =~= oids@);
                            assert(oids_view(oids@) =~= oids_view(old_oids).push(oid@));
                            assert(oids_view(old_oids) + (seq![oid@] + t) =~= oids_view(oids@)
                                + t);
                        },
                        None => {
                            assert(oids_of_tokens(parts).is_none());
                        },
                    }
                }
                if j < len {
                    pos = j + 1;
                } else {
                    pos = j;
                    proof {
                        assert(value@.skip(len as int) =~= Seq::<char>::empty());
                        assert(split_pred(Seq::<char>::empty(), list_sep()) =~~= seq![
                            Seq::<char>::empty(),
                        ]);
                        assert(split_pred(value@.skip(len as int), list_sep()).drop_first()
                            =~= Seq::<Seq<char>>::empty());
                        assert(split_pred(value@.skip(len as int), list_sep())[0].len() == 0);
                        assert(oids_of_tokens(Seq::<Seq<char>>::empty()) == Some(
                            Seq::<Seq<u32>>::empty(),
                        ));
                        assert(oids_of_tokens(split_pred(value@.skip(len as int), list_sep()))
                            == Some(Seq::<Seq<u32>>::empty()));
                    }
                }
            },
            Err(parse_error) => {
                proof {
                    let parts = split_pred(rest, list_sep());
                    assert(parts[0] == comp);
                    assert(comp.len() > 0);
                    assert(parse_arcs(comp).is_none());
                    assert(oids_of_tokens(parts).is_none());
                }
                proof {
                    reveal_strlit("invalid OID '");
                    reveal_strlit("': invalid OID component: ");
                }
                let mut message = String::from_str("invalid OID '");
                message.append(token);
                message.append("': invalid OID component: ");
                message.append(parse_error.component.as_str());
                return Err(message);
            },
        }
    }
    proof {
        {
            assert(value@.skip(len as int) =~= Seq::<char>::empty());
            assert(split_pred(Seq::<char>::empty(), list_sep()) =~~= seq![Seq::<char>::empty()]);
            assert(split_pred(value@.skip(len as int), list_sep()).drop_first()
                =~= Seq::<Seq<char>>::empty());
            assert(split_pred(value@.skip(len as int), list_sep())[0].len() == 0);
            assert(oids_of_tokens(Seq::<Seq<char>>::empty()) == Some(Seq::<Seq<u32>>::empty()));
            assert(oids_of_tokens(split_pred(value@.skip(len as int), list_sep())) == Some(
                Seq::<Seq<u32>>::empty(),
            ));
        }
        assert(oids_view(oids@) + Seq::<Seq<u32>>::empty() =~= oids_view(oids@));
    }
    Ok(oids)
}

/// Trimmed textual reading of the pair carrying the identifier; whitespace
/// or empty text counts as absent.
pub open spec fn trimmed_text_spec(vbs: Seq<VarBindV>, oid: Seq<u32>) -> Option<Seq<char>> {
    match find_vb(vbs, oid) {
        None => None,
        Some(vb) => if is_missing_spec(vb.value) {
            None
        } else {
            let text = match as_text_spec(vb.value) {
                Some(t) => t,
                None => display_spec(vb.value),
            };
            if trim_spec(text).len() > 0 {
                Some(trim_spec(text))
            } else {
                None
            }
        },
    }
}

/// Reads the pair carrying the identifier as trimmed, non-empty text.
pub fn extract_text(varbinds: &Vec<SnmpVarBind>, oid: &Oid) -> (r: Option<String>)
    ensures
        match r {
            Some(s) => trimmed_text_spec(vbs_view(varbinds@), oid@) == Some(s@),
            None => trimmed_text_spec(vbs_view(varbinds@), oid@).is_none(),
        },
{
    match find_vb_index(varbinds, oid) {
        None => None,
        Some(ix) => {
            let vb = &varbinds[ix];
            if vb.value.is_missing() {
                return None;
            }
            let text = match vb.value.as_text_lossy() {
                Some(text) => text,
                None => vb.value.display_text(),
            };
            let trimmed = trim(text.as_str());
            if trimmed.unicode_len() == 0 {
                None
            } else {
                Some(trimmed.to_owned())
            }
        },
    }
}

/// The display reading of the pair carrying the identifier: numeric values
/// render as decimal, anything else through its display form.
pub open spec fn value_string_spec(vbs: Seq<VarBindV>, oid: Seq<u32>) -> Option<Seq<char>> {
    match find_vb(vbs, oid) {
        None => None,
        Some(vb) => if is_missing_spec(vb.value) {
            None
        } else {
            match as_u64_spec(vb.value) {
                Some(v) => Some(dec_digits(v as int)),
                None => Some(display_spec(vb.value)),
            }
        },
    }
}

/// Reads the pair carrying the identifier for display.
pub fn extract_value_string(varbinds: &Vec<SnmpVarBind>, oid: &Oid) -> (r: Option<String>)
    ensures
        match r {
            Some(s) => value_string_spec(vbs_view(varbinds@), oid@) == Some(s@),
            None => value_string_spec(vbs_view(varbinds@), oid@).is_none(),
        },
{
    match find_vb_index(varbinds, oid) {
        None => None,
        Some(ix) => {
            let vb = &varbinds[ix];
            if vb.value.is_missing() {
                return None;
            }
            match vb.value.as_u64() {
                Some(v) => Some(u64_dec(v)),
                None => Some(vb.value.display_text()),
            }
        },
    }
}

/// Numeric reading of the pair carrying the identifier; missing-value
/// sentinels count as absent.
pub open spec fn counter_u64_spec(vbs: Seq<VarBindV>, oid: Seq<u32>) -> Option<u64> {
    match find_vb(vbs, oid) {
        None => None,
        Some(vb) => if is_missing_spec(vb.value) {
            None
        } else {
            as_u64_spec(vb.value)
        },
    }
}

/// Reads the pair carrying the identifier as a counter value.
pub fn extract_counter_u64(varbinds: &Vec<SnmpVarBind>, oid: &Oid) -> (r: Option<u64>)
    ensures
        r == counter_u64_spec(vbs_view(varbinds@), oid@),
{
    match find_vb_index(varbinds, oid) {
        None => None,
        Some(ix) => {
            let vb = &varbinds[ix];
            if vb.value.is_missing() {
                return None;
            }
            vb.value.as_u64()
        },
    }
}

/// The page delta between two readings: defined only when both are present
/// and the end is not below the start.
pub fn delta_value(start: Option<u64>, end: Option<u64>) -> (r: Option<u64>)
    ensures
        r == (match (start, end) {
            (Some(s), Some(e)) => if e >= s {
                Some((e - s) as u64)
            } else {
                Option::<u64>::None
            },
            _ => Option::<u64>::None,
        }),
{
    match (start, end) {
        (Some(s), Some(e)) => if e >= s {
            Some(e - s)
        } else {
            None
        },
        _ => None,
    }
}

/// The sum of two readings, when both are present.
pub fn sum_two(left: Option<u64>, right: Option<u64>) -> (r: Option<u64>)
    requires
        (left.is_some() && right.is_some()) ==> left.unwrap() + right.unwrap() <= u64::MAX,
    ensures
        r == (match (left, right) {
            (Some(l), Some(rv)) => Some((l + rv) as u64),
            _ => Option::<u64>::None,
        }),
{
    match (left, right) {
        (Some(l), Some(rv)) => Some(l + rv),
        _ => None,
    }
}

/// Tiered black/white pricing in cents: the first five pages, the next
/// five, and the rest.
#[derive(Debug, Clone, Copy, PartialEq, Eq, Structural)]
pub struct BwPricing {
    pub first_cents: u64,
    pub next_cents: u64,
    pub rest_cents: u64,
}

/// The tier split of a page count: up to five, up to five more, the rest.
pub open spec fn bw_tiers(count: int) -> (int, int, int) {
    let first = if count < 5 {
        count
    } else {
        5
    };
    let second = if count <= 5 {
        0
    } else if count - 5 < 5 {
        count - 5
    } else {
        5
    };
    let rest = if count <= 10 {
        0
    } else {
        count - 10
    };
    (first, second, rest)
}

/// The tiered black/white cost in cents.
pub open spec fn bw_cost_spec(count: int, pricing: BwPricing) -> int {
    let tiers = bw_tiers(count);
    tiers.0 * pricing.first_cents + tiers.1 * pricing.next_cents + tiers.2 * pricing.rest_cents
}

/// Prices black/white pages by tier.
pub fn bw_cost_cents(count: u64, pricing: BwPricing) -> (r: u64)
    requires
        bw_cost_spec(count as int, pricing) <= u64::MAX,
    ensures
        r as int == bw_cost_spec(count as int, pricing),
{
    let first = if count < 5 {
        count
    } else {
        5
    };
    let second_base = if count > 5 {
        count - 5
    } else {
        0
    };
    let second = if second_base < 5 {
        second_base
    } else {
        5
    };
    let rest = if count > 10 {
        count - 10
    } else {
        0
    };
    proof {
        let tiers = bw_tiers(count as int);
        assert(first as int == tiers.0);
        assert(second as int == tiers.1);
        assert(rest as int == tiers.2);
        assert(first as int * pricing.first_cents as int >= 0);
        assert(second as int * pricing.next_cents as int >= 0);
        assert(rest as int * pricing.rest_cents as int >= 0);
    }
    first * pricing.first_cents + second * pricing.next_cents + rest * pricing.rest_cents
}

/// Prices color pages at a flat rate.
pub fn color_cost_cents(count: u64, price_cents: u64) -> (r: u64)
    requires
        count * price_cents <= u64::MAX,
    ensures
        r as int == count as int * price_cents as int,
{
    count * price_cents
}

/// Rounds a cent amount to the nearest fifty cents, half upward.
pub fn round_to_nearest_50_cents(total_cents: u64) -> (r: u64)
    requires
        total_cents + 25 <= u64::MAX,
    ensures
        r as int == (total_cents + 25) / 50 * 50,
{
    (total_cents + 25) / 50 * 50
}

/// The `euros.cents EUR` rendering of a cent amount, with two cent digits.
pub open spec fn cents_text(cents: int) -> Seq<char> {
    let euros = cents / 100;
    let rem = cents % 100;
    dec_digits(euros) + seq!['.'] + (if rem < 10 {
        seq!['0'] + dec_digits(rem)
    } else {
        dec_digits(rem)
    }) + " EUR"@
}

/// Renders a cent amount as euros.
pub fn format_cents(cents: u64) -> (r: String)
    ensures
        r@ == cents_text(cents as int),
{
    proof {
        reveal_strlit(".");
        reveal_strlit("0");
        reveal_strlit(" EUR");
    }
    let euros = cents / 100;
    let remainder = cents % 100;
    let mut r = u64_dec(euros);
    r.append(".");
    if remainder < 10 {
        r.append("0");
    }
    r.append(u64_dec(remainder).as_str());
    r.append(" EUR");
    proof {
        assert(r@ =~= cents_text(cents as int));
    }
    r
}

/// Renders an optional count, with a placeholder for absent readings.
pub fn format_count(value: Option<u64>) -> (r: String)
    ensures
        r@ == (match value {
            Some(v) => dec_digits(v as int),
            None => "N/A"@,
        }),
{
    proof {
        reveal_strlit("N/A");
    }
    match value {
        Some(v) => u64_dec(v),
        None => String::from_str("N/A"),
    }
}

/// The meaning of a count input field: empty means no override, otherwise
/// the digits must form a 64-bit number.
pub open spec fn count_input_spec(s: Seq<char>) -> Result<Option<u64>, ()> {
    let t = trim_spec(s);
    if t.len() == 0 {
        Ok(None)
    } else if crate::text::all_digits(t) && crate::text::dec_val(t) <= u64::MAX {
        Ok(Some(crate::text::dec_val(t) as u64))
    } else {
        Err(())
    }
}

/// Reads a count input field; see `count_input_spec`.
pub fn parse_count_input(value: &str) -> (r: Result<Option<u64>, ()>)
    ensures
        r == count_input_spec(value@),
{
    let t = trim(value);
    let len = t.unicode_len();
    if len == 0 {
        return Ok(None);
    }
    let mut val: u64 = 0;
    let mut i: usize = 0;
    proof {
        assert(t@.subrange(0, 0) =~= Seq::<char>::empty());
    }
    while i < len
        invariant
            0 <= i <= len,
            len == t@.len(),
            t@ == trim_spec(value@),
            crate::text::all_digits(t@.subrange(0, i as int)),
            val == crate::text::dec_val(t@.subrange(0, i as int)),
        decreases len - i,
    {
        let ghost pre = t@.subrange(0, i as int);
        let c = t.get_char(i);
        let cu = c as u32;
        if cu < 48 || cu > 57 {
            proof {
                assert(!crate::text::is_digit(t@[i as int]));
                assert(!crate::text::all_digits(t@));
            }
            return Err(());
        }
        let d = (cu - 48) as u64;
        proof {
            let pre2 = t@.subrange(0, i as int + 1);
            assert(pre2.drop_last() =~= pre);
            assert(pre2.last() == t@[i as int]);
            crate::text::lemma_dec_val_push(pre, t@[i as int]);
            assert(crate::text::digit_val(t@[i as int]) == d);
            assert(crate::text::all_digits(pre2));
        }
        let wide: u128 = (val as u128) * 10 + (d as u128);
        if wide > u64::MAX as u128 {
            proof {
                let pre2 = t@.subrange(0, i as int + 1);
                if crate::text::all_digits(t@) {
                    assert(pre2 =~= t@.subrange(0, pre2.len() as int));
                    crate::text::lemma_dec_val_prefix_le(pre2, t@);
                    assert(crate::text::dec_val(t@) > u64::MAX);
                }
            }
            return Err(());
        }
        val = wide as u64;
        i += 1;
    }
    proof {
        assert(t@.subrange(0, len as int) =~= t@);
    }
    Ok(Some(val))
}

/// The four page-count categories a recording tracks.
#[derive(Debug, Clone, Copy, PartialEq, Eq, Structural)]
pub enum RecordingCategory {
    CopiesBw,
    CopiesColor,
    PrintsBw,
    PrintsColor,
}

/// The category readings taken at one recording boundary.
#[derive(Debug, Clone)]
pub struct RecordingSnapshot {
    pub received_at: u64,
    pub bw_printer: Option<u64>,
    pub bw_copier: Option<u64>,
    pub color_printer: Option<u64>,
    pub color_copier: Option<u64>,
}

/// The reading a snapshot holds for a category.
pub open spec fn snapshot_value_spec(
    snapshot: RecordingSnapshot,
    category: RecordingCategory,
) -> Option<u64> {
    match category {
        RecordingCategory::CopiesBw => snapshot.bw_copier,
        RecordingCategory::CopiesColor => snapshot.color_copier,
        RecordingCategory::PrintsBw => snapshot.bw_printer,
        RecordingCategory::PrintsColor => snapshot.color_printer,
    }
}

pub fn snapshot_category_value(snapshot: &RecordingSnapshot, category: RecordingCategory) -> (r:
    Option<u64>)
    ensures
        r == snapshot_value_spec(*snapshot, category),
{
    match category {
        RecordingCategory::CopiesBw => snapshot.bw_copier,
        RecordingCategory::CopiesColor => snapshot.color_copier,
        RecordingCategory::PrintsBw => snapshot.bw_printer,
        RecordingCategory::PrintsColor => snapshot.color_printer,
    }
}

/// The editable per-category state of a recording: whether the category is
/// billed, and manual overrides of the start and end readings.
#[derive(Debug, Clone)]
pub struct RecordingCategoryEdits {
    pub include_in_price: bool,
    pub start_input: String,
    pub end_input: String,
}

impl Default for RecordingCategoryEdits {
    fn default() -> (r: Self)
        ensures
            r.include_in_price,
            r.start_input@.len() == 0,
            r.end_input@.len() == 0,
    {
        RecordingCategoryEdits {
            include_in_price: true,
            start_input: String::new(),
            end_input: String::new(),
        }
    }
}

/// Overwrites an input field with a reading, or clears it.
pub fn set_input(target: &mut String, value: Option<u64>)
    ensures
        final(target)@ == (match value {
            Some(v) => dec_digits(v as int),
            None => Seq::<char>::empty(),
        }),
{
    match value {
        Some(v) => {
            *target = u64_dec(v);
        },
        None => {
            *target = String::new();
        },
    }
}

/// The editable state of all four recording categories.
#[derive(Debug, Clone)]
pub struct RecordingEdits {
    pub copies_bw: RecordingCategoryEdits,
    pub copies_color: RecordingCategoryEdits,
    pub prints_bw: RecordingCategoryEdits,
    pub prints_color: RecordingCategoryEdits,
}

impl Default for RecordingEdits {
    fn default() -> (r: Self)
        ensures
            r.copies_bw.include_in_price && r.copies_bw.start_input@.len() == 0
                && r.copies_bw.end_input@.len() == 0,
            r.copies_color.include_in_price && r.copies_color.start_input@.len() == 0
                && r.copies_color.end_input@.len() == 0,
            r.prints_bw.include_in_price && r.prints_bw.start_input@.len() == 0
                && r.prints_bw.end_input@.len() == 0,
            r.prints_color.include_in_price && r.prints_color.start_input@.len() == 0
                && r.prints_color.end_input@.len() == 0,
    {
        RecordingEdits {
            copies_bw: RecordingCategoryEdits::default(),
            copies_color: RecordingCategoryEdits::default(),
            prints_bw: RecordingCategoryEdits::default(),
            prints_color: RecordingCategoryEdits::default(),
        }
    }
}

/// The edits field of one category.
pub open spec fn category_edits_spec(
    edits: RecordingEdits,
    category: RecordingCategory,
) -> RecordingCategoryEdits {
    match category {
        RecordingCategory::CopiesBw => edits.copies_bw,
        RecordingCategory::CopiesColor => edits.copies_color,
        RecordingCategory::PrintsBw => edits.prints_bw,
        RecordingCategory::PrintsColor => edits.prints_color,
    }
}

impl RecordingEdits {
    /// The edit state of one category.
    pub fn category(&self, category: RecordingCategory) -> (r: &RecordingCategoryEdits)
        ensures
            *r == category_edits_spec(*self, category),
    {
        match category {
            RecordingCategory::CopiesBw => &self.copies_bw,
            RecordingCategory::CopiesColor => &self.copies_color,
            RecordingCategory::PrintsBw => &self.prints_bw,
            RecordingCategory::PrintsColor => &self.prints_color,
        }
    }

    /// Fills the start inputs from a snapshot and clears the end inputs.
    pub fn apply_start_snapshot(&mut self, snapshot: &RecordingSnapshot)
        ensures
            final(self).copies_bw.start_input@ == opt_input_text(snapshot.bw_copier),
            final(self).copies_color.start_input@ == opt_input_text(snapshot.color_copier),
            final(self).prints_bw.start_input@ == opt_input_text(snapshot.bw_printer),
            final(self).prints_color.start_input@ == opt_input_text(snapshot.color_printer),
            final(self).copies_bw.end_input@.len() == 0,
            final(self).copies_color.end_input@.len() == 0,
            final(self).prints_bw.end_input@.len() == 0,
            final(self).prints_color.end_input@.len() == 0,
            final(self).copies_bw.include_in_price == old(self).copies_bw.include_in_price,
            final(self).copies_color.include_in_price == old(self).copies_color.include_in_price,
            final(self).prints_bw.include_in_price == old(self).prints_bw.include_in_price,
            final(self).prints_color.include_in_price == old(self).prints_color.include_in_price,
    {
        set_input(&mut self.copies_bw.start_input, snapshot.bw_copier);
        set_input(&mut self.copies_color.start_input, snapshot.color_copier);
        set_input(&mut self.prints_bw.start_input, snapshot.bw_printer);
        set_input(&mut self.prints_color.start_input, snapshot.color_printer);
        self.clear_end_inputs();
    }

    /// Fills the end inputs from a snapshot.
    pub fn apply_end_snapshot(&mut self, snapshot: &RecordingSnapshot)
        ensures
            final(self).copies_bw.end_input@ == opt_input_text(snapshot.bw_copier),
            final(self).copies_color.end_input@ == opt_input_text(snapshot.color_copier),
            final(self).prints_bw.end_input@ == opt_input_text(snapshot.bw_printer),
            final(self).prints_color.end_input@ == opt_input_text(snapshot.color_printer),
            final(self).copies_bw.start_input == old(self).copies_bw.start_input,
            final(self).copies_color.start_input == old(self).copies_color.start_input,
            final(self).prints_bw.start_input == old(self).prints_bw.start_input,
            final(self).prints_color.start_input == old(self).prints_color.start_input,
            final(self).copies_bw.include_in_price == old(self).copies_bw.include_in_price,
            final(self).copies_color.include_in_price == old(self).copies_color.include_in_price,
            final(self).prints_bw.include_in_price == old(self).prints_bw.include_in_price,
            final(self).prints_color.include_in_price == old(self).prints_color.include_in_price,
    {
        set_input(&mut self.copies_bw.end_input, snapshot.bw_copier);
        set_input(&mut self.copies_color.end_input, snapshot.color_copier);
        set_input(&mut self.prints_bw.end_input, snapshot.bw_printer);
        set_input(&mut self.prints_color.end_input, snapshot.color_printer);
    }

    /// Clears every end input.
    pub fn clear_end_inputs(&mut self)
        ensures
            final(self).copies_bw.end_input@.len() == 0,
            final(self).copies_color.end_input@.len() == 0,
            final(self).prints_bw.end_input@.len() == 0,
            final(self).prints_color.end_input@.len() == 0,
            final(self).copies_bw.start_input == old(self).copies_bw.start_input,
            final(self).copies_color.start_input == old(self).copies_color.start_input,
            final(self).prints_bw.start_input == old(self).prints_bw.start_input,
            final(self).prints_color.start_input == old(self).prints_color.start_input,
            final(self).copies_bw.include_in_price == old(self).copies_bw.include_in_price,
            final(self).copies_color.include_in_price == old(self).copies_color.include_in_price,
            final(self).prints_bw.include_in_price == old(self).prints_bw.include_in_price,
            final(self).prints_color.include_in_price == old(self).prints_color.include_in_price,
    {
        self.copies_bw.end_input = String::new();
        self.copies_color.end_input = String::new();
        self.prints_bw.end_input = String::new();
        self.prints_color.end_input = String::new();
    }
}

/// The input-field text of an optional reading.
pub open spec fn opt_input_text(value: Option<u64>) -> Seq<char> {
    match value {
        Some(v) => dec_digits(v as int),
        None => Seq::<char>::empty(),
    }
}

/// A recording in progress: the boundary snapshots, a status line, and the
/// editable per-category state.
#[derive(Debug, Clone)]
pub struct RecordingSession {
    pub active: bool,
    pub start: Option<RecordingSnapshot>,
    pub end: Option<RecordingSnapshot>,
    pub status: Option<String>,
    pub edits: RecordingEdits,
}

impl Default for RecordingSession {
    fn default() -> (r: Self)
        ensures
            !r.active,
            r.start.is_none(),
            r.end.is_none(),
            r.status.is_none(),
    {
        RecordingSession {
            active: false,
            start: None,
            end: None,
            status: None,
            edits: RecordingEdits::default(),
        }
    }
}

/// The effective start reading of a category: a parsed manual override
/// wins, an empty override falls back to the start snapshot, and an
/// unreadable override yields nothing.
pub open spec fn category_boundary_spec(
    input: Seq<char>,
    snapshot: Option<RecordingSnapshot>,
    category: RecordingCategory,
) -> Option<u64> {
    match count_input_spec(input) {
        Ok(Some(v)) => Some(v),
        Ok(None) => match snapshot {
            Some(snap) => snapshot_value_spec(snap, category),
            None => None,
        },
        Err(_) => None,
    }
}

/// The effective start reading of a category; see `category_boundary_spec`.
pub fn category_start_value(session: &RecordingSession, category: RecordingCategory) -> (r: Option<
    u64,
>)
    ensures
        r == category_boundary_spec(
            category_edits_spec(session.edits, category).start_input@,
            session.start,
            category,
        ),
{
    let edits = session.edits.category(category);
    match parse_count_input(edits.start_input.as_str()) {
        Ok(Some(value)) => Some(value),
        Ok(None) => match &session.start {
            Some(snapshot) => snapshot_category_value(snapshot, category),
            None => None,
        },
        Err(_) => None,
    }
}

/// The effective end reading of a category; see `category_boundary_spec`.
pub fn category_end_value(session: &RecordingSession, category: RecordingCategory) -> (r: Option<
    u64,
>)
    ensures
        r == category_boundary_spec(
            category_edits_spec(session.edits, category).end_input@,
            session.end,
            category,
        ),
{
    let edits = session.edits.category(category);
    match parse_count_input(edits.end_input.as_str()) {
        Ok(Some(value)) => Some(value),
        Ok(None) => match &session.end {
            Some(snapshot) => snapshot_category_value(snapshot, category),
            None => None,
        },
        Err(_) => None,
    }
}

/// The saturating sum of the included readings: any included but absent
/// reading spoils the sum, and no included entry at all counts as zero.
pub open spec fn included_ok(items: Seq<(bool, Option<u64>)>) -> bool {
    forall|i: int| 0 <= i < items.len() && (#[trigger] items[i]).0 ==> items[i].1.is_some()
}

/// The unsaturated sum of the included readings.
pub open spec fn included_sum(items: Seq<(bool, Option<u64>)>) -> int
    decreases items.len(),
{
    if items.len() == 0 {
        0
    } else {
        included_sum(items.drop_last()) + (if items.last().0 {
            match items.last().1 {
                Some(v) => v as int,
                None => 0,
            }
        } else {
            0
        })
    }
}

/// Sums the included readings, saturating at the largest 64-bit value.
pub fn sum_optional_included(values: &Vec<(bool, Option<u64>)>) -> (r: Option<u64>)
    ensures
        r == (if included_ok(values@) {
            Some(
                (if included_sum(values@) <= u64::MAX {
                    included_sum(values@) as u64
                } else {
                    u64::MAX
                }),
            )
        } else {
            Option::<u64>::None
        }),
{
    let mut total: u64 = 0;
    let mut i: usize = 0;
    proof {
        assert(values@.take(0) =~= Seq::<(bool, Option<u64>)>::empty());
    }
    while i < values.len()
        invariant
            0 <= i <= values@.len(),
            included_ok(values@.take(i as int)),
            total as int == (if included_sum(values@.take(i as int)) <= u64::MAX {
                included_sum(values@.take(i as int))
            } else {
                u64::MAX as int
            }),
        decreases values@.len() - i,
    {
        let (included, value) = values[i];
        let ghost pre = values@.take(i as int);
        proof {
            assert(values@.take(i as int + 1).drop_last() =~= pre);
            assert(values@.take(i as int + 1).last() == values@[i as int]);
        }
        if included {
            match value {
                Some(v) => {
                    let wide: u128 = (total as u128) + (v as u128);
                    if wide > u64::MAX as u128 {
                        total = u64::MAX;
                    } else {
                        total = wide as u64;
                    }
                    proof {
                        crate::usage::lemma_included_sum_nonneg(pre);
                    }
                },
                None => {
                    proof {
                        assert(values@[i as int].0 && values@[i as int].1.is_none());
                        assert(!included_ok(values@));
                    }
                    return None;
                },
            }
        }
        proof {
            assert(included_ok(values@.take(i as int + 1)));
        }
        i += 1;
    }
    proof {
        assert(values@.take(values@.len() as int) =~= values@);
    }
    Some(total)
}

/// The sum of included readings is never negative.
proof fn lemma_included_sum_nonneg(items: Seq<(bool, Option<u64>)>)
    ensures
        included_sum(items) >= 0,
    decreases items.len(),
{
    if items.len() > 0 {
        lemma_included_sum_nonneg(items.drop_last());
    }
}

/// Identifier order: component-wise, a strict prefix ordering below.
pub open spec fn lex_le(a: Seq<u32>, b: Seq<u32>) -> bool
    decreases a.len(),
{
    if a.len() == 0 {
        true
    } else if b.len() == 0 {
        false
    } else if a[0] < b[0] {
        true
    } else if a[0] > b[0] {
        false
    } else {
        lex_le(a.drop_first(), b.drop_first())
    }
}

/// Identifier order is total.
pub proof fn lemma_lex_le_total(a: Seq<u32>, b: Seq<u32>)
    ensures
        lex_le(a, b) || lex_le(b, a),
    decreases a.len(),
{
    if a.len() > 0 && b.len() > 0 && a[0] == b[0] {
        lemma_lex_le_total(a.drop_first(), b.drop_first());
    }
}

/// Identifier order is transitive.
pub proof fn lemma_lex_le_trans(a: Seq<u32>, b: Seq<u32>, c: Seq<u32>)
    requires
        lex_le(a, b),
        lex_le(b, c),
    ensures
        lex_le(a, c),
    decreases a.len(),
{
    if a.len() > 0 && b.len() > 0 && c.len() > 0 && a[0] == b[0] && b[0] == c[0] {
        lemma_lex_le_trans(a.drop_first(), b.drop_first(), c.drop_first());
    }
}

/// Compares two identifiers; see `lex_le`.
pub fn oid_le(a: &Oid, b: &Oid) -> (r: bool)
    ensures
        r == lex_le(a@, b@),
{
    let mut i: usize = 0;
    let alen = a.0.len();
    let blen = b.0.len();
    proof {
        assert(a@.skip(0) =~= a@);
        assert(b@.skip(0) =~= b@);
    }
    while i < alen && i < blen && a.0[i] == b.0[i]
        invariant
            0 <= i <= alen,
            i <= blen,
            alen == a@.len(),
            blen == b@.len(),
            forall|j: int| 0 <= j < i ==> a@[j] == b@[j],
            lex_le(a@, b@) == lex_le(a@.skip(i as int), b@.skip(i as int)),
            lex_le(b@, a@) == lex_le(b@.skip(i as int), a@.skip(i as int)),
        decreases alen - i,
    {
        proof {
            assert(a@.skip(i as int)[0] == b@.skip(i as int)[0]);
            assert(a@.skip(i as int).drop_first() =~= a@.skip(i as int + 1));
            assert(b@.skip(i as int).drop_first() =~= b@.skip(i as int + 1));
        }
        i += 1;
    }
    proof {
        if i == alen {
            assert(a@.skip(i as int).len() == 0);
        } else if i == blen {
            assert(b@.skip(i as int).len() == 0);
            assert(a@.skip(i as int).len() > 0);
        } else {
            assert(a@.skip(i as int)[0] == a@[i as int]);
            assert(b@.skip(i as int)[0] == b@[i as int]);
        }
    }
    if i == alen {
        true
    } else if i == blen {
        false
    } else {
        a.0[i] < b.0[i]
    }
}

/// Inserts an identifier into a sorted run, after any equal entries.
pub open spec fn insert_sorted(s: Seq<Seq<u32>>, x: Seq<u32>) -> Seq<Seq<u32>>
    decreases s.len(),
{
    if s.len() == 0 {
        seq![x]
    } else if lex_le(s[0], x) {
        seq![s[0]] + insert_sorted(s.drop_first(), x)
    } else {
        seq![x] + s
    }
}

/// Insertion sort of identifiers, ascending.
pub open spec fn sort_oids(s: Seq<Seq<u32>>) -> Seq<Seq<u32>>
    decreases s.len(),
{
    if s.len() == 0 {
        Seq::<Seq<u32>>::empty()
    } else {
        insert_sorted(sort_oids(s.drop_last()), s.last())
    }
}

/// Ascending order of a run of identifiers.
pub open spec fn sorted_lex(s: Seq<Seq<u32>>) -> bool {
    forall|i: int, j: int| 0 <= i < j < s.len() ==> lex_le(#[trigger] s[i], #[trigger] s[j])
}

proof fn lemma_insert_sorted_keeps_order(s: Seq<Seq<u32>>, x: Seq<u32>)
    requires
        sorted_lex(s),
    ensures
        sorted_lex(insert_sorted(s, x)),
        insert_sorted(s, x).len() == s.len() + 1,
        forall|y: Seq<u32>| #[trigger] insert_sorted(s, x).contains(y) <==> (s.contains(y) || y
            == x),
    decreases s.len(),
{
    let w = insert_sorted(s, x);
    if s.len() == 0 {
        assert forall|y: Seq<u32>| #[trigger] w.contains(y) implies (s.contains(y) || y == x) by {
            let k = choose|k: int| 0 <= k < w.len() && w[k] == y;
            assert(w[0] == x);
        }
        assert(w.contains(x)) by {
            assert(w[0] == x);
        }
    } else if lex_le(s[0], x) {
        assert(sorted_lex(s.drop_first())) by {
            assert(forall|i: int, j: int|
                0 <= i < j < s.drop_first().len() ==> s.drop_first()[i] == s[i + 1]
                    && s.drop_first()[j] == s[j + 1]);
        }
        lemma_insert_sorted_keeps_order(s.drop_first(), x);
        let inner = insert_sorted(s.drop_first(), x);
        assert(w =~= seq![s[0]] + inner);
        // the head stays below everything inserted after it
        assert forall|j: int| 1 <= j < w.len() implies lex_le(w[0], w[j]) by {
            assert(w[j] == inner[j - 1]);
            assert(inner.contains(inner[j - 1]));
            if inner[j - 1] == x {
                assert(lex_le(s[0], x));
            } else {
                assert(s.drop_first().contains(inner[j - 1]));
                let k = choose|k: int|
                    0 <= k < s.drop_first().len() && s.drop_first()[k] == inner[j - 1];
                assert(s[k + 1] == inner[j - 1]);
                assert(lex_le(s[0], s[k + 1]));
            }
        }
        assert forall|i: int, j: int| 0 <= i < j < w.len() implies lex_le(w[i], w[j]) by {
            if i >= 1 {
                assert(w[i] == inner[i - 1] && w[j] == inner[j - 1]);
            }
        }
        assert forall|y: Seq<u32>| #[trigger] w.contains(y) implies (s.contains(y) || y == x) by {
            let k = choose|k: int| 0 <= k < w.len() && w[k] == y;
            if k == 0 {
                assert(s[0] == y);
            } else {
                assert(inner[k - 1] == y);
                assert(inner.contains(y));
                if s.drop_first().contains(y) {
                    let m = choose|m: int|
                        0 <= m < s.drop_first().len() && s.drop_first()[m] == y;
                    assert(s[m + 1] == y);
                }
            }
        }
        assert forall|y: Seq<u32>| (s.contains(y) || y == x) implies #[trigger] w.contains(y) by {
            if y == x || s.drop_first().contains(y) {
                assert(inner.contains(y));
                let m = choose|m: int| 0 <= m < inner.len() && inner[m] == y;
                assert(w[m + 1] == y);
            } else {
                let k = choose|k: int| 0 <= k < s.len() && s[k] == y;
                if k == 0 {
                    assert(w[0] == y);
                } else {
                    assert(s.drop_first()[k - 1] == y);
                    assert(s.drop_first().contains(y));
                }
            }
        }
    } else {
        lemma_lex_le_total(s[0], x);
        assert(lex_le(x, s[0]));
        assert(w =~= seq![x] + s);
        assert forall|j: int| 1 <= j < w.len() implies lex_le(w[0], w[j]) by {
            assert(w[j] == s[j - 1]);
            if j - 1 > 0 {
                assert(lex_le(s[0], s[j - 1]));
                lemma_lex_le_trans(x, s[0], s[j - 1]);
            }
        }
        assert forall|i: int, j: int| 0 <= i < j < w.len() implies lex_le(w[i], w[j]) by {
            if i >= 1 {
                assert(w[i] == s[i - 1] && w[j] == s[j - 1]);
            }
        }
        assert forall|y: Seq<u32>| #[trigger] w.contains(y) implies (s.contains(y) || y == x) by {
            let k = choose|k: int| 0 <= k < w.len() && w[k] == y;
            if k > 0 {
                assert(s[k - 1] == y);
            }
        }
        assert forall|y: Seq<u32>| (s.contains(y) || y == x) implies #[trigger] w.contains(y) by {
            if y == x {
                assert(w[0] == y);
            } else {
                let k = choose|k: int| 0 <= k < s.len() && s[k] == y;
                assert(w[k + 1] == y);
            }
        }
    }
}

/// The insertion sort of any identifier run is ascending and holds exactly
/// the run's identifiers.
pub proof fn lemma_sort_oids_sorted(s: Seq<Seq<u32>>)
    ensures
        sorted_lex(sort_oids(s)),
        sort_oids(s).len() == s.len(),
        forall|y: Seq<u32>| #[trigger] sort_oids(s).contains(y) <==> s.contains(y),
    decreases s.len(),
{
    if s.len() > 0 {
        lemma_sort_oids_sorted(s.drop_last());
        lemma_insert_sorted_keeps_order(sort_oids(s.drop_last()), s.last());
        assert forall|y: Seq<u32>| #[trigger] sort_oids(s).contains(y) implies s.contains(y) by {
            if s.drop_last().contains(y) {
                let k = choose|k: int| 0 <= k < s.drop_last().len() && s.drop_last()[k] == y;
                assert(s[k] == y);
            } else {
                assert(y == s.last());
                assert(s[s.len() - 1] == y);
            }
        }
        assert forall|y: Seq<u32>| s.contains(y) implies #[trigger] sort_oids(s).contains(y) by {
            let k = choose|k: int| 0 <= k < s.len() && s[k] == y;
            if k < s.len() - 1 {
                assert(s.drop_last()[k] == y);
                assert(s.drop_last().contains(y));
            } else {
                assert(y == s.last());
            }
        }
    }
}

proof fn lemma_insert_sorted_at(s: Seq<Seq<u32>>, x: Seq<u32>, k: int)
    requires
        0 <= k <= s.len(),
        forall|j: int| 0 <= j < k ==> lex_le(#[trigger] s[j], x),
        k < s.len() ==> !lex_le(s[k], x),
    ensures
        insert_sorted(s, x) =~~= s.take(k) + seq![x] + s.skip(k),
    decreases k,
{
    if s.len() == 0 {
        assert(s.take(0) =~= Seq::<Seq<u32>>::empty());
        assert(s.skip(0) =~= Seq::<Seq<u32>>::empty());
    } else if k == 0 {
        assert(s.take(0) + seq![x] + s.skip(0) =~= seq![x] + s);
    } else {
        assert(lex_le(s[0], x));
        lemma_insert_sorted_at(s.drop_first(), x, k - 1);
        assert(s.drop_first().take(k - 1) =~= s.take(k).drop_first());
        assert(s.drop_first().skip(k - 1) =~= s.skip(k));
        assert(seq![s[0]] + (s.drop_first().take(k - 1) + seq![x] + s.drop_first().skip(k - 1))
            =~= s.take(k) + seq![x] + s.skip(k));
    }
}

/// Membership of an identifier in a list.
pub fn vec_contains_oid(list: &Vec<Oid>, oid: &Oid) -> (r: bool)
    ensures
        r == oids_view(list@).contains(oid@),
{
    let mut i: usize = 0;
    while i < list.len()
        invariant
            0 <= i <= list@.len(),
            forall|j: int| 0 <= j < i ==> oids_view(list@)[j] != oid@,
        decreases list@.len() - i,
    {
        if crate::snmp::oid_eq(&list[i], oid) {
            proof {
                assert(oids_view(list@)[i as int] == oid@);
            }
            return true;
        }
        proof {
            assert(oids_view(list@)[i as int] != oid@);
        }
        i += 1;
    }
    proof {
        assert(forall|j: int| 0 <= j < oids_view(list@).len() ==> oids_view(list@)[j] != oid@);
    }
    false
}

/// Appends an identifier unless it is already present.
pub open spec fn add_unique(acc: Seq<Seq<u32>>, x: Seq<u32>) -> Seq<Seq<u32>> {
    if acc.contains(x) {
        acc
    } else {
        acc.push(x)
    }
}

/// Left-to-right deduplication of identifiers onto an accumulator.
pub open spec fn dedup_oids(init: Seq<Seq<u32>>, s: Seq<Seq<u32>>) -> Seq<Seq<u32>>
    decreases s.len(),
{
    if s.len() == 0 {
        init
    } else {
        add_unique(dedup_oids(init, s.drop_last()), s.last())
    }
}

/// The identifiers of the numerically readable pairs, in first-occurrence
/// order, without duplicates.
pub open spec fn numeric_candidates(vbs: Seq<VarBindV>) -> Seq<Seq<u32>>
    decreases vbs.len(),
{
    if vbs.len() == 0 {
        Seq::<Seq<u32>>::empty()
    } else {
        let front = numeric_candidates(vbs.drop_last());
        if as_u64_spec(vbs.last().value).is_some() && !front.contains(vbs.last().oid) {
            front.push(vbs.last().oid)
        } else {
            front
        }
    }
}

/// The candidate list of a walk holds no identifier twice.
pub proof fn lemma_numeric_candidates_unique(vbs: Seq<VarBindV>)
    ensures
        forall|i: int, j: int|
            0 <= i < j < numeric_candidates(vbs).len() ==> numeric_candidates(vbs)[i]
                != numeric_candidates(vbs)[j],
    decreases vbs.len(),
{
    if vbs.len() > 0 {
        lemma_numeric_candidates_unique(vbs.drop_last());
        let front = numeric_candidates(vbs.drop_last());
        let whole = numeric_candidates(vbs);
        if as_u64_spec(vbs.last().value).is_some() && !front.contains(vbs.last().oid) {
            assert forall|i: int, j: int| 0 <= i < j < whole.len() implies whole[i]
                != whole[j] by {
                if j < front.len() {
                    assert(whole[i] == front[i] && whole[j] == front[j]);
                } else {
                    assert(whole[j] == vbs.last().oid);
                    assert(whole[i] == front[i]);
                    assert(front.contains(front[i]));
                }
            }
        }
    }
}

/// The entries of a run equal to a target, in order.
pub open spec fn matches_of(s: Seq<Seq<u32>>, target: Seq<u32>) -> Seq<Seq<u32>>
    decreases s.len(),
{
    if s.len() == 0 {
        Seq::<Seq<u32>>::empty()
    } else {
        let front = matches_of(s.drop_last(), target);
        if s.last() == target {
            front.push(s.last())
        } else {
            front
        }
    }
}

/// The marker-3 entries of a run, deduplicated.
pub open spec fn total_marker_pass(s: Seq<Seq<u32>>) -> Seq<Seq<u32>>
    decreases s.len(),
{
    if s.len() == 0 {
        Seq::<Seq<u32>>::empty()
    } else {
        let front = total_marker_pass(s.drop_last());
        if s.last() == marker_life_3() {
            add_unique(front, s.last())
        } else {
            front
        }
    }
}

/// Sorts a list of identifiers ascending; see `sort_oids`.
fn sort_oid_vec(candidates: &Vec<Oid>) -> (r: Vec<Oid>)
    ensures
        oids_view(r@) =~= sort_oids(oids_view(candidates@)),
{
    let ghost cv = oids_view(candidates@);
    let mut out: Vec<Oid> = Vec::new();
    let mut i: usize = 0;
    proof {
        assert(cv.take(0) =~= Seq::<Seq<u32>>::empty());
        assert(oids_view(out@) =~= sort_oids(cv.take(0)));
    }
    while i < candidates.len()
        invariant
            0 <= i <= candidates@.len(),
            cv == oids_view(candidates@),
            oids_view(out@) =~= sort_oids(cv.take(i as int)),
        decreases candidates@.len() - i,
    {
        let c = &candidates[i];
        let mut k: usize = 0;
        while k < out.len() && oid_le(&out[k], c)
            invariant
                0 <= k <= out@.len(),
                forall|j: int| 0 <= j < k ==> lex_le(oids_view(out@)[j], c@),
            decreases out@.len() - k,
        {
            proof {
                assert(lex_le(oids_view(out@)[k as int], c@));
            }
            k += 1;
        }
        let ghost out0 = oids_view(out@);
        proof {
            lemma_insert_sorted_at(out0, c@, k as int);
        }
        out.insert(k, c.dup());
        proof {
            assert(oids_view(out@) =~= out0.take(k as int) + seq![c@] + out0.skip(k as int)) by {
                assert(forall|m: int|
                    0 <= m < k ==> oids_view(out@)[m] == #[trigger] out0[m]);
                assert(oids_view(out@)[k as int] == c@);
                assert(forall|m: int|
                    k < m < oids_view(out@).len() ==> oids_view(out@)[m] == #[trigger] out0[m
                        - 1]);
            }
            assert(cv.take(i as int + 1).drop_last() =~= cv.take(i as int));
            assert(cv.take(i as int + 1).last() == c@);
            assert(oids_view(out@) =~= sort_oids(cv.take(i as int + 1)));
        }
        i += 1;
    }
    proof {
        assert(cv.take(cv.len() as int) =~= cv);
    }
    out
}

/// Derives a counter mapping from walked pairs: the numerically readable
/// identifiers are deduplicated and sorted; the first and second generic
/// marker counts, when present, become the black/white and color
/// candidates; the total candidates hold the third marker count first and
/// then every other sorted candidate.
pub fn counter_oids_from_walk(varbinds: &Vec<SnmpVarBind>) -> (r: CounterOidSet)
    ensures
        ({
            let sorted = sort_oids(numeric_candidates(vbs_view(varbinds@)));
            &&& oids_view(r.bw@) =~= matches_of(sorted, marker_life_1())
            &&& oids_view(r.color@) =~= matches_of(sorted, marker_life_2())
            &&& oids_view(r.total@) =~= dedup_oids(total_marker_pass(sorted), sorted)
        }),
{
    let ghost v = vbs_view(varbinds@);
    let mut candidates: Vec<Oid> = Vec::new();
    let mut i: usize = 0;
    proof {
        assert(v.take(0) =~= Seq::<VarBindV>::empty());
        assert(oids_view(candidates@) =~= numeric_candidates(v.take(0)));
    }
    while i < varbinds.len()
        invariant
            0 <= i <= varbinds@.len(),
            v == vbs_view(varbinds@),
            oids_view(candidates@) =~= numeric_candidates(v.take(i as int)),
        decreases varbinds@.len() - i,
    {
        let vb = &varbinds[i];
        proof {
            assert(v.take(i as int + 1).drop_last() =~= v.take(i as int));
            assert(v.take(i as int + 1).last() == v[i as int]);
        }
        let numeric = vb.value.as_u64();
        if numeric.is_some() && !vec_contains_oid(&candidates, &vb.oid) {
            let ghost c0 = oids_view(candidates@);
            candidates.push(vb.oid.dup());
            proof {
                assert(oids_view(candidates@) =~= c0.push(v[i as int].oid));
            }
        }
        i += 1;
    }
    proof {
        assert(v.take(v.len() as int) =~= v);
    }
    let sorted = sort_oid_vec(&candidates);
    let ghost sv = sort_oids(numeric_candidates(v));

    let marker1 = Oid(vec![1, 3, 6, 1, 2, 1, 43, 10, 2, 1, 4, 1, 1]);
    let marker2 = Oid(vec![1, 3, 6, 1, 2, 1, 43, 10, 2, 1, 4, 1, 2]);
    let marker3 = Oid(vec![1, 3, 6, 1, 2, 1, 43, 10, 2, 1, 4, 1, 3]);
    proof {
        assert(marker1@ =~= marker_life_1());
        assert(marker2@ =~= marker_life_2());
        assert(marker3@ =~= marker_life_3());
    }

    let mut bw: Vec<Oid> = Vec::new();
    let mut color: Vec<Oid> = Vec::new();
    let mut total: Vec<Oid> = Vec::new();

    let mut k: usize = 0;
    proof {
        assert(sv.take(0) =~= Seq::<Seq<u32>>::empty());
        assert(oids_view(bw@) =~= matches_of(sv.take(0), marker_life_1()));
        assert(oids_view(color@) =~= matches_of(sv.take(0), marker_life_2()));
        assert(oids_view(total@) =~= total_marker_pass(sv.take(0)));
    }
    while k < sorted.len()
        invariant
            0 <= k <= sorted@.len(),
            oids_view(sorted@) =~= sv,
            marker1@ == marker_life_1(),
            marker2@ == marker_life_2(),
            marker3@ == marker_life_3(),
            oids_view(bw@) =~= matches_of(sv.take(k as int), marker_life_1()),
            oids_view(color@) =~= matches_of(sv.take(k as int), marker_life_2()),
            oids_view(total@) =~= total_marker_pass(sv.take(k as int)),
        decreases sorted@.len() - k,
    {
        let oid = &sorted[k];
        proof {
            assert(sv.take(k as int + 1).drop_last() =~= sv.take(k as int));
            assert(sv.take(k as int + 1).last() == sv[k as int]);
            assert(sv[k as int] == oid@);
        }
        if crate::snmp::oid_eq(oid, &marker1) {
            let ghost b0 = oids_view(bw@);
            bw.push(oid.dup());
            proof {
                assert(oids_view(bw@) =~= b0.push(oid@));
            }
        }
        if crate::snmp::oid_eq(oid, &marker2) {
            let ghost c0 = oids_view(color@);
            color.push(oid.dup());
            proof {
                assert(oids_view(color@) =~= c0.push(oid@));
            }
        }
        if crate::snmp::oid_eq(oid, &marker3) {
            if !vec_contains_oid(&total, oid) {
                let ghost t0 = oids_view(total@);
                total.push(oid.dup());
                proof {
                    assert(oids_view(total@) =~= t0.push(oid@));
                }
            }
        }
        k += 1;
    }
    proof {
        assert(sv.take(sv.len() as int) =~= sv);
    }

    let mut m: usize = 0;
    let ghost phase1 = total_marker_pass(sv);
    while m < sorted.len()
        invariant
            0 <= m <= sorted@.len(),
            oids_view(sorted@) =~= sv,
            oids_view(total@) =~= dedup_oids(phase1, sv.take(m as int)),
        decreases sorted@.len() - m,
    {
        let oid = &sorted[m];
        proof {
            assert(sv.take(m as int + 1).drop_last() =~= sv.take(m as int));
            assert(sv.take(m as int + 1).last() == sv[m as int]);
            assert(sv[m as int] == oid@);
        }
        if !vec_contains_oid(&total, oid) {
            let ghost t0 = oids_view(total@);
            total.push(oid.dup());
            proof {
                assert(oids_view(total@) =~= t0.push(oid@));
            }
        }
        m += 1;
    }
    proof {
        assert(sv.take(sv.len() as int) =~= sv);
    }

    CounterOidSet { bw, color, total }
}

/// The system name field included in every poll.
pub open spec fn sys_name_arcs() -> Seq<u32> {
    seq![1u32, 3u32, 6u32, 1u32, 2u32, 1u32, 1u32, 5u32, 0u32]
}

/// The device uptime field included in every poll.
pub open spec fn sys_uptime_arcs() -> Seq<u32> {
    seq![1u32, 3u32, 6u32, 1u32, 2u32, 1u32, 1u32, 3u32, 0u32]
}

/// The four vendor toner level identifiers, black through yellow.
pub open spec fn ricoh_toner(level: int) -> Seq<u32> {
    seq![1u32, 3u32, 6u32, 1u32, 4u32, 1u32, 367u32, 3u32, 2u32, 1u32, 2u32, 24u32, 1u32, 1u32,
        5u32, level as u32]
}

/// The identifier set one poll requests: device identity fields, the
/// vendor counters, the configured mapping, and the toner levels, in that
/// order, without duplicates.
pub open spec fn poll_oids_spec(oids: crate::counters::CounterOidSet) -> Seq<Seq<u32>> {
    dedup_oids(
        Seq::<Seq<u32>>::empty(),
        seq![
            seq![1u32, 3u32, 6u32, 1u32, 2u32, 1u32, 1u32, 1u32, 0u32],
            seq![1u32, 3u32, 6u32, 1u32, 2u32, 1u32, 1u32, 2u32, 0u32],
            sys_name_arcs(),
            sys_uptime_arcs(),
            seq![1u32, 3u32, 6u32, 1u32, 2u32, 1u32, 43u32, 5u32, 1u32, 1u32, 16u32, 1u32],
            ricoh_bw_copier(),
            ricoh_bw_printer(),
            ricoh_color_copier(),
            ricoh_color_printer(),
        ] + oids_view(oids.bw@) + oids_view(oids.color@) + oids_view(oids.total@) + seq![
            ricoh_toner(1),
            ricoh_toner(2),
            ricoh_toner(3),
            ricoh_toner(4),
        ],
    )
}

/// Appends identifiers to a list.
fn append_oids(dst: &mut Vec<Oid>, src: &Vec<Oid>)
    ensures
        oids_view(final(dst)@) =~= oids_view(old(dst)@) + oids_view(src@),
{
    let mut i: usize = 0;
    proof {
        assert(oids_view(src@.take(0)) =~= Seq::<Seq<u32>>::empty());
        assert(oids_view(dst@) =~= oids_view(old(dst)@) + oids_view(src@.take(0)));
    }
    while i < src.len()
        invariant
            0 <= i <= src@.len(),
            oids_view(dst@) =~= oids_view(old(dst)@) + oids_view(src@.take(i as int)),
        decreases src@.len() - i,
    {
        let ghost d0 = oids_view(dst@);
        dst.push(src[i].dup());
        proof {
            assert(oids_view(dst@) =~= d0.push(src@[i as int]@));
            assert(oids_view(src@.take(i as int + 1)) =~= oids_view(src@.take(i as int)) + seq![
                src@[i as int]@,
            ]);
        }
        i += 1;
    }
    proof {
        assert(src@.take(src@.len() as int) =~= src@);
    }
}

/// Builds the identifier set of one poll; see `poll_oids_spec`.
pub fn snmp_oids(counter_oids: &CounterOidSet) -> (r: Vec<Oid>)
    ensures
        oids_view(r@) =~= poll_oids_spec(*counter_oids),
{
    let ghost head = seq![
        seq![1u32, 3u32, 6u32, 1u32, 2u32, 1u32, 1u32, 1u32, 0u32],
        seq![1u32, 3u32, 6u32, 1u32, 2u32, 1u32, 1u32, 2u32, 0u32],
        sys_name_arcs(),
        sys_uptime_arcs(),
        seq![1u32, 3u32, 6u32, 1u32, 2u32, 1u32, 43u32, 5u32, 1u32, 1u32, 16u32, 1u32],
        ricoh_bw_copier(),
        ricoh_bw_printer(),
        ricoh_color_copier(),
        ricoh_color_printer(),
    ];
    let mut wanted: Vec<Oid> = Vec::new();
    wanted.push(Oid(vec![1, 3, 6, 1, 2, 1, 1, 1, 0]));
    wanted.push(Oid(vec![1, 3, 6, 1, 2, 1, 1, 2, 0]));
    wanted.push(Oid(vec![1, 3, 6, 1, 2, 1, 1, 5, 0]));
    wanted.push(Oid(vec![1, 3, 6, 1, 2, 1, 1, 3, 0]));
    wanted.push(Oid(vec![1, 3, 6, 1, 2, 1, 43, 5, 1, 1, 16, 1]));
    wanted.push(Oid(vec![1, 3, 6, 1, 4, 1, 367, 3, 2, 1, 2, 19, 5, 1, 9, 18]));
    wanted.push(Oid(vec![1, 3, 6, 1, 4, 1, 367, 3, 2, 1, 2, 19, 5, 1, 9, 61]));
    wanted.push(Oid(vec![1, 3, 6, 1, 4, 1, 367, 3, 2, 1, 2, 19, 5, 1, 9, 17]));
    wanted.push(Oid(vec![1, 3, 6, 1, 4, 1, 367, 3, 2, 1, 2, 19, 5, 1, 9, 60]));
    proof {
        assert(oids_view(wanted@) =~= head);
    }
    let ghost w1 = oids_view(wanted@);
    append_oids(&mut wanted, &counter_oids.bw);
    let ghost w2 = oids_view(wanted@);
    append_oids(&mut wanted, &counter_oids.color);
    let ghost w3 = oids_view(wanted@);
    append_oids(&mut wanted, &counter_oids.total);
    let ghost w4 = oids_view(wanted@);
    wanted.push(Oid(vec![1, 3, 6, 1, 4, 1, 367, 3, 2, 1, 2, 24, 1, 1, 5, 1]));
    wanted.push(Oid(vec![1, 3, 6, 1, 4, 1, 367, 3, 2, 1, 2, 24, 1, 1, 5, 2]));
    wanted.push(Oid(vec![1, 3, 6, 1, 4, 1, 367, 3, 2, 1, 2, 24, 1, 1, 5, 3]));
    wanted.push(Oid(vec![1, 3, 6, 1, 4, 1, 367, 3, 2, 1, 2, 24, 1, 1, 5, 4]));
    let ghost wantedv = head + oids_view(counter_oids.bw@) + oids_view(counter_oids.color@)
        + oids_view(counter_oids.total@) + seq![
        ricoh_toner(1),
        ricoh_toner(2),
        ricoh_toner(3),
        ricoh_toner(4),
    ];
    proof {
        assert(oids_view(wanted@) =~= w4 + seq![
            ricoh_toner(1),
            ricoh_toner(2),
            ricoh_toner(3),
            ricoh_toner(4),
        ]);
        assert(oids_view(wanted@) =~= wantedv);
    }
    let mut out: Vec<Oid> = Vec::new();
    let mut d: usize = 0;
    proof {
        assert(wantedv.take(0) =~= Seq::<Seq<u32>>::empty());
        assert(oids_view(out@) =~= dedup_oids(Seq::<Seq<u32>>::empty(), wantedv.take(0)));
    }
    while d < wanted.len()
        invariant
            0 <= d <= wanted@.len(),
            oids_view(wanted@) =~= wantedv,
            oids_view(out@) =~= dedup_oids(Seq::<Seq<u32>>::empty(), wantedv.take(d as int)),
        decreases wanted@.len() - d,
    {
        let c = &wanted[d];
        proof {
            assert(wantedv.take(d as int + 1).drop_last() =~= wantedv.take(d as int));
            assert(wantedv.take(d as int + 1).last() == wantedv[d as int]);
            assert(wantedv[d as int] == c@);
        }
        if !vec_contains_oid(&out, c) {
            let ghost o0 = oids_view(out@);
            out.push(c.dup());
            proof {
                assert(oids_view(out@) =~= o0.push(c@));
            }
        }
        d += 1;
    }
    proof {
        assert(wantedv.take(wantedv.len() as int) =~= wantedv);
    }
    out
}

} // verus!
