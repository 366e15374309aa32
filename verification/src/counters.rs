//! Counter resolution: maps a response's values through a caller-supplied
//! candidate-identifier mapping into a normalized usage snapshot, with
//! explicit fallback rules and warnings.
use vstd::prelude::*;
use vstd::string::*;

use crate::model::{CounterOids, CounterSnapshot, EpochSeconds};
use crate::snmp::{
    as_u64_spec, oid_text, oids_view, vbs_view, Oid, SnmpVarBind, VarBindV,
};

verus! {

/// A counter category: black/white, color, or combined total.
#[derive(Debug, Clone, Copy, PartialEq, Eq, Structural)]
pub enum CounterKind {
    Bw,
    Color,
    Total,
}

/// The lower-case name of a category.
pub open spec fn kind_text(k: CounterKind) -> Seq<char> {
    match k {
        CounterKind::Bw => "bw"@,
        CounterKind::Color => "color"@,
        CounterKind::Total => "total"@,
    }
}

impl CounterKind {
    pub fn label(&self) -> (r: &'static str)
        ensures
            r@ == kind_text(*self),
    {
        match self {
            CounterKind::Bw => "bw",
            CounterKind::Color => "color",
            CounterKind::Total => "total",
        }
    }
}

/// Which categories resolved: both split counters, the total fallback, a
/// partial result, or nothing.
#[derive(Debug, Clone, Copy, PartialEq, Eq, Structural)]
pub enum CounterMode {
    BwColor,
    TotalOnly,
    Partial,
    Missing,
}

/// Mathematical value of a resolution warning.
pub enum WarningV {
    Missing { kind: CounterKind },
    UsedTotalFallback,
    DerivedTotal,
    NonNumeric { kind: CounterKind, oid: Seq<char> },
}

/// A non-fatal observation made while resolving counters.
#[derive(Debug, Clone)]
pub enum CounterWarning {
    Missing { kind: CounterKind },
    UsedTotalFallback,
    DerivedTotal,
    NonNumeric { kind: CounterKind, oid: String },
}

impl View for CounterWarning {
    type V = WarningV;

    open spec fn view(&self) -> WarningV {
        match self {
            CounterWarning::Missing { kind } => WarningV::Missing { kind: *kind },
            CounterWarning::UsedTotalFallback => WarningV::UsedTotalFallback,
            CounterWarning::DerivedTotal => WarningV::DerivedTotal,
            CounterWarning::NonNumeric { kind, oid } => WarningV::NonNumeric {
                kind: *kind,
                oid: oid@,
            },
        }
    }
}

/// The views of a warning list.
pub open spec fn warnings_view(ws: Seq<CounterWarning>) -> Seq<WarningV> {
    ws.map_values(|w: CounterWarning| w@)
}

/// The user-facing message of a warning.
pub open spec fn warning_text(w: WarningV) -> Seq<char> {
    match w {
        WarningV::Missing { kind } => "Missing "@ + kind_text(kind) + " counter"@,
        WarningV::UsedTotalFallback => "Used total counter fallback"@,
        WarningV::DerivedTotal => "Total counter derived from BW + Color"@,
        WarningV::NonNumeric { kind, oid } => "Non-numeric "@ + kind_text(kind)
            + " counter at OID "@ + oid,
    }
}

impl CounterWarning {
    /// Renders the warning for display.
    pub fn message(&self) -> (r: String)
        ensures
            r@ == warning_text(self@),
    {
        proof {
            reveal_strlit("Missing ");
            reveal_strlit(" counter");
            reveal_strlit("Used total counter fallback");
            reveal_strlit("Total counter derived from BW + Color");
            reveal_strlit("Non-numeric ");
            reveal_strlit(" counter at OID ");
        }
        match self {
            CounterWarning::Missing { kind } => {
                let mut r = String::from_str("Missing ");
                r.append(kind.label());
                r.append(" counter");
                proof {
                    assert(r@ =~= warning_text(self@));
                }
                r
            },
            CounterWarning::UsedTotalFallback => String::from_str("Used total counter fallback"),
            CounterWarning::DerivedTotal => String::from_str(
                "Total counter derived from BW + Color",
            ),
            CounterWarning::NonNumeric { kind, oid } => {
                let mut r = String::from_str("Non-numeric ");
                r.append(kind.label());
                r.append(" counter at OID ");
                r.append(oid.as_str());
                proof {
                    assert(r@ =~= warning_text(self@));
                }
                r
            },
        }
    }
}

/// Three ordered candidate-identifier lists, one per category; for each
/// category the first candidate present in the response wins.
#[derive(Debug, Clone)]
pub struct CounterOidSet {
    pub bw: Vec<Oid>,
    pub color: Vec<Oid>,
    pub total: Vec<Oid>,
}

impl Default for CounterOidSet {
    fn default() -> (r: Self)
        ensures
            r.bw@.len() == 0,
            r.color@.len() == 0,
            r.total@.len() == 0,
    {
        CounterOidSet { bw: Vec::new(), color: Vec::new(), total: Vec::new() }
    }
}

/// Everything one resolution produced: the snapshot, the mode, the warnings,
/// and the raw pairs the response carried.
#[derive(Debug, Clone)]
pub struct CounterResolution {
    pub snapshot: CounterSnapshot,
    pub mode: CounterMode,
    pub warnings: Vec<CounterWarning>,
    pub raw_varbinds: Vec<SnmpVarBind>,
}

/// The first pair of the response carrying the given identifier.
pub open spec fn find_vb(vbs: Seq<VarBindV>, oid: Seq<u32>) -> Option<VarBindV>
    decreases vbs.len(),
{
    if vbs.len() == 0 {
        None
    } else if vbs[0].oid == oid {
        Some(vbs[0])
    } else {
        find_vb(vbs.drop_first(), oid)
    }
}

/// Scans the candidates in order; the first candidate that is present and
/// numerically coercible wins, and its value and identifier are returned.
/// A present but non-numeric candidate does not stop the scan.
pub open spec fn scan_value(cands: Seq<Seq<u32>>, vbs: Seq<VarBindV>) -> Option<(u64, Seq<u32>)>
    decreases cands.len(),
{
    if cands.len() == 0 {
        None
    } else {
        match find_vb(vbs, cands[0]) {
            None => scan_value(cands.drop_first(), vbs),
            Some(vb) => match as_u64_spec(vb.value) {
                Some(v) => Some((v, cands[0])),
                None => scan_value(cands.drop_first(), vbs),
            },
        }
    }
}

/// The candidates that were present but not numeric, in scan order, up to
/// (and excluding) the winning candidate.
pub open spec fn scan_nonnumeric(cands: Seq<Seq<u32>>, vbs: Seq<VarBindV>) -> Seq<Seq<u32>>
    decreases cands.len(),
{
    if cands.len() == 0 {
        Seq::<Seq<u32>>::empty()
    } else {
        match find_vb(vbs, cands[0]) {
            None => scan_nonnumeric(cands.drop_first(), vbs),
            Some(vb) => match as_u64_spec(vb.value) {
                Some(v) => Seq::<Seq<u32>>::empty(),
                None => seq![cands[0]] + scan_nonnumeric(cands.drop_first(), vbs),
            },
        }
    }
}

/// The non-numeric warnings one category scan emits.
pub open spec fn nonnum_warnings(
    kind: CounterKind,
    cands: Seq<Seq<u32>>,
    vbs: Seq<VarBindV>,
) -> Seq<WarningV> {
    scan_nonnumeric(cands, vbs).map_values(
        |o: Seq<u32>| WarningV::NonNumeric { kind, oid: oid_text(o) },
    )
}

/// The resolution mode, decided solely by which categories resolved: prefer
/// both split counters, fall back to the total, else partial or missing.
pub open spec fn mode_spec(
    bw: Option<(u64, Seq<u32>)>,
    color: Option<(u64, Seq<u32>)>,
    total: Option<(u64, Seq<u32>)>,
) -> CounterMode {
    if bw.is_some() && color.is_some() {
        CounterMode::BwColor
    } else if total.is_some() {
        CounterMode::TotalOnly
    } else if bw.is_some() || color.is_some() {
        CounterMode::Partial
    } else {
        CounterMode::Missing
    }
}

/// The full warning list of one resolution, in emission order.
pub open spec fn warnings_spec(
    bwc: Seq<Seq<u32>>,
    colorc: Seq<Seq<u32>>,
    totalc: Seq<Seq<u32>>,
    vbs: Seq<VarBindV>,
) -> Seq<WarningV> {
    let bw = scan_value(bwc, vbs);
    let color = scan_value(colorc, vbs);
    let total = scan_value(totalc, vbs);
    let base = nonnum_warnings(CounterKind::Bw, bwc, vbs) + nonnum_warnings(
        CounterKind::Color,
        colorc,
        vbs,
    ) + nonnum_warnings(CounterKind::Total, totalc, vbs);
    if bw.is_some() && color.is_some() {
        base + if total.is_none() {
            seq![WarningV::DerivedTotal]
        } else {
            Seq::<WarningV>::empty()
        }
    } else if total.is_some() {
        base + (if bw.is_none() {
            seq![WarningV::Missing { kind: CounterKind::Bw }]
        } else {
            Seq::<WarningV>::empty()
        }) + (if color.is_none() {
            seq![WarningV::Missing { kind: CounterKind::Color }]
        } else {
            Seq::<WarningV>::empty()
        }) + seq![WarningV::UsedTotalFallback]
    } else {
        base + (if bw.is_none() {
            seq![WarningV::Missing { kind: CounterKind::Bw }]
        } else {
            Seq::<WarningV>::empty()
        }) + (if color.is_none() {
            seq![WarningV::Missing { kind: CounterKind::Color }]
        } else {
            Seq::<WarningV>::empty()
        }) + seq![WarningV::Missing { kind: CounterKind::Total }]
    }
}

/// The view of an optional audit identifier text.
pub open spec fn opt_str_view(o: Option<String>) -> Option<Seq<char>> {
    match o {
        Some(s) => Some(s@),
        None => None,
    }
}

/// The text of a winning candidate, if any.
pub open spec fn opt_win_text(w: Option<(u64, Seq<u32>)>) -> Option<Seq<char>> {
    match w {
        Some(p) => Some(oid_text(p.1)),
        None => None,
    }
}

/// The value of a winning candidate, if any.
pub open spec fn opt_win_value(w: Option<(u64, Seq<u32>)>) -> Option<u64> {
    match w {
        Some(p) => Some(p.0),
        None => None,
    }
}

proof fn lemma_find_vb_at(vbs: Seq<VarBindV>, oid: Seq<u32>, ix: int)
    requires
        0 <= ix <= vbs.len(),
        forall|j: int| 0 <= j < ix ==> vbs[j].oid != oid,
        ix < vbs.len() ==> vbs[ix].oid == oid,
    ensures
        ix < vbs.len() ==> find_vb(vbs, oid) == Some(vbs[ix]),
        ix == vbs.len() ==> find_vb(vbs, oid).is_none(),
    decreases vbs.len(),
{
    if vbs.len() == 0 {
    } else if ix == 0 {
    } else {
        assert(vbs[0].oid != oid);
        lemma_find_vb_at(vbs.drop_first(), oid, ix - 1);
        assert(ix - 1 < vbs.drop_first().len() ==> vbs.drop_first()[ix - 1] == vbs[ix]);
    }
}

/// Finds the index of the first response pair carrying the identifier.
pub(crate) fn find_vb_index(varbinds: &Vec<SnmpVarBind>, oid: &Oid) -> (r: Option<usize>)
    ensures
        match r {
            Some(ix) => ix < varbinds@.len() && find_vb(vbs_view(varbinds@), oid@) == Some(
                varbinds@[ix as int]@,
            ),
            None => find_vb(vbs_view(varbinds@), oid@).is_none(),
        },
{
    let mut ix: usize = 0;
    while ix < varbinds.len()
        invariant
            0 <= ix <= varbinds@.len(),
            forall|j: int| 0 <= j < ix ==> vbs_view(varbinds@)[j].oid != oid@,
        decreases varbinds@.len() - ix,
    {
        if crate::snmp::oid_eq(&varbinds[ix].oid, oid) {
            proof {
                assert(vbs_view(varbinds@)[ix as int].oid == oid@);
                lemma_find_vb_at(vbs_view(varbinds@), oid@, ix as int);
            }
            return Some(ix);
        }
        proof {
            assert(vbs_view(varbinds@)[ix as int].oid != oid@);
        }
        ix += 1;
    }
    proof {
        lemma_find_vb_at(vbs_view(varbinds@), oid@, varbinds@.len() as int);
    }
    None
}

/// What one category scan yielded: the value and the identifier that
/// produced it, if any candidate matched.
struct CounterValue {
    value: Option<u64>,
    oid: Option<Oid>,
}

/// Scans one category's candidates against the response, recording a
/// warning for each present but non-numeric candidate.
fn find_counter_value(
    kind: CounterKind,
    candidates: &Vec<Oid>,
    varbinds: &Vec<SnmpVarBind>,
    warnings: &mut Vec<CounterWarning>,
) -> (r: CounterValue)
    ensures
        ({
            let win = scan_value(oids_view(candidates@), vbs_view(varbinds@));
            &&& r.value == opt_win_value(win)
            &&& (match r.oid {
                Some(o) => win.is_some() && o@ == win.unwrap().1,
                None => win.is_none(),
            })
            &&& warnings_view(final(warnings)@) =~= warnings_view(old(warnings)@)
                + nonnum_warnings(kind, oids_view(candidates@), vbs_view(varbinds@))
        }),
{
    let ghost cv = oids_view(candidates@);
    let ghost v = vbs_view(varbinds@);
    let mut i: usize = 0;
    let ghost mut done_nn: Seq<Seq<u32>> = Seq::<Seq<u32>>::empty();
    proof {
        assert(cv.skip(0) =~= cv);
        assert(done_nn + scan_nonnumeric(cv, v) =~= scan_nonnumeric(cv, v));
        assert(warnings_view(warnings@) =~= warnings_view(old(warnings)@) + done_nn.map_values(
            |o: Seq<u32>| WarningV::NonNumeric { kind, oid: oid_text(o) },
        ));
    }
    while i < candidates.len()
        invariant
            0 <= i <= candidates@.len(),
            cv == oids_view(candidates@),
            v == vbs_view(varbinds@),
            scan_value(cv, v) == scan_value(cv.skip(i as int), v),
            scan_nonnumeric(cv, v) =~= done_nn + scan_nonnumeric(cv.skip(i as int), v),
            warnings_view(warnings@) =~= warnings_view(old(warnings)@) + done_nn.map_values(
                |o: Seq<u32>| WarningV::NonNumeric { kind, oid: oid_text(o) },
            ),
        decreases candidates@.len() - i,
    {
        let candidate = &candidates[i];
        proof {
            assert(cv.skip(i as int)[0] == candidate@);
            assert(cv.skip(i as int).drop_first() =~= cv.skip(i as int + 1));
        }
        match find_vb_index(varbinds, candidate) {
            Some(ix) => {
                let value = varbinds[ix].value.as_u64();
                match value {
                    Some(num) => {
                        proof {
                            assert(scan_value(cv.skip(i as int), v) == Some(
                                (num, candidate@),
                            ));
                            assert(scan_nonnumeric(cv.skip(i as int), v)
                                =~= Seq::<Seq<u32>>::empty());
                            assert(scan_nonnumeric(cv, v) =~= done_nn);
                        }
                        return CounterValue { value: Some(num), oid: Some(candidate.dup()) };
                    },
                    None => {
                        let ghost w0 = warnings@;
                        warnings.push(
                            CounterWarning::NonNumeric { kind, oid: candidate.text() },
                        );
                        proof {
                            assert(warnings_view(warnings@) =~= warnings_view(w0).push(
                                WarningV::NonNumeric { kind, oid: oid_text(candidate@) },
                            ));
                            assert(scan_nonnumeric(cv.skip(i as int), v) =~= seq![candidate@]
                                + scan_nonnumeric(cv.skip(i as int + 1), v));
                            done_nn = done_nn.push(candidate@);
                            assert(done_nn.map_values(
                                |o: Seq<u32>| WarningV::NonNumeric { kind, oid: oid_text(o) },
                            ) =~= done_nn.drop_last().map_values(
                                |o: Seq<u32>| WarningV::NonNumeric { kind, oid: oid_text(o) },
                            ).push(WarningV::NonNumeric { kind, oid: oid_text(candidate@) }));
                            assert(warnings_view(warnings@) =~= warnings_view(old(warnings)@)
                                + done_nn.map_values(
                                |o: Seq<u32>| WarningV::NonNumeric { kind, oid: oid_text(o) },
                            ));
                            assert(scan_nonnumeric(cv, v) =~= done_nn + scan_nonnumeric(
                                cv.skip(i as int + 1),
                                v,
                            ));
                        }
                    },
                }
            },
            None => {
                proof {
                    assert(scan_value(cv.skip(i as int), v) == scan_value(
                        cv.skip(i as int + 1),
                        v,
                    ));
                    assert(scan_nonnumeric(cv.skip(i as int), v) =~= scan_nonnumeric(
                        cv.skip(i as int + 1),
                        v,
                    ));
                }
            },
        }
        i += 1;
    }
    proof {
        assert(cv.skip(candidates@.len() as int) =~= Seq::<Seq<u32>>::empty());
        assert(scan_value(cv, v).is_none());
        assert(scan_nonnumeric(cv, v) =~= done_nn);
    }
    CounterValue { value: None, oid: None }
}

/// Copies the response pairs for the audit trail.
fn copy_varbinds(v: &Vec<SnmpVarBind>) -> (r: Vec<SnmpVarBind>)
    ensures
        vbs_view(r@) =~= vbs_view(v@),
{
    let mut out: Vec<SnmpVarBind> = Vec::new();
    let mut i: usize = 0;
    while i < v.len()
        invariant
            0 <= i <= v@.len(),
            vbs_view(out@) =~= vbs_view(v@).take(i as int),
        decreases v@.len() - i,
    {
        let ghost out0 = out@;
        out.push(v[i].dup());
        proof {
            assert(vbs_view(out@) =~= vbs_view(out0).push(v@[i as int]@));
            assert(vbs_view(v@).take(i as int + 1) =~= vbs_view(v@).take(i as int) + seq![
                v@[i as int]@,
            ]);
        }
        i += 1;
    }
    proof {
        assert(vbs_view(v@).take(v@.len() as int) =~= vbs_view(v@));
    }
    out
}

/// Resolves a response against a category mapping into a normalized
/// snapshot. Prefers both split counters (deriving the total when absent,
/// with a derived-total warning and a cleared total audit identifier), falls
/// back to the total counter, else reports a partial or missing result.
pub fn resolve_counters(
    timestamp: EpochSeconds,
    oids: &CounterOidSet,
    varbinds: &Vec<SnmpVarBind>,
) -> (r: CounterResolution)
    requires
        ({
            let v = vbs_view(varbinds@);
            let bw = scan_value(oids_view(oids.bw@), v);
            let color = scan_value(oids_view(oids.color@), v);
            let total = scan_value(oids_view(oids.total@), v);
            (bw.is_some() && color.is_some() && total.is_none()) ==> bw.unwrap().0
                + color.unwrap().0 <= u64::MAX
        }),
    ensures
        ({
            let v = vbs_view(varbinds@);
            let bw = scan_value(oids_view(oids.bw@), v);
            let color = scan_value(oids_view(oids.color@), v);
            let total = scan_value(oids_view(oids.total@), v);
            &&& r.mode == mode_spec(bw, color, total)
            &&& warnings_view(r.warnings@) =~= warnings_spec(
                oids_view(oids.bw@),
                oids_view(oids.color@),
                oids_view(oids.total@),
                v,
            )
            &&& vbs_view(r.raw_varbinds@) =~= v
            &&& r.snapshot.timestamp == timestamp
            &&& opt_str_view(r.snapshot.source_oids.bw) == opt_win_text(bw)
            &&& opt_str_view(r.snapshot.source_oids.color) == opt_win_text(color)
            &&& opt_str_view(r.snapshot.source_oids.total) == (if r.mode == CounterMode::BwColor
                && total.is_none() {
                Option::<Seq<char>>::None
            } else {
                opt_win_text(total)
            })
            &&& (r.mode == CounterMode::BwColor ==> r.snapshot.bw == opt_win_value(bw)
                && r.snapshot.color == opt_win_value(color) && r.snapshot.total == Some(
                if total.is_some() {
                    total.unwrap().0
                } else {
                    (bw.unwrap().0 + color.unwrap().0) as u64
                },
            ))
            &&& (r.mode == CounterMode::TotalOnly ==> r.snapshot.bw.is_none()
                && r.snapshot.color.is_none() && r.snapshot.total == opt_win_value(total))
            &&& ((r.mode == CounterMode::Partial || r.mode == CounterMode::Missing)
                ==> r.snapshot.bw == opt_win_value(bw) && r.snapshot.color == opt_win_value(color)
                && r.snapshot.total.is_none())
        }),
{
    let raw_varbinds = copy_varbinds(varbinds);
    let mut warnings: Vec<CounterWarning> = Vec::new();

    let bw = find_counter_value(CounterKind::Bw, &oids.bw, varbinds, &mut warnings);
    let color = find_counter_value(CounterKind::Color, &oids.color, varbinds, &mut warnings);
    let total = find_counter_value(CounterKind::Total, &oids.total, varbinds, &mut warnings);

    let ghost v = vbs_view(varbinds@);
    let ghost bww = scan_value(oids_view(oids.bw@), v);
    let ghost colorw = scan_value(oids_view(oids.color@), v);
    let ghost totalw = scan_value(oids_view(oids.total@), v);
    let ghost base = nonnum_warnings(CounterKind::Bw, oids_view(oids.bw@), v) + nonnum_warnings(
        CounterKind::Color,
        oids_view(oids.color@),
        v,
    ) + nonnum_warnings(CounterKind::Total, oids_view(oids.total@), v);
    proof {
        assert(warnings_view(warnings@) =~= base);
    }

    let mut snapshot = CounterSnapshot::new(timestamp);
    snapshot.source_oids = CounterOids {
        bw: match &bw.oid {
            Some(o) => Some(o.text()),
            None => None,
        },
        color: match &color.oid {
            Some(o) => Some(o.text()),
            None => None,
        },
        total: match &total.oid {
            Some(o) => Some(o.text()),
            None => None,
        },
    };

    let mode: CounterMode;
    if bw.value.is_some() && color.value.is_some() {
        snapshot.bw = bw.value;
        snapshot.color = color.value;
        match total.value {
            Some(total_value) => {
                snapshot.total = Some(total_value);
            },
            None => {
                let bw_value = bw.value.unwrap();
                let color_value = color.value.unwrap();
                snapshot.total = Some(bw_value + color_value);
                let ghost w0 = warnings@;
                warnings.push(CounterWarning::DerivedTotal);
                proof {
                    assert(warnings_view(warnings@) =~= warnings_view(w0).push(
                        WarningV::DerivedTotal,
                    ));
                    assert(warnings_view(warnings@) =~= base + seq![WarningV::DerivedTotal]);
                }
                snapshot.source_oids.total = None;
            },
        }
        mode = CounterMode::BwColor;
    } else if total.value.is_some() {
        snapshot.total = total.value;
        if bw.value.is_none() {
            let ghost w0 = warnings@;
            warnings.push(CounterWarning::Missing { kind: CounterKind::Bw });
            proof {
                assert(warnings_view(warnings@) =~= warnings_view(w0).push(
                    WarningV::Missing { kind: CounterKind::Bw },
                ));
            }
        }
        if color.value.is_none() {
            let ghost w0 = warnings@;
            warnings.push(CounterWarning::Missing { kind: CounterKind::Color });
            proof {
                assert(warnings_view(warnings@) =~= warnings_view(w0).push(
                    WarningV::Missing { kind: CounterKind::Color },
                ));
            }
        }
        let ghost w0 = warnings@;
        warnings.push(CounterWarning::UsedTotalFallback);
        proof {
            assert(warnings_view(warnings@) =~= warnings_view(w0).push(
                WarningV::UsedTotalFallback,
            ));
            assert(warnings_view(warnings@) =~= base + (if bww.is_none() {
                seq![WarningV::Missing { kind: CounterKind::Bw }]
            } else {
                Seq::<WarningV>::empty()
            }) + (if colorw.is_none() {
                seq![WarningV::Missing { kind: CounterKind::Color }]
            } else {
                Seq::<WarningV>::empty()
            }) + seq![WarningV::UsedTotalFallback]);
        }
        mode = CounterMode::TotalOnly;
    } else {
        snapshot.bw = bw.value;
        snapshot.color = color.value;
        if bw.value.is_none() {
            let ghost w0 = warnings@;
            warnings.push(CounterWarning::Missing { kind: CounterKind::Bw });
            proof {
                assert(warnings_view(warnings@) =~= warnings_view(w0).push(
                    WarningV::Missing { kind: CounterKind::Bw },
                ));
            }
        }
        if color.value.is_none() {
            let ghost w0 = warnings@;
            warnings.push(CounterWarning::Missing { kind: CounterKind::Color });
            proof {
                assert(warnings_view(warnings@) =~= warnings_view(w0).push(
                    WarningV::Missing { kind: CounterKind::Color },
                ));
            }
        }
        let ghost w0 = warnings@;
        warnings.push(CounterWarning::Missing { kind: CounterKind::Total });
        proof {
            assert(warnings_view(warnings@) =~= warnings_view(w0).push(
                WarningV::Missing { kind: CounterKind::Total },
            ));
            assert(warnings_view(warnings@) =~= base + (if bww.is_none() {
                seq![WarningV::Missing { kind: CounterKind::Bw }]
            } else {
                Seq::<WarningV>::empty()
            }) + (if colorw.is_none() {
                seq![WarningV::Missing { kind: CounterKind::Color }]
            } else {
                Seq::<WarningV>::empty()
            }) + seq![WarningV::Missing { kind: CounterKind::Total }]);
        }
        if bw.value.is_some() || color.value.is_some() {
            mode = CounterMode::Partial;
        } else {
            mode = CounterMode::Missing;
        }
    }

    CounterResolution { snapshot, mode, warnings, raw_varbinds }
}

proof fn lemma_scan_empty(cands: Seq<Seq<u32>>, vbs: Seq<VarBindV>)
    requires
        vbs.len() == 0,
    ensures
        scan_value(cands, vbs).is_none(),
        scan_nonnumeric(cands, vbs) =~= Seq::<Seq<u32>>::empty(),
    decreases cands.len(),
{
    if cands.len() > 0 {
        lemma_scan_empty(cands.drop_first(), vbs);
    }
}

/// Nothing present: against an empty response every category scan fails, the
/// mode is `Missing`, and the warnings are exactly one missing warning per
/// category, whatever the mapping holds.
pub proof fn lemma_empty_response_missing(
    bwc: Seq<Seq<u32>>,
    colorc: Seq<Seq<u32>>,
    totalc: Seq<Seq<u32>>,
    vbs: Seq<VarBindV>,
)
    requires
        vbs.len() == 0,
    ensures
        mode_spec(scan_value(bwc, vbs), scan_value(colorc, vbs), scan_value(totalc, vbs))
            == CounterMode::Missing,
        warnings_spec(bwc, colorc, totalc, vbs) =~= seq![
            WarningV::Missing { kind: CounterKind::Bw },
            WarningV::Missing { kind: CounterKind::Color },
            WarningV::Missing { kind: CounterKind::Total },
        ],
{
    lemma_scan_empty(bwc, vbs);
    lemma_scan_empty(colorc, vbs);
    lemma_scan_empty(totalc, vbs);
    assert(nonnum_warnings(CounterKind::Bw, bwc, vbs) =~= Seq::<WarningV>::empty());
    assert(nonnum_warnings(CounterKind::Color, colorc, vbs) =~= Seq::<WarningV>::empty());
    assert(nonnum_warnings(CounterKind::Total, totalc, vbs) =~= Seq::<WarningV>::empty());
}

} // verus!
