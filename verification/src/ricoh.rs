//! Device profiling: classifies the Ricoh vendor family from identifier and
//! description text, extracts the model, and infers counter-category
//! capability from ordered model-prefix tables.
use vstd::prelude::*;
use vstd::string::*;

use crate::model::PrinterRecord;
use crate::text::{ci_match_at, contains_ci, contains_ci_str, find_ci, has_prefix, has_prefix_ci,
    starts_with, trim, trim_spec};

verus! {

/// Tri-state vendor match: not this vendor, vendor but unmapped model, or a
/// known model.
#[derive(Debug, Clone, Copy, PartialEq, Eq, Structural)]
pub enum RicohMatch {
    NotRicoh,
    Unmapped,
    Known,
}

/// How counters should be read from the device.
#[derive(Debug, Clone, Copy, PartialEq, Eq, Structural)]
pub enum CounterStrategy {
    BwColorPreferred,
    BwOnly,
    TotalOnly,
    Unknown,
}

/// Which counter categories the profiled model exposes.
#[derive(Debug, Clone, Copy, PartialEq, Eq, Structural)]
pub struct CounterAvailability {
    pub bw: bool,
    pub color: bool,
    pub total: bool,
}

impl CounterAvailability {
    /// No category available.
    pub fn none() -> (r: Self)
        ensures
            !r.bw && !r.color && !r.total,
    {
        CounterAvailability { bw: false, color: false, total: false }
    }
}

/// Trimmed text, or nothing when only whitespace remains.
pub open spec fn norm_text(o: Option<Seq<char>>) -> Option<Seq<char>> {
    match o {
        Some(s) => if trim_spec(s).len() > 0 {
            Some(trim_spec(s))
        } else {
            None
        },
        None => None,
    }
}

/// The vendor's reserved numeric-path prefix.
pub open spec fn is_ricoh_oid_spec(s: Seq<char>) -> bool {
    starts_with(s, "1.3.6.1.4.1.367"@)
}

/// The description names the vendor, up to ASCII case.
pub open spec fn descr_has_ricoh(s: Seq<char>) -> bool {
    contains_ci(s, "ricoh"@)
}

/// The vendor keyword matches at `k` and nowhere earlier.
pub open spec fn ricoh_first_at(s: Seq<char>, k: int) -> bool {
    ci_match_at(s, "ricoh"@, k) && forall|k2: int| 0 <= k2 < k ==> !ci_match_at(s, "ricoh"@, k2)
}

/// The offset of the first vendor keyword match.
pub open spec fn ricoh_index(s: Seq<char>) -> int {
    choose|k: int| ricoh_first_at(s, k)
}

/// The model substring: the trimmed text immediately following the first
/// vendor keyword occurrence, or nothing when absent or empty.
pub open spec fn extract_model_spec(s: Seq<char>) -> Option<Seq<char>> {
    if contains_ci(s, "ricoh"@) {
        let m = trim_spec(s.skip(ricoh_index(s) + 5));
        if m.len() > 0 {
            Some(m)
        } else {
            None
        }
    } else {
        None
    }
}

/// Ordered prefix tables: color-capable prefixes first, then
/// monochrome-only prefixes; no match means the model is unmapped.
pub open spec fn color_capable_spec(m: Seq<char>) -> Option<bool> {
    let t = trim_spec(m);
    if ci_match_at(t, "im c"@, 0) || ci_match_at(t, "mp c"@, 0) || ci_match_at(t, "sp c"@, 0)
        || ci_match_at(t, "mpcw"@, 0) || ci_match_at(t, "imc"@, 0) || ci_match_at(t, "mpc"@, 0)
        || ci_match_at(t, "spc"@, 0) {
        Some(true)
    } else if ci_match_at(t, "im "@, 0) || ci_match_at(t, "mp "@, 0) || ci_match_at(t, "sp "@, 0) {
        Some(false)
    } else {
        None
    }
}

/// The view of an optional text field.
pub open spec fn opt_text_view(o: Option<String>) -> Option<Seq<char>> {
    match o {
        Some(s) => Some(s@),
        None => None,
    }
}

/// The views of the diagnostic notes.
pub open spec fn notes_view(notes: Seq<String>) -> Seq<Seq<char>> {
    notes.map_values(|n: String| n@)
}

/// The complete outcome of profiling the given identifier and description.
pub open spec fn profile_ok(
    oid_in: Option<Seq<char>>,
    descr_in: Option<Seq<char>>,
    r: RicohProfile,
) -> bool {
    let o = norm_text(oid_in);
    let d = norm_text(descr_in);
    let by_oid = match o {
        Some(s) => is_ricoh_oid_spec(s),
        None => false,
    };
    let by_descr = match d {
        Some(s) => descr_has_ricoh(s),
        None => false,
    };
    let is_ricoh = by_oid || by_descr;
    let model = if is_ricoh {
        match d {
            Some(s) => extract_model_spec(s),
            None => None,
        }
    } else {
        None
    };
    let id_note: Seq<Seq<char>> = if by_oid && !by_descr {
        seq!["Ricoh identified via sysObjectID."@]
    } else if by_descr && !by_oid {
        seq!["Ricoh identified via sysDescr."@]
    } else {
        Seq::<Seq<char>>::empty()
    };
    &&& opt_text_view(r.sys_object_id) == o
    &&& opt_text_view(r.sys_descr) == d
    &&& opt_text_view(r.model) == model
    &&& (if !is_ricoh {
        &&& r.match_status == RicohMatch::NotRicoh
        &&& !r.counters.bw && !r.counters.color && !r.counters.total
        &&& r.strategy == CounterStrategy::Unknown
        &&& notes_view(r.notes@) =~= id_note
    } else {
        match model {
            Some(m) => {
                match color_capable_spec(m) {
                    Some(true) => {
                        &&& r.match_status == RicohMatch::Known
                        &&& r.counters.bw && r.counters.color && r.counters.total
                        &&& r.strategy == CounterStrategy::BwColorPreferred
                        &&& notes_view(r.notes@) =~= id_note
                    },
                    Some(false) => {
                        &&& r.match_status == RicohMatch::Known
                        &&& r.counters.bw && !r.counters.color && r.counters.total
                        &&& r.strategy == CounterStrategy::BwOnly
                        &&& notes_view(r.notes@) =~= id_note
                    },
                    None => {
                        &&& r.match_status == RicohMatch::Unmapped
                        &&& !r.counters.bw && !r.counters.color && !r.counters.total
                        &&& r.strategy == CounterStrategy::Unknown
                        &&& notes_view(r.notes@) =~= id_note + seq![
                            "Unmapped Ricoh model; counter availability unknown."@,
                        ]
                    },
                }
            },
            None => {
                &&& r.match_status == RicohMatch::Unmapped
                &&& !r.counters.bw && !r.counters.color && !r.counters.total
                &&& r.strategy == CounterStrategy::Unknown
                &&& notes_view(r.notes@) =~= id_note + seq!["Ricoh model string not found."@]
            },
        }
    })
}

/// What profiling a device yielded: the match status, the extracted model,
/// the normalized inputs, counter availability, the reading strategy, and
/// diagnostic notes.
#[derive(Debug, Clone)]
pub struct RicohProfile {
    pub match_status: RicohMatch,
    pub model: Option<String>,
    pub sys_object_id: Option<String>,
    pub sys_descr: Option<String>,
    pub counters: CounterAvailability,
    pub strategy: CounterStrategy,
    pub notes: Vec<String>,
}

/// The vendor identifier starts with the vendor's reserved prefix.
pub fn is_ricoh_sys_object_id(sys_object_id: &str) -> (r: bool)
    ensures
        r == is_ricoh_oid_spec(sys_object_id@),
{
    has_prefix(sys_object_id, "1.3.6.1.4.1.367")
}

/// The text names the vendor, up to ASCII case.
pub fn contains_ricoh(value: &str) -> (r: bool)
    ensures
        r == descr_has_ricoh(value@),
{
    contains_ci_str(value, "ricoh")
}

proof fn lemma_ricoh_first_unique(s: Seq<char>, k1: int, k2: int)
    requires
        ricoh_first_at(s, k1),
        ricoh_first_at(s, k2),
    ensures
        k1 == k2,
{
    if k1 < k2 {
        assert(!ci_match_at(s, "ricoh"@, k1));
    } else if k2 < k1 {
        assert(!ci_match_at(s, "ricoh"@, k2));
    }
}

/// Extracts the model text that follows the first vendor keyword.
pub fn extract_model_from_descr(sys_descr: &str) -> (r: Option<String>)
    ensures
        match r {
            Some(m) => extract_model_spec(sys_descr@) == Some(m@),
            None => extract_model_spec(sys_descr@).is_none(),
        },
{
    let key = "ricoh";
    proof {
        reveal_strlit("ricoh");
    }
    match find_ci(sys_descr, key) {
        Some(k) => {
            proof {
                assert(ricoh_first_at(sys_descr@, k as int));
                assert(contains_ci(sys_descr@, "ricoh"@));
                assert(ricoh_first_at(sys_descr@, ricoh_index(sys_descr@)));
                lemma_ricoh_first_unique(sys_descr@, k as int, ricoh_index(sys_descr@));
            }
            let len = sys_descr.unicode_len();
            let after = sys_descr.substring_char(k + 5, len);
            let trimmed = trim(after);
            proof {
                assert(after@ =~= sys_descr@.skip(k + 5));
            }
            if trimmed.unicode_len() == 0 {
                None
            } else {
                Some(trimmed.to_owned())
            }
        },
        None => {
            proof {
                assert(!contains_ci(sys_descr@, "ricoh"@));
            }
            None
        },
    }
}

/// Looks the model up in the ordered prefix tables; `Some(true)` means
/// color-capable, `Some(false)` monochrome-only, `None` unmapped.
pub fn infer_color_capable(model: &str) -> (r: Option<bool>)
    ensures
        r == color_capable_spec(model@),
{
    let t = trim(model);
    if has_prefix_ci(t, "im c") || has_prefix_ci(t, "mp c") || has_prefix_ci(t, "sp c")
        || has_prefix_ci(t, "mpcw") || has_prefix_ci(t, "imc") || has_prefix_ci(t, "mpc")
        || has_prefix_ci(t, "spc") {
        Some(true)
    } else if has_prefix_ci(t, "im ") || has_prefix_ci(t, "mp ") || has_prefix_ci(t, "sp ") {
        Some(false)
    } else {
        None
    }
}

/// Normalizes an optional input: trimmed, and absent when empty.
fn norm_input(value: Option<&str>) -> (r: Option<String>)
    ensures
        opt_text_view(r) == norm_text(match value {
            Some(s) => Some(s@),
            None => None,
        }),
{
    match value {
        Some(s) => {
            let t = trim(s);
            if t.unicode_len() == 0 {
                None
            } else {
                Some(t.to_owned())
            }
        },
        None => None,
    }
}

impl RicohProfile {
    /// Profiles a device from its vendor identifier and description text.
    pub fn identify(sys_object_id: Option<&str>, sys_descr: Option<&str>) -> (r: RicohProfile)
        ensures
            profile_ok(
                match sys_object_id {
                    Some(s) => Some(s@),
                    None => None,
                },
                match sys_descr {
                    Some(s) => Some(s@),
                    None => None,
                },
                r,
            ),
    {
        proof {
            reveal_strlit("Ricoh identified via sysObjectID.");
            reveal_strlit("Ricoh identified via sysDescr.");
            reveal_strlit("Unmapped Ricoh model; counter availability unknown.");
            reveal_strlit("Ricoh model string not found.");
        }
        let sys_object_id = norm_input(sys_object_id);
        let sys_descr = norm_input(sys_descr);

        let ricoh_by_oid = match &sys_object_id {
            Some(value) => is_ricoh_sys_object_id(value.as_str()),
            None => false,
        };
        let ricoh_by_descr = match &sys_descr {
            Some(value) => contains_ricoh(value.as_str()),
            None => false,
        };
        let is_ricoh = ricoh_by_oid || ricoh_by_descr;

        let mut notes: Vec<String> = Vec::new();
        if ricoh_by_oid && !ricoh_by_descr {
            notes.push(String::from_str("Ricoh identified via sysObjectID."));
        }
        if ricoh_by_descr && !ricoh_by_oid {
            notes.push(String::from_str("Ricoh identified via sysDescr."));
        }
        let ghost id_note = notes_view(notes@);

        let model: Option<String> = if is_ricoh {
            match &sys_descr {
                Some(value) => extract_model_from_descr(value.as_str()),
                None => None,
            }
        } else {
            None
        };

        let match_status: RicohMatch;
        let counters: CounterAvailability;
        let strategy: CounterStrategy;
        if !is_ricoh {
            match_status = RicohMatch::NotRicoh;
            counters = CounterAvailability::none();
            strategy = CounterStrategy::Unknown;
        } else {
            match &model {
                Some(m) => {
                    match infer_color_capable(m.as_str()) {
                        Some(true) => {
                            match_status = RicohMatch::Known;
                            counters = CounterAvailability { bw: true, color: true, total: true };
                            strategy = CounterStrategy::BwColorPreferred;
                        },
                        Some(false) => {
                            match_status = RicohMatch::Known;
                            counters = CounterAvailability { bw: true, color: false, total: true };
                            strategy = CounterStrategy::BwOnly;
                        },
                        None => {
                            let ghost n0 = notes@;
                            notes.push(
                                String::from_str(
                                    "Unmapped Ricoh model; counter availability unknown.",
                                ),
                            );
                            proof {
                                assert(notes_view(notes@) =~= notes_view(n0).push(
                                    "Unmapped Ricoh model; counter availability unknown."@,
                                ));
                            }
                            match_status = RicohMatch::Unmapped;
                            counters = CounterAvailability::none();
                            strategy = CounterStrategy::Unknown;
                        },
                    }
                },
                None => {
                    let ghost n0 = notes@;
                    notes.push(String::from_str("Ricoh model string not found."));
                    proof {
                        assert(notes_view(notes@) =~= notes_view(n0).push(
                            "Ricoh model string not found."@,
                        ));
                    }
                    match_status = RicohMatch::Unmapped;
                    counters = CounterAvailability::none();
                    strategy = CounterStrategy::Unknown;
                },
            }
        }

        let r = RicohProfile {
            match_status,
            model,
            sys_object_id,
            sys_descr,
            counters,
            strategy,
            notes,
        };
        proof {
            assert(id_note.push("Unmapped Ricoh model; counter availability unknown."@) =~= id_note
                + seq!["Unmapped Ricoh model; counter availability unknown."@]);
            assert(id_note.push("Ricoh model string not found."@) =~= id_note + seq![
                "Ricoh model string not found."@,
            ]);
        }
        r
    }

    /// Profiles a known printer record: the stored vendor identifier and the
    /// stored model text serve as inputs.
    pub fn from_printer(record: &PrinterRecord) -> (r: RicohProfile)
        ensures
            profile_ok(
                match record.sys_object_id {
                    Some(s) => Some(s@),
                    None => None,
                },
                match record.model {
                    Some(s) => Some(s@),
                    None => None,
                },
                r,
            ),
    {
        let sys_object_id = match &record.sys_object_id {
            Some(s) => Some(s.as_str()),
            None => None,
        };
        let sys_descr = match &record.model {
            Some(s) => Some(s.as_str()),
            None => None,
        };
        RicohProfile::identify(sys_object_id, sys_descr)
    }
}

} // verus!
