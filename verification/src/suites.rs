//! Rewriting the data quality suites of a document into the domain model.
//!
//! A check is read by its `type`: `schema`, `completeness`, `uniqueness`, `validity`,
//! `statistical`, `volume`, `freshness`, `referential`, `cross-column` or `custom`. Another type
//! is `E-QUALITY-002`; a check without a field its type needs is `E-REQ-001`; a severity that
//! is not `error`, `warn` or `info` is `E-ENUM-001`. A check without a threshold has the
//! threshold 1.0.
use vstd::prelude::*;
use std::collections::BTreeMap;
use crate::error::{TeckelError, TeckelErrorCode, is_spec_error};
use crate::quality::{
    Check, CompletenessCheck, CrossColumnCheck, CustomCheck, EscalateRule, FreshnessCheck,
    QualitySuite, RangeSpec, ReferentialCheck, SchemaCheck, Severity, StatisticalCheck,
    UniquenessCheck, ValidityCheck, VolumeCheck,
};
use crate::quality_yaml::{EscalateDef, QualityCheckColumns, QualityCheckDef, QualitySuiteDef, RangeSpecDef};
use crate::rewrite::{is_word, some_or_empty};
use crate::sections::{opt_seq, vec_or_empty};
use crate::text::push_str;
use crate::types::FloatBits;

verus! {

/// The severity a word names.
pub open spec fn severity_of(s: Seq<char>) -> Option<Severity> {
    if s == "error"@ {
        Some(Severity::Error)
    } else if s == "warn"@ {
        Some(Severity::Warn)
    } else if s == "info"@ {
        Some(Severity::Info)
    } else {
        None
    }
}

/// The words `error`, `warn`, `info` each name their own variant, in that order: `Severity::Error`, `Severity::Warn`, `Severity::Info`; any other word names none.
pub proof fn lemma_severity_words()
    ensures
        severity_of("error"@) is Some && severity_of("error"@)->Some_0 == Severity::Error,
        severity_of("warn"@) is Some && severity_of("warn"@)->Some_0 == Severity::Warn,
        severity_of("info"@) is Some && severity_of("info"@)->Some_0 == Severity::Info,
        forall|w: Seq<char>| #[trigger] severity_of(w) is Some ==> (w == "error"@ || w == "warn"@ || w == "info"@),
{
    reveal_strlit("error");
    reveal_strlit("warn");
    reveal_strlit("info");
    assert("warn"@.len() != "error"@.len());
    assert("info"@.len() != "error"@.len());
    assert("info"@[0] != "warn"@[0]);
}

pub open spec fn severity_message(s: Seq<char>) -> Seq<char> {
    "invalid severity \""@ + s + "\", expected: error|warn|info"@
}

pub open spec fn required_message(check_type: Seq<char>, field: Seq<char>) -> Seq<char> {
    "quality check \""@ + check_type + "\" requires \""@ + field + "\""@
}

pub open spec fn unknown_check_message(check_type: Seq<char>) -> Seq<char> {
    "unknown quality check type \""@ + check_type + "\""@
}

/// The threshold 1.0, as its bit pattern.
pub open spec fn full_threshold() -> FloatBits {
    FloatBits { bits: 0x3FF0_0000_0000_0000 }
}

/// The written threshold, or 1.0.
pub open spec fn threshold_of(o: Option<FloatBits>) -> FloatBits {
    match o {
        Some(t) => t,
        None => full_threshold(),
    }
}

/// The entries of an optional map: the map, or none.
pub open spec fn opt_map<K, V>(o: Option<BTreeMap<K, V>>) -> Map<K, V> {
    match o {
        Some(m) => m@,
        None => Map::empty(),
    }
}

/// The columns a schema check requires.
pub open spec fn schema_required(o: Option<QualityCheckColumns>) -> Seq<String> {
    match o {
        Some(QualityCheckColumns::List(v)) => v@,
        Some(QualityCheckColumns::SchemaColumns { required, .. }) => opt_seq(required),
        None => Seq::empty(),
    }
}

/// The columns a schema check forbids.
pub open spec fn schema_forbidden(o: Option<QualityCheckColumns>) -> Seq<String> {
    match o {
        Some(QualityCheckColumns::SchemaColumns { forbidden, .. }) => opt_seq(forbidden),
        _ => Seq::empty(),
    }
}

/// The columns of a uniqueness check: its list of columns, else its one column.
pub open spec fn uniqueness_columns(d: QualityCheckDef) -> Option<Seq<String>> {
    match d.columns {
        Some(QualityCheckColumns::List(v)) => Some(v@),
        _ => match d.column {
            Some(c) => Some(seq![c]),
            None => None,
        },
    }
}

pub open spec fn opt_severity(o: Option<String>) -> Option<Severity> {
    match o {
        Some(s) => severity_of(s@),
        None => None,
    }
}

pub open spec fn escalate_of(o: Option<EscalateDef>) -> Option<EscalateRule> {
    match o {
        Some(e) => match severity_of(e.severity@) {
            Some(s) => Some(EscalateRule { threshold: e.threshold, severity: s }),
            None => None,
        },
        None => None,
    }
}

pub open spec fn range_of(o: Option<RangeSpecDef>) -> Option<RangeSpec> {
    match o {
        Some(r) => Some(RangeSpec { min: r.min, max: r.max, strict_min: r.strict_min, strict_max: r.strict_max }),
        None => None,
    }
}

/// The severity error of a completeness check: its own severity, then its escalation's.
pub open spec fn completeness_severity_error(d: QualityCheckDef) -> Option<Seq<char>> {
    match d.severity {
        Some(s) if severity_of(s@) is None => Some(severity_message(s@)),
        _ => match d.escalate {
            Some(e) if severity_of(e.severity@) is None => Some(severity_message(e.severity@)),
            _ => None,
        },
    }
}

/// The error of a written check, if it has one.
pub open spec fn check_error(d: QualityCheckDef) -> Option<(TeckelErrorCode, Seq<char>)> {
    let t = d.check_type@;
    if t == "schema"@ {
        None
    } else if t == "completeness"@ {
        if d.column is None {
            Some((TeckelErrorCode::EReq001, required_message(t, "column"@)))
        } else {
            match completeness_severity_error(d) {
                Some(m) => Some((TeckelErrorCode::EEnum001, m)),
                None => None,
            }
        }
    } else if t == "uniqueness"@ {
        if uniqueness_columns(d) is None {
            Some((TeckelErrorCode::EReq001, required_message(t, "columns"@)))
        } else {
            None
        }
    } else if t == "validity"@ {
        if d.column is None {
            Some((TeckelErrorCode::EReq001, required_message(t, "column"@)))
        } else {
            None
        }
    } else if t == "statistical"@ {
        if d.column is None {
            Some((TeckelErrorCode::EReq001, required_message(t, "column"@)))
        } else {
            None
        }
    } else if t == "volume"@ {
        None
    } else if t == "freshness"@ {
        if d.column is None {
            Some((TeckelErrorCode::EReq001, required_message(t, "column"@)))
        } else if d.max_age is None {
            Some((TeckelErrorCode::EReq001, required_message(t, "maxAge"@)))
        } else {
            None
        }
    } else if t == "referential"@ {
        if d.column is None {
            Some((TeckelErrorCode::EReq001, required_message(t, "column"@)))
        } else if d.reference is None {
            Some((TeckelErrorCode::EReq001, required_message(t, "reference"@)))
        } else {
            None
        }
    } else if t == "cross-column"@ {
        if d.condition is None {
            Some((TeckelErrorCode::EReq001, required_message(t, "condition"@)))
        } else {
            None
        }
    } else if t == "custom"@ {
        if d.condition is None {
            Some((TeckelErrorCode::EReq001, required_message(t, "condition"@)))
        } else {
            None
        }
    } else {
        Some((TeckelErrorCode::EQuality002, unknown_check_message(t)))
    }
}

/// Check `c` is what `d` writes (for a check without error).
pub open spec fn check_ok(c: Check, d: QualityCheckDef) -> bool {
    let t = d.check_type@;
    if t == "schema"@ {
        c matches Check::Schema(x)
            && x.required_columns@ == schema_required(d.columns)
            && x.forbidden_columns@ == schema_forbidden(d.columns)
            && x.types@ == opt_map(d.types)
    } else if t == "completeness"@ {
        c matches Check::Completeness(x)
            && d.column == Some(x.column)
            && x.threshold == threshold_of(d.threshold)
            && x.severity == opt_severity(d.severity)
            && x.escalate == escalate_of(d.escalate)
    } else if t == "uniqueness"@ {
        c matches Check::Uniqueness(x)
            && uniqueness_columns(d) == Some(x.columns@)
            && x.threshold == threshold_of(d.threshold)
    } else if t == "validity"@ {
        c == Check::Validity(ValidityCheck {
            column: d.column->0,
            accepted_values: d.accepted_values,
            range: range_of(d.range),
            pattern: d.pattern,
            format: d.format,
            length_between: d.length_between,
            threshold: threshold_of(d.threshold),
        })
    } else if t == "statistical"@ {
        c matches Check::Statistical(x)
            && d.column == Some(x.column)
            && x.mean == d.mean && x.min == d.min && x.max == d.max && x.sum == d.sum && x.stdev == d.stdev
            && x.quantiles@ == opt_map(d.quantiles)
    } else if t == "volume"@ {
        c == Check::Volume(VolumeCheck { row_count: d.row_count, column_count: d.column_count })
    } else if t == "freshness"@ {
        c == Check::Freshness(FreshnessCheck { column: d.column->0, max_age: d.max_age->0 })
    } else if t == "referential"@ {
        c == Check::Referential(ReferentialCheck {
            column: d.column->0,
            reference_asset: d.reference->0.asset,
            reference_column: d.reference->0.column,
            threshold: threshold_of(d.threshold),
        })
    } else if t == "cross-column"@ {
        c == Check::CrossColumn(CrossColumnCheck {
            condition: d.condition->0,
            description: d.description,
            threshold: threshold_of(d.threshold),
        })
    } else if t == "custom"@ {
        c == Check::Custom(CustomCheck {
            condition: d.condition->0,
            description: d.description,
            threshold: threshold_of(d.threshold),
        })
    } else {
        false
    }
}

fn parse_severity(s: &str) -> (r: Result<Severity, TeckelError>)
    ensures
        match severity_of(s@) {
            Some(v) => r == Ok::<Severity, TeckelError>(v),
            None => r matches Err(e) && is_spec_error(e, TeckelErrorCode::EEnum001, severity_message(s@)),
        },
{
    if is_word(s, "error") {
        Ok(Severity::Error)
    } else if is_word(s, "warn") {
        Ok(Severity::Warn)
    } else if is_word(s, "info") {
        Ok(Severity::Info)
    } else {
        let mut m = String::new();
        push_str(&mut m, "invalid severity \"");
        push_str(&mut m, s);
        push_str(&mut m, "\", expected: error|warn|info");
        Err(TeckelError::spec(TeckelErrorCode::EEnum001, m))
    }
}

fn required_error(check_type: &str, field: &str) -> (e: TeckelError)
    ensures
        is_spec_error(e, TeckelErrorCode::EReq001, required_message(check_type@, field@)),
{
    let mut m = String::new();
    push_str(&mut m, "quality check \"");
    push_str(&mut m, check_type);
    push_str(&mut m, "\" requires \"");
    push_str(&mut m, field);
    push_str(&mut m, "\"");
    TeckelError::spec(TeckelErrorCode::EReq001, m)
}

fn threshold_or_full(o: Option<FloatBits>) -> (r: FloatBits)
    ensures
        r == threshold_of(o),
{
    match o {
        Some(t) => t,
        None => FloatBits { bits: 0x3FF0_0000_0000_0000 },
    }
}

fn map_or_empty<V>(o: Option<BTreeMap<String, V>>) -> (r: BTreeMap<String, V>)
    ensures
        r@ == opt_map(o),
{
    match o {
        Some(m) => m,
        None => BTreeMap::new(),
    }
}

/// The check written in `d`, or its error (see `check_error`).
#[verifier::spinoff_prover]
#[verifier::rlimit(30)]
pub fn rewrite_check(d: QualityCheckDef) -> (r: Result<Check, TeckelError>)
    ensures
        match check_error(d) {
            Some((code, msg)) => r matches Err(e) && is_spec_error(e, code, msg),
            None => r matches Ok(c) && check_ok(c, d),
        },
{
    let ghost g = d;
    let t = d.check_type.as_str();
    if is_word(t, "schema") {
        let (required, forbidden) = match d.columns {
            Some(QualityCheckColumns::List(v)) => (v, Vec::new()),
            Some(QualityCheckColumns::SchemaColumns { required, forbidden }) => (some_or_empty(required), some_or_empty(forbidden)),
            None => (Vec::new(), Vec::new()),
        };
        Ok(Check::Schema(SchemaCheck {
            required_columns: required,
            forbidden_columns: forbidden,
            types: map_or_empty(d.types),
        }))
    } else if is_word(t, "completeness") {
        let column = match d.column {
            Some(c) => c,
            None => return Err(required_error(t, "column")),
        };
        let severity = match &d.severity {
            Some(s) => match parse_severity(s.as_str()) {
                Ok(v) => Some(v),
                Err(e) => return Err(e),
            },
            None => None,
        };
        let escalate = match d.escalate {
            Some(x) => match parse_severity(x.severity.as_str()) {
                Ok(v) => Some(EscalateRule { threshold: x.threshold, severity: v }),
                Err(e) => return Err(e),
            },
            None => None,
        };
        Ok(Check::Completeness(CompletenessCheck {
            column,
            threshold: threshold_or_full(d.threshold),
            severity,
            escalate,
        }))
    } else if is_word(t, "uniqueness") {
        let columns = match d.columns {
            Some(QualityCheckColumns::List(v)) => v,
            _ => match d.column {
                Some(c) => {
                    let mut v: Vec<String> = Vec::new();
                    v.push(c);
                    v
                },
                None => return Err(required_error(t, "columns")),
            },
        };
        Ok(Check::Uniqueness(UniquenessCheck { columns, threshold: threshold_or_full(d.threshold) }))
    } else if is_word(t, "validity") {
        let column = match d.column {
            Some(c) => c,
            None => return Err(required_error(t, "column")),
        };
        let range = match d.range {
            Some(x) => Some(RangeSpec { min: x.min, max: x.max, strict_min: x.strict_min, strict_max: x.strict_max }),
            None => None,
        };
        Ok(Check::Validity(ValidityCheck {
            column,
            accepted_values: d.accepted_values,
            range,
            pattern: d.pattern,
            format: d.format,
            length_between: d.length_between,
            threshold: threshold_or_full(d.threshold),
        }))
    } else if is_word(t, "statistical") {
        let column = match d.column {
            Some(c) => c,
            None => return Err(required_error(t, "column")),
        };
        Ok(Check::Statistical(StatisticalCheck {
            column,
            mean: d.mean,
            min: d.min,
            max: d.max,
            sum: d.sum,
            stdev: d.stdev,
            quantiles: map_or_empty(d.quantiles),
        }))
    } else if is_word(t, "volume") {
        Ok(Check::Volume(VolumeCheck { row_count: d.row_count, column_count: d.column_count }))
    } else if is_word(t, "freshness") {
        let column = match d.column {
            Some(c) => c,
            None => return Err(required_error(t, "column")),
        };
        let max_age = match d.max_age {
            Some(a) => a,
            None => return Err(required_error(t, "maxAge")),
        };
        Ok(Check::Freshness(FreshnessCheck { column, max_age }))
    } else if is_word(t, "referential") {
        let column = match d.column {
            Some(c) => c,
            None => return Err(required_error(t, "column")),
        };
        let reference = match d.reference {
            Some(x) => x,
            None => return Err(required_error(t, "reference")),
        };
        Ok(Check::Referential(ReferentialCheck {
            column,
            reference_asset: reference.asset,
            reference_column: reference.column,
            threshold: threshold_or_full(d.threshold),
        }))
    } else if is_word(t, "cross-column") {
        let condition = match d.condition {
            Some(c) => c,
            None => return Err(required_error(t, "condition")),
        };
        Ok(Check::CrossColumn(CrossColumnCheck {
            condition,
            description: d.description,
            threshold: threshold_or_full(d.threshold),
        }))
    } else if is_word(t, "custom") {
        let condition = match d.condition {
            Some(c) => c,
            None => return Err(required_error(t, "condition")),
        };
        Ok(Check::Custom(CustomCheck {
            condition,
            description: d.description,
            threshold: threshold_or_full(d.threshold),
        }))
    } else {
        let mut m = String::new();
        push_str(&mut m, "unknown quality check type \"");
        push_str(&mut m, t);
        push_str(&mut m, "\"");
        Err(TeckelError::spec(TeckelErrorCode::EQuality002, m))
    }
}

/// The first error among the written checks `ds`.
pub open spec fn first_check_error(ds: Seq<QualityCheckDef>) -> Option<(TeckelErrorCode, Seq<char>)>
    decreases ds.len(),
{
    if ds.len() == 0 {
        None
    } else if check_error(ds[0]) is Some {
        check_error(ds[0])
    } else {
        first_check_error(ds.drop_first())
    }
}

/// The error of a written suite: its severity, then its checks in order.
pub open spec fn suite_error(d: QualitySuiteDef) -> Option<(TeckelErrorCode, Seq<char>)> {
    if severity_of(d.severity@) is None {
        Some((TeckelErrorCode::EEnum001, severity_message(d.severity@)))
    } else {
        first_check_error(d.checks@)
    }
}

/// The first error among the written suites `ds`.
pub open spec fn first_suite_error(ds: Seq<QualitySuiteDef>) -> Option<(TeckelErrorCode, Seq<char>)>
    decreases ds.len(),
{
    if ds.len() == 0 {
        None
    } else if suite_error(ds[0]) is Some {
        suite_error(ds[0])
    } else {
        first_suite_error(ds.drop_first())
    }
}

/// Suite `s` is what `d` writes, check by check.
pub open spec fn suite_ok(s: QualitySuite, d: QualitySuiteDef) -> bool {
    &&& s.suite == d.suite
    &&& s.description == d.description
    &&& s.target == d.target
    &&& s.filter == d.filter
    &&& severity_of(d.severity@) == Some(s.severity)
    &&& s.checks@.len() == d.checks@.len()
    &&& forall|i: int| 0 <= i < d.checks@.len() ==> check_ok(#[trigger] s.checks@[i], d.checks@[i])
}

fn rewrite_checks(v: Vec<QualityCheckDef>) -> (r: Result<Vec<Check>, TeckelError>)
    ensures
        match first_check_error(v@) {
            Some((code, msg)) => r matches Err(e) && is_spec_error(e, code, msg),
            None => r matches Ok(t) && t@.len() == v@.len()
                && forall|i: int| 0 <= i < v@.len() ==> check_ok(#[trigger] t@[i], v@[i]),
        },
{
    let ghost orig = v@;
    assert(v@.len() == v.len());
    let mut rest = v;
    let mut out: Vec<Check> = Vec::new();
    let mut i: usize = 0;
    while rest.len() > 0
        invariant
            i + rest@.len() == orig.len(),
            orig.len() <= usize::MAX,
            orig == v@,
            rest@ == orig.subrange(i as int, orig.len() as int),
            first_check_error(orig) == first_check_error(rest@),
            out@.len() == i,
            forall|j: int| 0 <= j < i ==> check_ok(#[trigger] out@[j], orig[j]),
        decreases rest@.len(),
    {
        let ghost cur = rest@;
        let d = rest.remove(0);
        assert(d == orig[i as int]);
        assert(cur[0] == d);
        assert(rest@ =~= orig.subrange(i + 1, orig.len() as int));
        assert(rest@ =~= cur.drop_first());
        let c = match rewrite_check(d) {
            Ok(c) => c,
            Err(e) => {
                assert(first_check_error(cur) == check_error(d));
                return Err(e);
            },
        };
        let ghost before = out@;
        out.push(c);
        assert(forall|j: int| 0 <= j < i ==> out@[j] == before[j]);
        i = i + 1;
    }
    Ok(out)
}

/// The suite written in `d`, or its error (see `suite_error`).
pub fn rewrite_suite(d: QualitySuiteDef) -> (r: Result<QualitySuite, TeckelError>)
    ensures
        match suite_error(d) {
            Some((code, msg)) => r matches Err(e) && is_spec_error(e, code, msg),
            None => r matches Ok(s) && suite_ok(s, d),
        },
{
    let severity = match parse_severity(d.severity.as_str()) {
        Ok(v) => v,
        Err(e) => return Err(e),
    };
    let checks = match rewrite_checks(d.checks) {
        Ok(c) => c,
        Err(e) => return Err(e),
    };
    Ok(QualitySuite {
        suite: d.suite,
        description: d.description,
        target: d.target,
        filter: d.filter,
        severity,
        checks,
    })
}

/// The quality suites written in `o`, or the first error among them.
pub fn rewrite_quality(o: Option<Vec<QualitySuiteDef>>) -> (r: Result<Vec<QualitySuite>, TeckelError>)
    ensures
        match first_suite_error(opt_seq(o)) {
            Some((code, msg)) => r matches Err(e) && is_spec_error(e, code, msg),
            None => r matches Ok(t) && t@.len() == opt_seq(o).len()
                && forall|i: int| 0 <= i < t@.len() ==> suite_ok(#[trigger] t@[i], opt_seq(o)[i]),
        },
{
    let v = vec_or_empty(o);
    let ghost orig = v@;
    assert(v@.len() == v.len());
    let mut rest = v;
    let mut out: Vec<QualitySuite> = Vec::new();
    let mut i: usize = 0;
    while rest.len() > 0
        invariant
            i + rest@.len() == orig.len(),
            orig.len() <= usize::MAX,
            orig == opt_seq(o),
            rest@ == orig.subrange(i as int, orig.len() as int),
            first_suite_error(orig) == first_suite_error(rest@),
            out@.len() == i,
            forall|j: int| 0 <= j < i ==> suite_ok(#[trigger] out@[j], orig[j]),
        decreases rest@.len(),
    {
        let ghost cur = rest@;
        let d = rest.remove(0);
        assert(d == orig[i as int]);
        assert(cur[0] == d);
        assert(rest@ =~= orig.subrange(i + 1, orig.len() as int));
        assert(rest@ =~= cur.drop_first());
        let s = match rewrite_suite(d) {
            Ok(s) => s,
            Err(e) => {
                assert(first_suite_error(cur) == suite_error(d));
                return Err(e);
            },
        };
        let ghost before = out@;
        out.push(s);
        assert(forall|j: int| 0 <= j < i ==> out@[j] == before[j]);
        i = i + 1;
    }
    Ok(out)
}

} // verus!
