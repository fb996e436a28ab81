//! Rewriting a pipeline document into the asset context of the domain model.
use vstd::prelude::*;
use std::collections::BTreeMap;
use crate::asset::{Asset, AssetMetadata, ColumnMetadata, Context, Owner, has_key, lookup};
use crate::document::{
    SelectOp, WhereOp, GroupOp, OrderByOp, JoinOp, JoinTargetDef, UnionOp, IntersectOp, ExceptOp, DistinctOp, LimitOp, ColumnDefOp, AddColumnsOp, DropColumnsOp, RenameColumnsOp, CastDefOp, CastColumnsOp, WindowFuncDefOp, FrameSpecOp, WindowOp, PivotOp, UnpivotOp, FlattenOp, SampleOp, BranchDef, ConditionalOp, SplitOp, SqlOp, RollupOp, CubeOp, Scd2Op, EnrichOp, SchemaColumnDef, SchemaEnforceOp, QualityCheckDef, AssertionOp, RepartitionOp, CoalesceOp, CustomOp, OffsetOp, TailOp, FillNaOp, DropNaOp, ReplacementDef, ReplaceOp, MergeActionDef, MergeOp, ParseOp, AsOfJoinOp, LateralJoinOp, TransposeOp, GroupingSetsOp, DescribeOp, CrosstabOp, HintSpecDef, HintOp, OwnerDef, ColumnMetadataDef, InputDef, OutputDef, RawTransformation, Document, SortColumnDef, TransformationOp,
};
use crate::error::{TeckelError, TeckelErrorCode, is_spec_error};
use crate::source::{
    copy_names,     Source, InputSource, OutputSource, SelectTransform, WhereTransform, GroupByTransform, OrderByTransform, JoinTransform, JoinTarget, UnionTransform, IntersectTransform, ExceptTransform, DistinctTransform, LimitTransform, ColumnDef, AddColumnsTransform, DropColumnsTransform, RenameColumnsTransform, CastDef, CastColumnsTransform, WindowFuncDef, FrameSpec, WindowTransform, PivotTransform, UnpivotTransform, FlattenTransform, SampleTransform, Branch, ConditionalTransform, SplitTransform, SqlTransform, RollupTransform, CubeTransform, Scd2Transform, EnrichTransform, SchemaColumn, SchemaEnforceTransform, QualityCheck, AssertionTransform, RepartitionTransform, CoalesceTransform, CustomTransform, OffsetTransform, TailTransform, FillNaTransform, DropNaTransform, Replacement, ReplaceTransform, MergeAction, MergeTransform, ParseTransform, AsOfJoinTransform, LateralJoinTransform, TransposeTransform, GroupingSetsTransform, DescribeTransform, CrosstabTransform, HintSpec, HintTransform, texts, source_deps,
};
use crate::text::{compare_text, push_str};
use crate::types::{AsOfDirection, AssetRef, DropNaHow, FrameType, JoinType, MergeActionType, NullOrdering, OnError, OnFailure, ParseFormat, SchemaEnforceMode, SortColumn, SortDirection, WriteMode};
use crate::yaml_value::YamlValue;
use crate::pipeline::Pipeline;
use crate::document::{ExposureDef, StreamingInputDef, TemplateDef};
use crate::sections::{
    config_ok, exposure_of, first_bad_output_mode, hooks_ok, metadata_ok, opt_seq, output_mode_message,
    rewrite_config, rewrite_exposures, rewrite_hooks, rewrite_metadata, rewrite_secrets,
    rewrite_streaming_inputs, rewrite_streaming_outputs, rewrite_templates, secrets_of,
    streaming_input_of, streaming_output_ok, template_of,
};
use crate::suites::{first_suite_error, rewrite_quality, suite_ok};

verus! {

// ── Enumerations written as words ────────────────────────────────

/// The join type a word names.
pub open spec fn join_type_of(s: Seq<char>) -> Option<JoinType> {
    if s == "inner"@ {
        Some(JoinType::Inner)
    } else if s == "left"@ {
        Some(JoinType::Left)
    } else if s == "right"@ {
        Some(JoinType::Right)
    } else if s == "outer"@ {
        Some(JoinType::Outer)
    } else if s == "cross"@ {
        Some(JoinType::Cross)
    } else if s == "left_semi"@ {
        Some(JoinType::LeftSemi)
    } else if s == "left_anti"@ {
        Some(JoinType::LeftAnti)
    } else {
        None
    }
}

pub open spec fn join_type_message(s: Seq<char>) -> Seq<char> {
    "invalid join type \""@ + s + "\", expected: inner|left|right|outer|cross|left_semi|left_anti"@
}

pub(crate) fn is_word(s: &str, w: &str) -> (r: bool)
    ensures
        r == (s@ == w@),
{
    compare_text(s, w) == 0
}

/// The join type named by `s`, or `E-ENUM-001`.
pub fn parse_join_type(s: &str) -> (r: Result<JoinType, TeckelError>)
    ensures
        match join_type_of(s@) {
            Some(t) => r == Ok::<JoinType, TeckelError>(t),
            None => r matches Err(e) && is_spec_error(e, TeckelErrorCode::EEnum001, join_type_message(s@)),
        },
{
    if is_word(s, "inner") {
        Ok(JoinType::Inner)
    } else if is_word(s, "left") {
        Ok(JoinType::Left)
    } else if is_word(s, "right") {
        Ok(JoinType::Right)
    } else if is_word(s, "outer") {
        Ok(JoinType::Outer)
    } else if is_word(s, "cross") {
        Ok(JoinType::Cross)
    } else if is_word(s, "left_semi") {
        Ok(JoinType::LeftSemi)
    } else if is_word(s, "left_anti") {
        Ok(JoinType::LeftAnti)
    } else {
        let mut m = String::new();
        push_str(&mut m, "invalid join type \"");
        push_str(&mut m, s);
        push_str(&mut m, "\", expected: inner|left|right|outer|cross|left_semi|left_anti");
        Err(TeckelError::spec(TeckelErrorCode::EEnum001, m))
    }
}

/// The write mode a word names.
pub open spec fn write_mode_of(s: Seq<char>) -> Option<WriteMode> {
    if s == "overwrite"@ {
        Some(WriteMode::Overwrite)
    } else if s == "append"@ {
        Some(WriteMode::Append)
    } else if s == "ignore"@ {
        Some(WriteMode::Ignore)
    } else if s == "error"@ {
        Some(WriteMode::Error)
    } else {
        None
    }
}

pub open spec fn write_mode_message(s: Seq<char>) -> Seq<char> {
    "unknown write mode \""@ + s + "\", expected: error|overwrite|append|ignore"@
}

fn parse_write_mode(s: &str) -> (r: Result<WriteMode, TeckelError>)
    ensures
        match write_mode_of(s@) {
            Some(m) => r == Ok::<WriteMode, TeckelError>(m),
            None => r matches Err(e) && is_spec_error(e, TeckelErrorCode::EMode001, write_mode_message(s@)),
        },
{
    if is_word(s, "overwrite") {
        Ok(WriteMode::Overwrite)
    } else if is_word(s, "append") {
        Ok(WriteMode::Append)
    } else if is_word(s, "ignore") {
        Ok(WriteMode::Ignore)
    } else if is_word(s, "error") {
        Ok(WriteMode::Error)
    } else {
        let mut m = String::new();
        push_str(&mut m, "unknown write mode \"");
        push_str(&mut m, s);
        push_str(&mut m, "\", expected: error|overwrite|append|ignore");
        Err(TeckelError::spec(TeckelErrorCode::EMode001, m))
    }
}

/// The drop-nulls mode a word names.
pub open spec fn drop_na_how_of(s: Seq<char>) -> Option<DropNaHow> {
    if s == "any"@ {
        Some(DropNaHow::Any)
    } else if s == "all"@ {
        Some(DropNaHow::All)
    } else {
        None
    }
}

pub open spec fn drop_na_how_message(s: Seq<char>) -> Seq<char> {
    "invalid dropna how \""@ + s + "\", expected: any|all"@
}

/// The merge action a word names.
pub open spec fn merge_action_of(s: Seq<char>) -> Option<MergeActionType> {
    if s == "update"@ {
        Some(MergeActionType::Update)
    } else if s == "insert"@ {
        Some(MergeActionType::Insert)
    } else if s == "delete"@ {
        Some(MergeActionType::Delete)
    } else {
        None
    }
}

pub open spec fn merge_action_message(s: Seq<char>) -> Seq<char> {
    "invalid merge action \""@ + s + "\", expected: update|insert|delete"@
}

/// The parse format a word names.
pub open spec fn parse_format_of(s: Seq<char>) -> Option<ParseFormat> {
    if s == "json"@ {
        Some(ParseFormat::Json)
    } else if s == "csv"@ {
        Some(ParseFormat::Csv)
    } else {
        None
    }
}

pub open spec fn parse_format_message(s: Seq<char>) -> Seq<char> {
    "invalid parse format \""@ + s + "\", expected: json|csv"@
}

/// The as-of direction a word names.
pub open spec fn as_of_direction_of(s: Seq<char>) -> Option<AsOfDirection> {
    if s == "backward"@ {
        Some(AsOfDirection::Backward)
    } else if s == "forward"@ {
        Some(AsOfDirection::Forward)
    } else if s == "nearest"@ {
        Some(AsOfDirection::Nearest)
    } else {
        None
    }
}

pub open spec fn as_of_direction_message(s: Seq<char>) -> Seq<char> {
    "invalid as-of direction \""@ + s + "\", expected: backward|forward|nearest"@
}

fn parse_merge_action(s: &str) -> (r: Result<MergeActionType, TeckelError>)
    ensures
        match merge_action_of(s@) {
            Some(a) => r == Ok::<MergeActionType, TeckelError>(a),
            None => r matches Err(e) && is_spec_error(e, TeckelErrorCode::EEnum001, merge_action_message(s@)),
        },
{
    if is_word(s, "update") {
        Ok(MergeActionType::Update)
    } else if is_word(s, "insert") {
        Ok(MergeActionType::Insert)
    } else if is_word(s, "delete") {
        Ok(MergeActionType::Delete)
    } else {
        let mut m = String::new();
        push_str(&mut m, "invalid merge action \"");
        push_str(&mut m, s);
        push_str(&mut m, "\", expected: update|insert|delete");
        Err(TeckelError::spec(TeckelErrorCode::EEnum001, m))
    }
}

fn parse_parse_format(s: &str) -> (r: Result<ParseFormat, TeckelError>)
    ensures
        match parse_format_of(s@) {
            Some(f) => r == Ok::<ParseFormat, TeckelError>(f),
            None => r matches Err(e) && is_spec_error(e, TeckelErrorCode::EEnum001, parse_format_message(s@)),
        },
{
    if is_word(s, "json") {
        Ok(ParseFormat::Json)
    } else if is_word(s, "csv") {
        Ok(ParseFormat::Csv)
    } else {
        let mut m = String::new();
        push_str(&mut m, "invalid parse format \"");
        push_str(&mut m, s);
        push_str(&mut m, "\", expected: json|csv");
        Err(TeckelError::spec(TeckelErrorCode::EEnum001, m))
    }
}

/// The drop-nulls mode written, `any` when none is.
pub open spec fn drop_na_how_or_any(o: Option<String>) -> DropNaHow {
    match o {
        Some(h) => match drop_na_how_of(h@) {
            Some(x) => x,
            None => DropNaHow::Any,
        },
        None => DropNaHow::Any,
    }
}

fn parse_drop_na_how(o: &Option<String>) -> (r: Result<DropNaHow, TeckelError>)
    ensures
        match *o {
            Some(h) if drop_na_how_of(h@) is None =>
                r matches Err(e) && is_spec_error(e, TeckelErrorCode::EEnum001, drop_na_how_message(h@)),
            _ => r == Ok::<DropNaHow, TeckelError>(drop_na_how_or_any(*o)),
        },
{
    match o {
        None => Ok(DropNaHow::Any),
        Some(h) => {
            let s = h.as_str();
            if is_word(s, "any") {
                Ok(DropNaHow::Any)
            } else if is_word(s, "all") {
                Ok(DropNaHow::All)
            } else {
                let mut m = String::new();
                push_str(&mut m, "invalid dropna how \"");
                push_str(&mut m, s);
                push_str(&mut m, "\", expected: any|all");
                Err(TeckelError::spec(TeckelErrorCode::EEnum001, m))
            }
        },
    }
}

/// The as-of direction written, `backward` when none is.
pub open spec fn direction_or_backward(o: Option<String>) -> AsOfDirection {
    match o {
        Some(d) => match as_of_direction_of(d@) {
            Some(x) => x,
            None => AsOfDirection::Backward,
        },
        None => AsOfDirection::Backward,
    }
}

fn parse_as_of_direction(o: &Option<String>) -> (r: Result<AsOfDirection, TeckelError>)
    ensures
        match *o {
            Some(d) if as_of_direction_of(d@) is None =>
                r matches Err(e) && is_spec_error(e, TeckelErrorCode::EEnum001, as_of_direction_message(d@)),
            _ => r == Ok::<AsOfDirection, TeckelError>(direction_or_backward(*o)),
        },
{
    match o {
        None => Ok(AsOfDirection::Backward),
        Some(d) => {
            let s = d.as_str();
            if is_word(s, "backward") {
                Ok(AsOfDirection::Backward)
            } else if is_word(s, "forward") {
                Ok(AsOfDirection::Forward)
            } else if is_word(s, "nearest") {
                Ok(AsOfDirection::Nearest)
            } else {
                let mut m = String::new();
                push_str(&mut m, "invalid as-of direction \"");
                push_str(&mut m, s);
                push_str(&mut m, "\", expected: backward|forward|nearest");
                Err(TeckelError::spec(TeckelErrorCode::EEnum001, m))
            }
        },
    }
}

/// The join type written, `default` when none is.
pub open spec fn join_type_or(o: Option<String>, default: JoinType) -> JoinType {
    match o {
        Some(t) => match join_type_of(t@) {
            Some(x) => x,
            None => default,
        },
        None => default,
    }
}

fn parse_opt_join_type(o: &Option<String>, default: JoinType) -> (r: Result<JoinType, TeckelError>)
    ensures
        match *o {
            Some(t) if join_type_of(t@) is None =>
                r matches Err(e) && is_spec_error(e, TeckelErrorCode::EEnum001, join_type_message(t@)),
            _ => r == Ok::<JoinType, TeckelError>(join_type_or(*o, default)),
        },
{
    match o {
        None => Ok(default),
        Some(t) => parse_join_type(t.as_str()),
    }
}

// ── Element rewrites ─────────────────────────────────────────────

pub open spec fn sort_column_of(d: SortColumnDef) -> SortColumn {
    match d {
        SortColumnDef::Simple(n) => SortColumn::Simple(n),
        SortColumnDef::Explicit { column, direction, nulls } => SortColumn::Explicit {
            column,
            direction: if direction@ == "desc"@ { SortDirection::Desc } else { SortDirection::Asc },
            nulls: if nulls@ == "first"@ { NullOrdering::First } else { NullOrdering::Last },
        },
    }
}

fn rewrite_sort_column(d: &SortColumnDef) -> (r: SortColumn)
    ensures
        r == sort_column_of(*d),
{
    match d {
        SortColumnDef::Simple(n) => SortColumn::Simple(n.clone()),
        SortColumnDef::Explicit { column, direction, nulls } => SortColumn::Explicit {
            column: column.clone(),
            direction: if is_word(direction.as_str(), "desc") { SortDirection::Desc } else { SortDirection::Asc },
            nulls: if is_word(nulls.as_str(), "first") { NullOrdering::First } else { NullOrdering::Last },
        },
    }
}

fn rewrite_sort_columns(v: &Vec<SortColumnDef>) -> (r: Vec<SortColumn>)
    ensures
        r@ == v@.map_values(|d: SortColumnDef| sort_column_of(d)),
{
    let mut r: Vec<SortColumn> = Vec::new();
    let mut i: usize = 0;
    while i < v.len()
        invariant
            i <= v@.len(),
            r@ == v@.subrange(0, i as int).map_values(|d: SortColumnDef| sort_column_of(d)),
        decreases v@.len() - i,
    {
        r.push(rewrite_sort_column(&v[i]));
        assert(v@.subrange(0, i + 1).map_values(|d: SortColumnDef| sort_column_of(d)) =~= r@);
        i = i + 1;
    }
    assert(v@.subrange(0, v@.len() as int) =~= v@);
    r
}

fn copy_opt(o: &Option<String>) -> (r: Option<String>)
    ensures
        r == *o,
{
    match o {
        Some(s) => Some(s.clone()),
        None => None,
    }
}

pub open spec fn column_def_of(c: ColumnDefOp) -> ColumnDef {
    ColumnDef { name: c.name, expression: c.expression }
}

pub open spec fn cast_def_of(c: CastDefOp) -> CastDef {
    CastDef { name: c.name, target_type: c.target_type }
}

pub open spec fn window_func_of(f: WindowFuncDefOp) -> WindowFuncDef {
    WindowFuncDef { expression: f.expression, alias: f.alias }
}

pub open spec fn branch_of(b: BranchDef) -> Branch {
    Branch { condition: b.condition, value: b.value }
}

pub open spec fn schema_column_of(c: SchemaColumnDef) -> SchemaColumn {
    SchemaColumn { name: c.name, data_type: c.data_type, nullable: c.nullable, default: c.default }
}

pub open spec fn quality_check_of(c: QualityCheckDef) -> QualityCheck {
    QualityCheck { column: c.column, rule: c.rule, description: c.description }
}

/// The frame of a window: the written one, or a range from the unbounded preceding row to the
/// current row.
pub open spec fn frame_ok(f: FrameSpec, d: Option<FrameSpecOp>) -> bool {
    match d {
        Some(x) => f == FrameSpec {
            frame_type: if x.frame_type@ == "rows"@ { FrameType::Rows } else { FrameType::Range },
            start: x.start,
            end: x.end,
        },
        None => f.frame_type == FrameType::Range && f.start@ == "unbounded preceding"@
            && f.end@ == "current row"@,
    }
}

pub open spec fn on_error_of(s: Seq<char>) -> OnError {
    if s == "fail"@ {
        OnError::Fail
    } else if s == "skip"@ {
        OnError::Skip
    } else {
        OnError::Null
    }
}

pub open spec fn schema_mode_of(s: Seq<char>) -> SchemaEnforceMode {
    if s == "evolve"@ {
        SchemaEnforceMode::Evolve
    } else {
        SchemaEnforceMode::Strict
    }
}

pub open spec fn on_failure_of(s: Seq<char>) -> OnFailure {
    if s == "warn"@ {
        OnFailure::Warn
    } else if s == "drop"@ {
        OnFailure::Drop
    } else {
        OnFailure::Fail
    }
}

/// The words `inner`, `left`, `right`, `outer`, `cross`, `left_semi`, `left_anti` each name their own variant, in that order: `JoinType::Inner`, `JoinType::Left`, `JoinType::Right`, `JoinType::Outer`, `JoinType::Cross`, `JoinType::LeftSemi`, `JoinType::LeftAnti`; any other word names none.
pub proof fn lemma_join_type_words()
    ensures
        join_type_of("inner"@) is Some && join_type_of("inner"@)->Some_0 == JoinType::Inner,
        join_type_of("left"@) is Some && join_type_of("left"@)->Some_0 == JoinType::Left,
        join_type_of("right"@) is Some && join_type_of("right"@)->Some_0 == JoinType::Right,
        join_type_of("outer"@) is Some && join_type_of("outer"@)->Some_0 == JoinType::Outer,
        join_type_of("cross"@) is Some && join_type_of("cross"@)->Some_0 == JoinType::Cross,
        join_type_of("left_semi"@) is Some && join_type_of("left_semi"@)->Some_0 == JoinType::LeftSemi,
        join_type_of("left_anti"@) is Some && join_type_of("left_anti"@)->Some_0 == JoinType::LeftAnti,
        forall|w: Seq<char>| #[trigger] join_type_of(w) is Some ==> (w == "inner"@ || w == "left"@ || w == "right"@ || w == "outer"@ || w == "cross"@ || w == "left_semi"@ || w == "left_anti"@),
{
    reveal_strlit("inner");
    reveal_strlit("left");
    reveal_strlit("right");
    reveal_strlit("outer");
    reveal_strlit("cross");
    reveal_strlit("left_semi");
    reveal_strlit("left_anti");
    assert("left"@.len() != "inner"@.len());
    assert("right"@[0] != "inner"@[0]);
    assert("right"@.len() != "left"@.len());
    assert("outer"@[0] != "inner"@[0]);
    assert("outer"@.len() != "left"@.len());
    assert("outer"@[0] != "right"@[0]);
    assert("cross"@[0] != "inner"@[0]);
    assert("cross"@.len() != "left"@.len());
    assert("cross"@[0] != "right"@[0]);
    assert("cross"@[0] != "outer"@[0]);
    assert("left_semi"@.len() != "inner"@.len());
    assert("left_semi"@.len() != "left"@.len());
    assert("left_semi"@.len() != "right"@.len());
    assert("left_semi"@.len() != "outer"@.len());
    assert("left_semi"@.len() != "cross"@.len());
    assert("left_anti"@.len() != "inner"@.len());
    assert("left_anti"@.len() != "left"@.len());
    assert("left_anti"@.len() != "right"@.len());
    assert("left_anti"@.len() != "outer"@.len());
    assert("left_anti"@.len() != "cross"@.len());
    assert("left_anti"@[5] != "left_semi"@[5]);
}

/// The words `overwrite`, `append`, `ignore`, `error` each name their own variant, in that order: `WriteMode::Overwrite`, `WriteMode::Append`, `WriteMode::Ignore`, `WriteMode::Error`; any other word names none.
pub proof fn lemma_write_mode_words()
    ensures
        write_mode_of("overwrite"@) is Some && write_mode_of("overwrite"@)->Some_0 == WriteMode::Overwrite,
        write_mode_of("append"@) is Some && write_mode_of("append"@)->Some_0 == WriteMode::Append,
        write_mode_of("ignore"@) is Some && write_mode_of("ignore"@)->Some_0 == WriteMode::Ignore,
        write_mode_of("error"@) is Some && write_mode_of("error"@)->Some_0 == WriteMode::Error,
        forall|w: Seq<char>| #[trigger] write_mode_of(w) is Some ==> (w == "overwrite"@ || w == "append"@ || w == "ignore"@ || w == "error"@),
{
    reveal_strlit("overwrite");
    reveal_strlit("append");
    reveal_strlit("ignore");
    reveal_strlit("error");
    assert("append"@.len() != "overwrite"@.len());
    assert("ignore"@.len() != "overwrite"@.len());
    assert("ignore"@[0] != "append"@[0]);
    assert("error"@.len() != "overwrite"@.len());
    assert("error"@.len() != "append"@.len());
    assert("error"@.len() != "ignore"@.len());
}

/// The words `any`, `all` each name their own variant, in that order: `DropNaHow::Any`, `DropNaHow::All`; any other word names none.
pub proof fn lemma_drop_na_how_words()
    ensures
        drop_na_how_of("any"@) is Some && drop_na_how_of("any"@)->Some_0 == DropNaHow::Any,
        drop_na_how_of("all"@) is Some && drop_na_how_of("all"@)->Some_0 == DropNaHow::All,
        forall|w: Seq<char>| #[trigger] drop_na_how_of(w) is Some ==> (w == "any"@ || w == "all"@),
{
    reveal_strlit("any");
    reveal_strlit("all");
    assert("all"@[1] != "any"@[1]);
}

/// The words `update`, `insert`, `delete` each name their own variant, in that order: `MergeActionType::Update`, `MergeActionType::Insert`, `MergeActionType::Delete`; any other word names none.
pub proof fn lemma_merge_action_words()
    ensures
        merge_action_of("update"@) is Some && merge_action_of("update"@)->Some_0 == MergeActionType::Update,
        merge_action_of("insert"@) is Some && merge_action_of("insert"@)->Some_0 == MergeActionType::Insert,
        merge_action_of("delete"@) is Some && merge_action_of("delete"@)->Some_0 == MergeActionType::Delete,
        forall|w: Seq<char>| #[trigger] merge_action_of(w) is Some ==> (w == "update"@ || w == "insert"@ || w == "delete"@),
{
    reveal_strlit("update");
    reveal_strlit("insert");
    reveal_strlit("delete");
    assert("insert"@[0] != "update"@[0]);
    assert("delete"@[0] != "update"@[0]);
    assert("delete"@[0] != "insert"@[0]);
}

/// The words `json`, `csv` each name their own variant, in that order: `ParseFormat::Json`, `ParseFormat::Csv`; any other word names none.
pub proof fn lemma_parse_format_words()
    ensures
        parse_format_of("json"@) is Some && parse_format_of("json"@)->Some_0 == ParseFormat::Json,
        parse_format_of("csv"@) is Some && parse_format_of("csv"@)->Some_0 == ParseFormat::Csv,
        forall|w: Seq<char>| #[trigger] parse_format_of(w) is Some ==> (w == "json"@ || w == "csv"@),
{
    reveal_strlit("json");
    reveal_strlit("csv");
    assert("csv"@.len() != "json"@.len());
}

/// The words `backward`, `forward`, `nearest` each name their own variant, in that order: `AsOfDirection::Backward`, `AsOfDirection::Forward`, `AsOfDirection::Nearest`; any other word names none.
pub proof fn lemma_as_direction_words()
    ensures
        as_of_direction_of("backward"@) is Some && as_of_direction_of("backward"@)->Some_0 == AsOfDirection::Backward,
        as_of_direction_of("forward"@) is Some && as_of_direction_of("forward"@)->Some_0 == AsOfDirection::Forward,
        as_of_direction_of("nearest"@) is Some && as_of_direction_of("nearest"@)->Some_0 == AsOfDirection::Nearest,
        forall|w: Seq<char>| #[trigger] as_of_direction_of(w) is Some ==> (w == "backward"@ || w == "forward"@ || w == "nearest"@),
{
    reveal_strlit("backward");
    reveal_strlit("forward");
    reveal_strlit("nearest");
    assert("forward"@.len() != "backward"@.len());
    assert("nearest"@.len() != "backward"@.len());
    assert("nearest"@[0] != "forward"@[0]);
}

/// The words `fail`, `skip` each name their own variant, in that order: `OnError::Fail`, `OnError::Skip`; any other word gives `OnError::Null`.
pub proof fn lemma_on_error_words()
    ensures
        on_error_of("fail"@) == OnError::Fail,
        on_error_of("skip"@) == OnError::Skip,
        forall|w: Seq<char>| !(w == "fail"@ || w == "skip"@) ==> #[trigger] on_error_of(w) == OnError::Null,
{
    reveal_strlit("fail");
    reveal_strlit("skip");
    assert("skip"@[0] != "fail"@[0]);
}

/// The words `evolve` each name their own variant, in that order: `SchemaEnforceMode::Evolve`; any other word gives `SchemaEnforceMode::Strict`.
pub proof fn lemma_schema_mode_words()
    ensures
        schema_mode_of("evolve"@) == SchemaEnforceMode::Evolve,
        forall|w: Seq<char>| !(w == "evolve"@) ==> #[trigger] schema_mode_of(w) == SchemaEnforceMode::Strict,
{
    reveal_strlit("evolve");
}

/// The words `warn`, `drop` each name their own variant, in that order: `OnFailure::Warn`, `OnFailure::Drop`; any other word gives `OnFailure::Fail`.
pub proof fn lemma_on_failure_words()
    ensures
        on_failure_of("warn"@) == OnFailure::Warn,
        on_failure_of("drop"@) == OnFailure::Drop,
        forall|w: Seq<char>| !(w == "warn"@ || w == "drop"@) ==> #[trigger] on_failure_of(w) == OnFailure::Fail,
{
    reveal_strlit("warn");
    reveal_strlit("drop");
    assert("drop"@[0] != "warn"@[0]);
}

pub open spec fn replacement_of(d: ReplacementDef) -> Replacement {
    Replacement { old: d.old, new: d.new }
}

pub open spec fn hint_spec_of(d: HintSpecDef) -> HintSpec {
    HintSpec { name: d.name, parameters: d.parameters }
}

/// The first merge action whose kind is no merge action: its written kind.
pub open spec fn first_bad_action(ds: Seq<MergeActionDef>) -> Option<Seq<char>>
    decreases ds.len(),
{
    if ds.len() == 0 {
        None
    } else if merge_action_of(ds[0].action@) is None {
        Some(ds[0].action@)
    } else {
        first_bad_action(ds.drop_first())
    }
}

/// The merge actions `r` are the written actions `d`, with their kinds read.
pub open spec fn merge_actions_ok(r: Seq<MergeAction>, d: Seq<MergeActionDef>) -> bool {
    &&& r.len() == d.len()
    &&& forall|i: int| 0 <= i < d.len() ==> {
        &&& merge_action_of(d[i].action@) == Some((#[trigger] r[i]).action)
        &&& r[i].condition == d[i].condition
        &&& r[i].set == d[i].set
        &&& r[i].star == d[i].star
    }
}

/// The schema `r` is the written schema `d`, column by column.
pub open spec fn opt_schema_ok(r: Option<Vec<SchemaColumn>>, d: Option<Vec<SchemaColumnDef>>) -> bool {
    match d {
        Some(v) => r matches Some(w) && w@ == v@.map_values(|c: SchemaColumnDef| schema_column_of(c)),
        None => r is None,
    }
}

/// The message of the first bad action among the three lists of a merge, in order.
pub open spec fn merge_error(o: MergeOp) -> Option<Seq<char>> {
    match first_bad_action(o.when_matched@) {
        Some(b) => Some(merge_action_message(b)),
        None => match first_bad_action(o.when_not_matched@) {
            Some(b) => Some(merge_action_message(b)),
            None => match first_bad_action(o.when_not_matched_by_source@) {
                Some(b) => Some(merge_action_message(b)),
                None => None,
            },
        },
    }
}

/// The sort columns written, or none.
pub open spec fn opt_sort_columns(o: Option<Vec<SortColumnDef>>) -> Seq<SortColumn> {
    match o {
        Some(v) => v@.map_values(|d: SortColumnDef| sort_column_of(d)),
        None => Seq::empty(),
    }
}

/// The first join target whose type is no join type: its written type.
pub open spec fn first_bad_join(ts: Seq<JoinTargetDef>) -> Option<Seq<char>>
    decreases ts.len(),
{
    if ts.len() == 0 {
        None
    } else if join_type_of(ts[0].join_type@) is None {
        Some(ts[0].join_type@)
    } else {
        first_bad_join(ts.drop_first())
    }
}

/// The join targets `r` are the written targets `d`, with their types read.
pub open spec fn join_targets_ok(r: Seq<JoinTarget>, d: Seq<JoinTargetDef>) -> bool {
    &&& r.len() == d.len()
    &&& forall|i: int| 0 <= i < d.len() ==> {
        &&& (#[trigger] r[i]).name == d[i].name
        &&& join_type_of(d[i].join_type@) == Some(r[i].join_type)
        &&& r[i].on@ == d[i].on@
    }
}

/// The error of an operation that cannot be rewritten: the message of its first word that
/// names no value of its enumeration (all such errors are `E-ENUM-001`).
pub open spec fn op_error(op: TransformationOp) -> Option<Seq<char>> {
    match op {
        TransformationOp::Join(j) => match first_bad_join(j.right@) {
            Some(b) => Some(join_type_message(b)),
            None => None,
        },
        TransformationOp::DropNa(o) => match o.how {
            Some(h) => if drop_na_how_of(h@) is None { Some(drop_na_how_message(h@)) } else { None },
            None => None,
        },
        TransformationOp::Merge(o) => merge_error(o),
        TransformationOp::Parse(o) => if parse_format_of(o.format@) is None {
            Some(parse_format_message(o.format@))
        } else {
            None
        },
        TransformationOp::AsOfJoin(o) => match o.join_type {
            Some(t) if join_type_of(t@) is None => Some(join_type_message(t@)),
            _ => match o.direction {
                Some(d) if as_of_direction_of(d@) is None => Some(as_of_direction_message(d@)),
                _ => None,
            },
        },
        TransformationOp::LateralJoin(o) => match o.join_type {
            Some(t) if join_type_of(t@) is None => Some(join_type_message(t@)),
            _ => None,
        },
        _ => None,
    }
}

/// `s` is the source that operation `op` is rewritten into.
pub open spec fn rewrites_to(op: TransformationOp, s: Source) -> bool {
    match op {
        TransformationOp::Select(o) => s == Source::Select(SelectTransform { from: o.from, columns: o.columns }),
        TransformationOp::Where(o) => s == Source::Where(WhereTransform { from: o.from, filter: o.filter }),
        TransformationOp::Group(o) => s == Source::GroupBy(GroupByTransform { from: o.from, by: o.by, agg: o.agg }),
        TransformationOp::OrderBy(o) => s matches Source::OrderBy(t) && t.from == o.from
            && t.columns@ == o.columns@.map_values(|d: SortColumnDef| sort_column_of(d)),
        TransformationOp::Join(o) => s matches Source::Join(t) && t.left == o.left
            && join_targets_ok(t.right@, o.right@),
        TransformationOp::Union(o) => s == Source::Union(UnionTransform {
            sources: o.sources,
            all: o.all,
            by_name: o.by_name,
            allow_missing_columns: o.allow_missing_columns,
        }),
        TransformationOp::Intersect(o) => s == Source::Intersect(IntersectTransform {
            sources: o.sources,
            all: o.all,
            by_name: o.by_name,
            allow_missing_columns: o.allow_missing_columns,
        }),
        TransformationOp::Except(o) => s == Source::Except(ExceptTransform {
            left: o.left,
            right: o.right,
            all: o.all,
            by_name: o.by_name,
            allow_missing_columns: o.allow_missing_columns,
        }),
        TransformationOp::Distinct(o) => s == Source::Distinct(DistinctTransform { from: o.from, columns: o.columns }),
        TransformationOp::Limit(o) => s == Source::Limit(LimitTransform { from: o.from, count: o.count }),
        TransformationOp::AddColumns(o) => s matches Source::AddColumns(t) && t.from == o.from
            && t.columns@ == o.columns@.map_values(|c: ColumnDefOp| column_def_of(c)),
        TransformationOp::DropColumns(o) => s == Source::DropColumns(DropColumnsTransform { from: o.from, columns: o.columns }),
        TransformationOp::RenameColumns(o) => s == Source::RenameColumns(RenameColumnsTransform { from: o.from, mappings: o.mappings }),
        TransformationOp::CastColumns(o) => s matches Source::CastColumns(t) && t.from == o.from
            && t.columns@ == o.columns@.map_values(|c: CastDefOp| cast_def_of(c)),
        TransformationOp::Window(o) => s matches Source::Window(t) && t.from == o.from
            && t.partition_by == o.partition_by && t.order_by@ == opt_sort_columns(o.order_by)
            && frame_ok(t.frame, o.frame)
            && t.functions@ == o.functions@.map_values(|f: WindowFuncDefOp| window_func_of(f)),
        TransformationOp::Pivot(o) => s == Source::Pivot(PivotTransform {
            from: o.from,
            group_by: o.group_by,
            pivot_column: o.pivot_column,
            values: o.values,
            agg: o.agg,
        }),
        TransformationOp::Unpivot(o) => s == Source::Unpivot(UnpivotTransform {
            from: o.from,
            ids: o.ids,
            values: o.values,
            variable_column: o.variable_column,
            value_column: o.value_column,
        }),
        TransformationOp::Flatten(o) => s == Source::Flatten(FlattenTransform {
            from: o.from,
            separator: o.separator,
            explode_arrays: o.explode_arrays,
        }),
        TransformationOp::Sample(o) => s == Source::Sample(SampleTransform {
            from: o.from,
            fraction: o.fraction,
            with_replacement: o.with_replacement,
            seed: o.seed,
        }),
        TransformationOp::Conditional(o) => s matches Source::Conditional(t) && t.from == o.from
            && t.output_column == o.output_column && t.otherwise == o.otherwise
            && t.branches@ == o.branches@.map_values(|b: BranchDef| branch_of(b)),
        TransformationOp::Split(o) => s == Source::Split(SplitTransform {
            from: o.from,
            condition: o.condition,
            pass: o.pass,
            fail: o.fail,
        }),
        TransformationOp::Sql(o) => s == Source::Sql(SqlTransform { query: o.query, views: o.views }),
        TransformationOp::Rollup(o) => s == Source::Rollup(RollupTransform { from: o.from, by: o.by, agg: o.agg }),
        TransformationOp::Cube(o) => s == Source::Cube(CubeTransform { from: o.from, by: o.by, agg: o.agg }),
        TransformationOp::Scd2(o) => s == Source::Scd2(Scd2Transform {
            current: o.current,
            incoming: o.incoming,
            key_columns: o.key_columns,
            track_columns: o.track_columns,
            start_date_column: o.start_date_column,
            end_date_column: o.end_date_column,
            current_flag_column: o.current_flag_column,
        }),
        TransformationOp::Enrich(o) => s == Source::Enrich(EnrichTransform {
            from: o.from,
            url: o.url,
            method: o.method,
            key_column: o.key_column,
            response_column: o.response_column,
            headers: o.headers,
            on_error: on_error_of(o.on_error@),
            timeout: o.timeout,
            max_retries: o.max_retries,
        }),
        TransformationOp::SchemaEnforce(o) => s matches Source::SchemaEnforce(t) && t.from == o.from
            && t.mode == schema_mode_of(o.mode@)
            && t.columns@ == o.columns@.map_values(|c: SchemaColumnDef| schema_column_of(c)),
        TransformationOp::Assertion(o) => s matches Source::Assertion(t) && t.from == o.from
            && t.on_failure == on_failure_of(o.on_failure@)
            && t.checks@ == o.checks@.map_values(|c: QualityCheckDef| quality_check_of(c)),
        TransformationOp::Repartition(o) => s == Source::Repartition(RepartitionTransform {
            from: o.from,
            num_partitions: o.num_partitions,
            columns: o.columns,
        }),
        TransformationOp::Coalesce(o) => s == Source::Coalesce(CoalesceTransform { from: o.from, num_partitions: o.num_partitions }),
        TransformationOp::Custom(o) => s == Source::Custom(CustomTransform { from: o.from, component: o.component, options: o.options }),
        TransformationOp::Offset(o) => s == Source::Offset(OffsetTransform { from: o.from, count: o.count }),
        TransformationOp::Tail(o) => s == Source::Tail(TailTransform { from: o.from, count: o.count }),
        TransformationOp::FillNa(o) => s == Source::FillNa(FillNaTransform {
            from: o.from,
            columns: o.columns,
            value: o.value,
            values: o.values,
        }),
        TransformationOp::DropNa(o) => s == Source::DropNa(DropNaTransform {
            from: o.from,
            columns: o.columns,
            how: drop_na_how_or_any(o.how),
            min_non_nulls: o.min_non_nulls,
        }),
        TransformationOp::Replace(o) => s matches Source::Replace(t) && t.from == o.from && t.columns == o.columns
            && t.mappings@ == o.mappings@.map_values(|d: ReplacementDef| replacement_of(d)),
        TransformationOp::Merge(o) => s matches Source::Merge(t) && t.target == o.target && t.source == o.source
            && t.on == o.on
            && merge_actions_ok(t.when_matched@, o.when_matched@)
            && merge_actions_ok(t.when_not_matched@, o.when_not_matched@)
            && merge_actions_ok(t.when_not_matched_by_source@, o.when_not_matched_by_source@),
        TransformationOp::Parse(o) => s matches Source::Parse(t) && t.from == o.from && t.column == o.column
            && parse_format_of(o.format@) == Some(t.format) && opt_schema_ok(t.schema, o.schema)
            && t.options == o.options,
        TransformationOp::AsOfJoin(o) => s == Source::AsOfJoin(AsOfJoinTransform {
            left: o.left,
            right: o.right,
            left_as_of: o.left_as_of,
            right_as_of: o.right_as_of,
            on: o.on,
            join_type: join_type_or(o.join_type, JoinType::Left),
            direction: direction_or_backward(o.direction),
            tolerance: o.tolerance,
            allow_exact_matches: o.allow_exact_matches,
        }),
        TransformationOp::LateralJoin(o) => s == Source::LateralJoin(LateralJoinTransform {
            left: o.left,
            right: o.right,
            join_type: join_type_or(o.join_type, JoinType::Inner),
            on: o.on,
        }),
        TransformationOp::Transpose(o) => s == Source::Transpose(TransposeTransform { from: o.from, index_columns: o.index_columns }),
        TransformationOp::GroupingSets(o) => s == Source::GroupingSets(GroupingSetsTransform { from: o.from, sets: o.sets, agg: o.agg }),
        TransformationOp::Describe(o) => s == Source::Describe(DescribeTransform {
            from: o.from,
            columns: o.columns,
            statistics: o.statistics,
        }),
        TransformationOp::Crosstab(o) => s == Source::Crosstab(CrosstabTransform { from: o.from, col1: o.col1, col2: o.col2 }),
        TransformationOp::Hint(o) => s matches Source::Hint(t) && t.from == o.from
            && t.hints@ == o.hints@.map_values(|d: HintSpecDef| hint_spec_of(d)),
    }
}

fn rewrite_column_defs(v: &Vec<ColumnDefOp>) -> (r: Vec<ColumnDef>)
    ensures
        r@ == v@.map_values(|x: ColumnDefOp| column_def_of(x)),
{
    let mut r: Vec<ColumnDef> = Vec::new();
    let mut i: usize = 0;
    while i < v.len()
        invariant
            i <= v@.len(),
            r@ == v@.subrange(0, i as int).map_values(|x: ColumnDefOp| column_def_of(x)),
        decreases v@.len() - i,
    {
        let x = &v[i];
        r.push(ColumnDef { name: x.name.clone(), expression: x.expression.clone() });
        assert(v@.subrange(0, i + 1).map_values(|x: ColumnDefOp| column_def_of(x)) =~= r@);
        i = i + 1;
    }
    assert(v@.subrange(0, v@.len() as int) =~= v@);
    r
}

fn rewrite_cast_defs(v: &Vec<CastDefOp>) -> (r: Vec<CastDef>)
    ensures
        r@ == v@.map_values(|x: CastDefOp| cast_def_of(x)),
{
    let mut r: Vec<CastDef> = Vec::new();
    let mut i: usize = 0;
    while i < v.len()
        invariant
            i <= v@.len(),
            r@ == v@.subrange(0, i as int).map_values(|x: CastDefOp| cast_def_of(x)),
        decreases v@.len() - i,
    {
        let x = &v[i];
        r.push(CastDef { name: x.name.clone(), target_type: x.target_type.clone() });
        assert(v@.subrange(0, i + 1).map_values(|x: CastDefOp| cast_def_of(x)) =~= r@);
        i = i + 1;
    }
    assert(v@.subrange(0, v@.len() as int) =~= v@);
    r
}

fn rewrite_window_funcs(v: &Vec<WindowFuncDefOp>) -> (r: Vec<WindowFuncDef>)
    ensures
        r@ == v@.map_values(|x: WindowFuncDefOp| window_func_of(x)),
{
    let mut r: Vec<WindowFuncDef> = Vec::new();
    let mut i: usize = 0;
    while i < v.len()
        invariant
            i <= v@.len(),
            r@ == v@.subrange(0, i as int).map_values(|x: WindowFuncDefOp| window_func_of(x)),
        decreases v@.len() - i,
    {
        let x = &v[i];
        r.push(WindowFuncDef { expression: x.expression.clone(), alias: x.alias.clone() });
        assert(v@.subrange(0, i + 1).map_values(|x: WindowFuncDefOp| window_func_of(x)) =~= r@);
        i = i + 1;
    }
    assert(v@.subrange(0, v@.len() as int) =~= v@);
    r
}

fn rewrite_branches(v: &Vec<BranchDef>) -> (r: Vec<Branch>)
    ensures
        r@ == v@.map_values(|x: BranchDef| branch_of(x)),
{
    let mut r: Vec<Branch> = Vec::new();
    let mut i: usize = 0;
    while i < v.len()
        invariant
            i <= v@.len(),
            r@ == v@.subrange(0, i as int).map_values(|x: BranchDef| branch_of(x)),
        decreases v@.len() - i,
    {
        let x = &v[i];
        r.push(Branch { condition: x.condition.clone(), value: x.value.clone() });
        assert(v@.subrange(0, i + 1).map_values(|x: BranchDef| branch_of(x)) =~= r@);
        i = i + 1;
    }
    assert(v@.subrange(0, v@.len() as int) =~= v@);
    r
}

fn rewrite_schema_columns(v: &Vec<SchemaColumnDef>) -> (r: Vec<SchemaColumn>)
    ensures
        r@ == v@.map_values(|x: SchemaColumnDef| schema_column_of(x)),
{
    let mut r: Vec<SchemaColumn> = Vec::new();
    let mut i: usize = 0;
    while i < v.len()
        invariant
            i <= v@.len(),
            r@ == v@.subrange(0, i as int).map_values(|x: SchemaColumnDef| schema_column_of(x)),
        decreases v@.len() - i,
    {
        let x = &v[i];
        r.push(SchemaColumn { name: x.name.clone(), data_type: x.data_type.clone(), nullable: x.nullable, default: copy_opt(&x.default) });
        assert(v@.subrange(0, i + 1).map_values(|x: SchemaColumnDef| schema_column_of(x)) =~= r@);
        i = i + 1;
    }
    assert(v@.subrange(0, v@.len() as int) =~= v@);
    r
}

fn rewrite_quality_checks(v: &Vec<QualityCheckDef>) -> (r: Vec<QualityCheck>)
    ensures
        r@ == v@.map_values(|x: QualityCheckDef| quality_check_of(x)),
{
    let mut r: Vec<QualityCheck> = Vec::new();
    let mut i: usize = 0;
    while i < v.len()
        invariant
            i <= v@.len(),
            r@ == v@.subrange(0, i as int).map_values(|x: QualityCheckDef| quality_check_of(x)),
        decreases v@.len() - i,
    {
        let x = &v[i];
        r.push(QualityCheck { column: copy_opt(&x.column), rule: x.rule.clone(), description: copy_opt(&x.description) });
        assert(v@.subrange(0, i + 1).map_values(|x: QualityCheckDef| quality_check_of(x)) =~= r@);
        i = i + 1;
    }
    assert(v@.subrange(0, v@.len() as int) =~= v@);
    r
}

fn rewrite_join_targets(v: Vec<JoinTargetDef>) -> (r: Result<Vec<JoinTarget>, TeckelError>)
    ensures
        match first_bad_join(v@) {
            Some(bad) => r matches Err(e) && is_spec_error(e, TeckelErrorCode::EEnum001, join_type_message(bad)),
            None => r matches Ok(t) && join_targets_ok(t@, v@),
        },
{
    let ghost orig = v@;
    assert(v@.len() == v.len());
    let mut rest = v;
    let mut out: Vec<JoinTarget> = Vec::new();
    let mut i: usize = 0;
    while rest.len() > 0
        invariant
            i <= orig.len(),
            i + rest@.len() == orig.len(),
            orig.len() <= usize::MAX,
            rest@ == orig.subrange(i as int, orig.len() as int),
            first_bad_join(orig) == first_bad_join(rest@),
            join_targets_ok(out@, orig.subrange(0, i as int)),
            orig == v@,
        decreases rest@.len(),
    {
        let ghost cur = rest@;
        let d = rest.remove(0);
        assert(d == orig[i as int]);
        assert(rest@ =~= orig.subrange(i + 1, orig.len() as int));
        let t = match parse_join_type(d.join_type.as_str()) {
            Ok(t) => t,
            Err(e) => {
                assert(cur[0] == d);
                assert(join_type_of(d.join_type@) is None);
                assert(first_bad_join(cur) == Some(d.join_type@));
                assert(first_bad_join(orig) == Some(d.join_type@));
                assert(is_spec_error(e, TeckelErrorCode::EEnum001, join_type_message(d.join_type@)));
                return Err(e);
            },
        };
        assert(rest@ =~= cur.drop_first());
        assert(first_bad_join(cur) == first_bad_join(rest@));
        let ghost before = out@;
        out.push(JoinTarget { name: d.name, join_type: t, on: d.on });
        proof {
            assert forall|j: int| 0 <= j < i + 1 implies {
                &&& (#[trigger] out@[j]).name == orig.subrange(0, i + 1)[j].name
                &&& join_type_of(orig.subrange(0, i + 1)[j].join_type@) == Some(out@[j].join_type)
                &&& out@[j].on@ == orig.subrange(0, i + 1)[j].on@
            } by {
                if j < i {
                    assert(out@[j] == before[j]);
                    assert(orig.subrange(0, i + 1)[j] == orig.subrange(0, i as int)[j]);
                }
            }
        }
        i = i + 1;
    }
    assert(orig.subrange(0, i as int) =~= orig);
    Ok(out)
}

fn rewrite_replacements(v: Vec<ReplacementDef>) -> (r: Vec<Replacement>)
    ensures
        r@ == v@.map_values(|d: ReplacementDef| replacement_of(d)),
{
    let ghost orig = v@;
    assert(v@.len() == v.len());
    let mut rest = v;
    let mut out: Vec<Replacement> = Vec::new();
    let mut i: usize = 0;
    while rest.len() > 0
        invariant
            i + rest@.len() == orig.len(),
            orig.len() <= usize::MAX,
            orig == v@,
            rest@ == orig.subrange(i as int, orig.len() as int),
            out@ == orig.subrange(0, i as int).map_values(|d: ReplacementDef| replacement_of(d)),
        decreases rest@.len(),
    {
        let d = rest.remove(0);
        assert(d == orig[i as int]);
        assert(rest@ =~= orig.subrange(i + 1, orig.len() as int));
        out.push(Replacement { old: d.old, new: d.new });
        assert(orig.subrange(0, i + 1).map_values(|d: ReplacementDef| replacement_of(d)) =~= out@);
        i = i + 1;
    }
    assert(orig.subrange(0, i as int) =~= orig);
    out
}

fn rewrite_hint_specs(v: Vec<HintSpecDef>) -> (r: Vec<HintSpec>)
    ensures
        r@ == v@.map_values(|d: HintSpecDef| hint_spec_of(d)),
{
    let ghost orig = v@;
    assert(v@.len() == v.len());
    let mut rest = v;
    let mut out: Vec<HintSpec> = Vec::new();
    let mut i: usize = 0;
    while rest.len() > 0
        invariant
            i + rest@.len() == orig.len(),
            orig.len() <= usize::MAX,
            orig == v@,
            rest@ == orig.subrange(i as int, orig.len() as int),
            out@ == orig.subrange(0, i as int).map_values(|d: HintSpecDef| hint_spec_of(d)),
        decreases rest@.len(),
    {
        let d = rest.remove(0);
        assert(d == orig[i as int]);
        assert(rest@ =~= orig.subrange(i + 1, orig.len() as int));
        out.push(HintSpec { name: d.name, parameters: d.parameters });
        assert(orig.subrange(0, i + 1).map_values(|d: HintSpecDef| hint_spec_of(d)) =~= out@);
        i = i + 1;
    }
    assert(orig.subrange(0, i as int) =~= orig);
    out
}

fn rewrite_merge_actions(v: Vec<MergeActionDef>) -> (r: Result<Vec<MergeAction>, TeckelError>)
    ensures
        match first_bad_action(v@) {
            Some(bad) => r matches Err(e) && is_spec_error(e, TeckelErrorCode::EEnum001, merge_action_message(bad)),
            None => r matches Ok(t) && merge_actions_ok(t@, v@),
        },
{
    let ghost orig = v@;
    assert(v@.len() == v.len());
    let mut rest = v;
    let mut out: Vec<MergeAction> = Vec::new();
    let mut i: usize = 0;
    while rest.len() > 0
        invariant
            i + rest@.len() == orig.len(),
            orig.len() <= usize::MAX,
            orig == v@,
            rest@ == orig.subrange(i as int, orig.len() as int),
            first_bad_action(orig) == first_bad_action(rest@),
            merge_actions_ok(out@, orig.subrange(0, i as int)),
        decreases rest@.len(),
    {
        let ghost cur = rest@;
        let d = rest.remove(0);
        assert(d == orig[i as int]);
        assert(rest@ =~= orig.subrange(i + 1, orig.len() as int));
        let a = match parse_merge_action(d.action.as_str()) {
            Ok(a) => a,
            Err(e) => {
                assert(cur[0] == d);
                assert(merge_action_of(d.action@) is None);
                assert(first_bad_action(cur) == Some(d.action@));
                assert(first_bad_action(orig) == Some(d.action@));
                return Err(e);
            },
        };
        assert(rest@ =~= cur.drop_first());
        assert(first_bad_action(cur) == first_bad_action(rest@));
        let ghost before = out@;
        out.push(MergeAction { action: a, condition: d.condition, set: d.set, star: d.star });
        proof {
            assert forall|j: int| 0 <= j < i + 1 implies {
                &&& merge_action_of(orig.subrange(0, i + 1)[j].action@) == Some((#[trigger] out@[j]).action)
                &&& out@[j].condition == orig.subrange(0, i + 1)[j].condition
                &&& out@[j].set == orig.subrange(0, i + 1)[j].set
                &&& out@[j].star == orig.subrange(0, i + 1)[j].star
            } by {
                if j < i {
                    assert(out@[j] == before[j]);
                    assert(orig.subrange(0, i + 1)[j] == orig.subrange(0, i as int)[j]);
                }
            }
        }
        i = i + 1;
    }
    assert(orig.subrange(0, i as int) =~= orig);
    Ok(out)
}

/// The source of a transformation operation, or `E-ENUM-001` for a word that names no value of
/// its enumeration (a join type, a drop-nulls mode, a merge action, a parse format, an as-of
/// direction).
#[verifier::spinoff_prover]
pub fn rewrite_transformation(op: TransformationOp) -> (r: Result<Source, TeckelError>)
    ensures
        match op_error(op) {
            Some(msg) => r matches Err(e) && is_spec_error(e, TeckelErrorCode::EEnum001, msg),
            None => r matches Ok(s) && rewrites_to(op, s),
        },
{
    match op {
        TransformationOp::Select(o) => Ok(Source::Select(SelectTransform { from: o.from, columns: o.columns })),
        TransformationOp::Where(o) => Ok(Source::Where(WhereTransform { from: o.from, filter: o.filter })),
        TransformationOp::Group(o) => Ok(Source::GroupBy(GroupByTransform { from: o.from, by: o.by, agg: o.agg })),
        TransformationOp::OrderBy(o) => {
            let columns = rewrite_sort_columns(&o.columns);
            Ok(Source::OrderBy(OrderByTransform { from: o.from, columns }))
        },
        TransformationOp::Join(o) => {
            let right = match rewrite_join_targets(o.right) {
                Ok(t) => t,
                Err(e) => return Err(e),
            };
            Ok(Source::Join(JoinTransform { left: o.left, right }))
        },
        TransformationOp::Union(o) => Ok(Source::Union(UnionTransform {
            sources: o.sources,
            all: o.all,
            by_name: o.by_name,
            allow_missing_columns: o.allow_missing_columns,
        })),
        TransformationOp::Intersect(o) => Ok(Source::Intersect(IntersectTransform {
            sources: o.sources,
            all: o.all,
            by_name: o.by_name,
            allow_missing_columns: o.allow_missing_columns,
        })),
        TransformationOp::Except(o) => Ok(Source::Except(ExceptTransform {
            left: o.left,
            right: o.right,
            all: o.all,
            by_name: o.by_name,
            allow_missing_columns: o.allow_missing_columns,
        })),
        TransformationOp::Distinct(o) => Ok(Source::Distinct(DistinctTransform { from: o.from, columns: o.columns })),
        TransformationOp::Limit(o) => Ok(Source::Limit(LimitTransform { from: o.from, count: o.count })),
        TransformationOp::AddColumns(o) => {
            let columns = rewrite_column_defs(&o.columns);
            Ok(Source::AddColumns(AddColumnsTransform { from: o.from, columns }))
        },
        TransformationOp::DropColumns(o) => Ok(Source::DropColumns(DropColumnsTransform { from: o.from, columns: o.columns })),
        TransformationOp::RenameColumns(o) => Ok(Source::RenameColumns(RenameColumnsTransform { from: o.from, mappings: o.mappings })),
        TransformationOp::CastColumns(o) => {
            let columns = rewrite_cast_defs(&o.columns);
            Ok(Source::CastColumns(CastColumnsTransform { from: o.from, columns }))
        },
        TransformationOp::Window(o) => {
            let order_by = match &o.order_by {
                Some(cols) => rewrite_sort_columns(cols),
                None => Vec::new(),
            };
            let frame = match o.frame {
                Some(f) => FrameSpec {
                    frame_type: if is_word(f.frame_type.as_str(), "rows") { FrameType::Rows } else { FrameType::Range },
                    start: f.start,
                    end: f.end,
                },
                None => FrameSpec::default(),
            };
            let functions = rewrite_window_funcs(&o.functions);
            Ok(Source::Window(WindowTransform { from: o.from, partition_by: o.partition_by, order_by, frame, functions }))
        },
        TransformationOp::Pivot(o) => Ok(Source::Pivot(PivotTransform {
            from: o.from,
            group_by: o.group_by,
            pivot_column: o.pivot_column,
            values: o.values,
            agg: o.agg,
        })),
        TransformationOp::Unpivot(o) => Ok(Source::Unpivot(UnpivotTransform {
            from: o.from,
            ids: o.ids,
            values: o.values,
            variable_column: o.variable_column,
            value_column: o.value_column,
        })),
        TransformationOp::Flatten(o) => Ok(Source::Flatten(FlattenTransform {
            from: o.from,
            separator: o.separator,
            explode_arrays: o.explode_arrays,
        })),
        TransformationOp::Sample(o) => Ok(Source::Sample(SampleTransform {
            from: o.from,
            fraction: o.fraction,
            with_replacement: o.with_replacement,
            seed: o.seed,
        })),
        TransformationOp::Conditional(o) => {
            let branches = rewrite_branches(&o.branches);
            Ok(Source::Conditional(ConditionalTransform {
                from: o.from,
                output_column: o.output_column,
                branches,
                otherwise: o.otherwise,
            }))
        },
        TransformationOp::Split(o) => Ok(Source::Split(SplitTransform {
            from: o.from,
            condition: o.condition,
            pass: o.pass,
            fail: o.fail,
        })),
        TransformationOp::Sql(o) => Ok(Source::Sql(SqlTransform { query: o.query, views: o.views })),
        TransformationOp::Rollup(o) => Ok(Source::Rollup(RollupTransform { from: o.from, by: o.by, agg: o.agg })),
        TransformationOp::Cube(o) => Ok(Source::Cube(CubeTransform { from: o.from, by: o.by, agg: o.agg })),
        TransformationOp::Scd2(o) => Ok(Source::Scd2(Scd2Transform {
            current: o.current,
            incoming: o.incoming,
            key_columns: o.key_columns,
            track_columns: o.track_columns,
            start_date_column: o.start_date_column,
            end_date_column: o.end_date_column,
            current_flag_column: o.current_flag_column,
        })),
        TransformationOp::Enrich(o) => {
            let on_error = if is_word(o.on_error.as_str(), "fail") {
                OnError::Fail
            } else if is_word(o.on_error.as_str(), "skip") {
                OnError::Skip
            } else {
                OnError::Null
            };
            Ok(Source::Enrich(EnrichTransform {
                from: o.from,
                url: o.url,
                method: o.method,
                key_column: o.key_column,
                response_column: o.response_column,
                headers: o.headers,
                on_error,
                timeout: o.timeout,
                max_retries: o.max_retries,
            }))
        },
        TransformationOp::SchemaEnforce(o) => {
            let mode = if is_word(o.mode.as_str(), "evolve") { SchemaEnforceMode::Evolve } else { SchemaEnforceMode::Strict };
            let columns = rewrite_schema_columns(&o.columns);
            Ok(Source::SchemaEnforce(SchemaEnforceTransform { from: o.from, mode, columns }))
        },
        TransformationOp::Assertion(o) => {
            let checks = rewrite_quality_checks(&o.checks);
            let on_failure = if is_word(o.on_failure.as_str(), "warn") {
                OnFailure::Warn
            } else if is_word(o.on_failure.as_str(), "drop") {
                OnFailure::Drop
            } else {
                OnFailure::Fail
            };
            Ok(Source::Assertion(AssertionTransform { from: o.from, checks, on_failure }))
        },
        TransformationOp::Repartition(o) => Ok(Source::Repartition(RepartitionTransform {
            from: o.from,
            num_partitions: o.num_partitions,
            columns: o.columns,
        })),
        TransformationOp::Coalesce(o) => Ok(Source::Coalesce(CoalesceTransform { from: o.from, num_partitions: o.num_partitions })),
        TransformationOp::Custom(o) => Ok(Source::Custom(CustomTransform { from: o.from, component: o.component, options: o.options })),
        TransformationOp::Offset(o) => Ok(Source::Offset(OffsetTransform { from: o.from, count: o.count })),
        TransformationOp::Tail(o) => Ok(Source::Tail(TailTransform { from: o.from, count: o.count })),
        TransformationOp::FillNa(o) => Ok(Source::FillNa(FillNaTransform {
            from: o.from,
            columns: o.columns,
            value: o.value,
            values: o.values,
        })),
        TransformationOp::DropNa(o) => {
            let how = match parse_drop_na_how(&o.how) {
                Ok(h) => h,
                Err(e) => return Err(e),
            };
            Ok(Source::DropNa(DropNaTransform { from: o.from, columns: o.columns, how, min_non_nulls: o.min_non_nulls }))
        },
        TransformationOp::Replace(o) => {
            let mappings = rewrite_replacements(o.mappings);
            Ok(Source::Replace(ReplaceTransform { from: o.from, columns: o.columns, mappings }))
        },
        TransformationOp::Merge(o) => {
            let when_matched = match rewrite_merge_actions(o.when_matched) {
                Ok(a) => a,
                Err(e) => return Err(e),
            };
            let when_not_matched = match rewrite_merge_actions(o.when_not_matched) {
                Ok(a) => a,
                Err(e) => return Err(e),
            };
            let when_not_matched_by_source = match rewrite_merge_actions(o.when_not_matched_by_source) {
                Ok(a) => a,
                Err(e) => return Err(e),
            };
            Ok(Source::Merge(MergeTransform {
                target: o.target,
                source: o.source,
                on: o.on,
                when_matched,
                when_not_matched,
                when_not_matched_by_source,
            }))
        },
        TransformationOp::Parse(o) => {
            let format = match parse_parse_format(o.format.as_str()) {
                Ok(f) => f,
                Err(e) => return Err(e),
            };
            let schema = match &o.schema {
                Some(v) => Some(rewrite_schema_columns(v)),
                None => None,
            };
            Ok(Source::Parse(ParseTransform { from: o.from, column: o.column, format, schema, options: o.options }))
        },
        TransformationOp::AsOfJoin(o) => {
            let join_type = match parse_opt_join_type(&o.join_type, JoinType::Left) {
                Ok(t) => t,
                Err(e) => return Err(e),
            };
            let direction = match parse_as_of_direction(&o.direction) {
                Ok(d) => d,
                Err(e) => return Err(e),
            };
            Ok(Source::AsOfJoin(AsOfJoinTransform {
                left: o.left,
                right: o.right,
                left_as_of: o.left_as_of,
                right_as_of: o.right_as_of,
                on: o.on,
                join_type,
                direction,
                tolerance: o.tolerance,
                allow_exact_matches: o.allow_exact_matches,
            }))
        },
        TransformationOp::LateralJoin(o) => {
            let join_type = match parse_opt_join_type(&o.join_type, JoinType::Inner) {
                Ok(t) => t,
                Err(e) => return Err(e),
            };
            Ok(Source::LateralJoin(LateralJoinTransform { left: o.left, right: o.right, join_type, on: o.on }))
        },
        TransformationOp::Transpose(o) => Ok(Source::Transpose(TransposeTransform { from: o.from, index_columns: o.index_columns })),
        TransformationOp::GroupingSets(o) => Ok(Source::GroupingSets(GroupingSetsTransform { from: o.from, sets: o.sets, agg: o.agg })),
        TransformationOp::Describe(o) => Ok(Source::Describe(DescribeTransform {
            from: o.from,
            columns: o.columns,
            statistics: o.statistics,
        })),
        TransformationOp::Crosstab(o) => Ok(Source::Crosstab(CrosstabTransform { from: o.from, col1: o.col1, col2: o.col2 })),
        TransformationOp::Hint(o) => {
            let hints = rewrite_hint_specs(o.hints);
            Ok(Source::Hint(HintTransform { from: o.from, hints }))
        },
    }
}

// ── Assets built from the document ───────────────────────────────

/// Strings written as an optional list: the list, or none.
pub open spec fn opt_strings(o: Option<Vec<String>>) -> Seq<String> {
    match o {
        Some(v) => v@,
        None => Seq::empty(),
    }
}

/// Metadata written as an optional map: the map, or an empty one.
pub open spec fn opt_meta(o: Option<BTreeMap<String, YamlValue>>) -> Map<String, YamlValue> {
    match o {
        Some(m) => m@,
        None => Map::empty(),
    }
}

pub open spec fn owner_of(o: Option<OwnerDef>) -> Option<Owner> {
    match o {
        Some(x) => Some(Owner { name: x.name, email: x.email, owner_type: x.owner_type }),
        None => None,
    }
}

/// Column documentation `c` is what `d` writes.
pub open spec fn column_ok(c: ColumnMetadata, d: ColumnMetadataDef) -> bool {
    &&& c.name == d.name
    &&& c.description == d.description
    &&& c.tags@ == opt_strings(d.tags)
    &&& c.constraints@ == opt_strings(d.constraints)
    &&& c.meta@ == opt_meta(d.meta)
    &&& c.glossary_term is None
}

pub open spec fn opt_columns(o: Option<Vec<ColumnMetadataDef>>) -> Seq<ColumnMetadataDef> {
    match o {
        Some(v) => v@,
        None => Seq::empty(),
    }
}

/// Input asset `a` is what input `d` writes.
pub open spec fn input_asset_ok(a: Asset, d: InputDef) -> bool {
    &&& a.asset_ref == d.name
    &&& a.source == Source::Input(InputSource { format: d.format, path: d.path, options: d.options })
    &&& a.metadata.description == d.description
    &&& a.metadata.tags@ == opt_strings(d.tags)
    &&& a.metadata.remove_tags@.len() == 0
    &&& a.metadata.meta@ == opt_meta(d.meta)
    &&& a.metadata.owner == owner_of(d.owner)
    &&& a.metadata.columns@.len() == opt_columns(d.columns).len()
    &&& forall|i: int| 0 <= i < a.metadata.columns@.len()
        ==> column_ok(#[trigger] a.metadata.columns@[i], opt_columns(d.columns)[i])
    &&& a.metadata.freshness is None
    &&& a.metadata.maturity is None
}

/// Metadata `m` of an asset made by transformation `t`.
pub open spec fn trans_meta_ok(m: AssetMetadata, t: RawTransformation) -> bool {
    &&& m.description == t.description
    &&& m.tags@ == opt_strings(t.tags)
    &&& m.remove_tags@ == opt_strings(t.remove_tags)
    &&& m.meta@ == opt_meta(t.meta)
    &&& m.owner is None
    &&& m.columns@.len() == 0
    &&& m.freshness is None
    &&& m.maturity is None
}

/// The key of the asset of output `name`.
pub open spec fn output_key(name: Seq<char>) -> Seq<char> {
    "output_"@ + name
}

/// Output asset `a` is what output `o` writes.
pub open spec fn output_asset_ok(a: Asset, o: OutputDef) -> bool {
    &&& a.asset_ref@ == output_key(o.name@)
    &&& write_mode_of(o.mode@) matches Some(mode)
    &&& a.source == Source::Output(OutputSource {
        asset_ref: o.name,
        format: o.format,
        path: o.path,
        mode,
        options: o.options,
    })
    &&& a.metadata.description == o.description
    &&& a.metadata.tags@ == opt_strings(o.tags)
    &&& a.metadata.remove_tags@.len() == 0
    &&& a.metadata.meta@ == opt_meta(o.meta)
    &&& a.metadata.owner is None
    &&& a.metadata.columns@.len() == 0
    &&& a.metadata.freshness == o.freshness
    &&& a.metadata.maturity == o.maturity
}

pub(crate) fn some_or_empty(o: Option<Vec<String>>) -> (r: Vec<String>)
    ensures
        r@ == opt_strings(o),
{
    match o {
        Some(v) => v,
        None => Vec::new(),
    }
}

fn copy_strings(o: &Option<Vec<String>>) -> (r: Vec<String>)
    ensures
        r@ == opt_strings(*o),
{
    match o {
        Some(v) => copy_names(v),
        None => Vec::new(),
    }
}

pub(crate) fn meta_or_empty(o: Option<BTreeMap<String, YamlValue>>) -> (r: BTreeMap<String, YamlValue>)
    ensures
        r@ == opt_meta(o),
{
    match o {
        Some(m) => m,
        None => BTreeMap::new(),
    }
}

fn copy_meta(o: &Option<BTreeMap<String, YamlValue>>) -> (r: BTreeMap<String, YamlValue>)
    ensures
        r@ == opt_meta(*o),
{
    match o {
        Some(m) => m.clone(),
        None => BTreeMap::new(),
    }
}

pub(crate) fn rewrite_owner(o: Option<OwnerDef>) -> (r: Option<Owner>)
    ensures
        r == owner_of(o),
{
    match o {
        Some(x) => Some(Owner { name: x.name, email: x.email, owner_type: x.owner_type }),
        None => None,
    }
}

fn rewrite_column_metadata(d: ColumnMetadataDef) -> (r: ColumnMetadata)
    ensures
        column_ok(r, d),
{
    ColumnMetadata {
        name: d.name,
        description: d.description,
        tags: some_or_empty(d.tags),
        constraints: some_or_empty(d.constraints),
        meta: meta_or_empty(d.meta),
        glossary_term: None,
    }
}

fn rewrite_columns(o: Option<Vec<ColumnMetadataDef>>) -> (r: Vec<ColumnMetadata>)
    ensures
        r@.len() == opt_columns(o).len(),
        forall|i: int| 0 <= i < r@.len() ==> column_ok(#[trigger] r@[i], opt_columns(o)[i]),
{
    let mut out: Vec<ColumnMetadata> = Vec::new();
    match o {
        None => {},
        Some(v) => {
            let ghost orig = v@;
            let mut rest = v;
            while rest.len() > 0
                invariant
                    orig == v@,
                    out@.len() + rest@.len() == orig.len(),
                    rest@ == orig.subrange(out@.len() as int, orig.len() as int),
                    forall|i: int| 0 <= i < out@.len() ==> column_ok(#[trigger] out@[i], orig[i]),
                decreases rest@.len(),
            {
                let d = rest.remove(0);
                assert(d == orig[out@.len() as int]);
                out.push(rewrite_column_metadata(d));
                assert(rest@ =~= orig.subrange(out@.len() as int, orig.len() as int));
            }
        },
    }
    out
}

/// The asset of an input.
fn input_asset(d: InputDef) -> (r: Asset)
    ensures
        input_asset_ok(r, d),
{
    let metadata = AssetMetadata {
        description: d.description,
        tags: some_or_empty(d.tags),
        remove_tags: Vec::new(),
        meta: meta_or_empty(d.meta),
        owner: rewrite_owner(d.owner),
        columns: rewrite_columns(d.columns),
        freshness: None,
        maturity: None,
    };
    Asset {
        asset_ref: d.name,
        source: Source::Input(InputSource { format: d.format, path: d.path, options: d.options }),
        metadata,
    }
}

/// The metadata of an asset made by a transformation.
fn transformation_metadata(
    description: &Option<String>,
    tags: &Option<Vec<String>>,
    remove_tags: &Option<Vec<String>>,
    meta: &Option<BTreeMap<String, YamlValue>>,
) -> (r: AssetMetadata)
    ensures
        r.description == *description,
        r.tags@ == opt_strings(*tags),
        r.remove_tags@ == opt_strings(*remove_tags),
        r.meta@ == opt_meta(*meta),
        r.owner is None,
        r.columns@.len() == 0,
        r.freshness is None,
        r.maturity is None,
{
    AssetMetadata {
        description: copy_opt(description),
        tags: copy_strings(tags),
        remove_tags: copy_strings(remove_tags),
        meta: copy_meta(meta),
        owner: None,
        columns: Vec::new(),
        freshness: None,
        maturity: None,
    }
}

/// The asset of an output, or `E-MODE-001` for an unknown write mode.
fn output_asset(o: OutputDef) -> (r: Result<(AssetRef, Asset), TeckelError>)
    ensures
        match write_mode_of(o.mode@) {
            Some(_) => r matches Ok((k, a)) && k@ == output_key(o.name@) && output_asset_ok(a, o),
            None => r matches Err(e) && is_spec_error(e, TeckelErrorCode::EMode001, write_mode_message(o.mode@)),
        },
{
    let mode = match parse_write_mode(o.mode.as_str()) {
        Ok(m) => m,
        Err(e) => return Err(e),
    };
    let mut key = String::new();
    push_str(&mut key, "output_");
    push_str(&mut key, o.name.as_str());
    let metadata = AssetMetadata {
        description: o.description,
        tags: some_or_empty(o.tags),
        remove_tags: Vec::new(),
        meta: meta_or_empty(o.meta),
        owner: None,
        columns: Vec::new(),
        freshness: o.freshness,
        maturity: o.maturity,
    };
    let asset = Asset {
        asset_ref: key.clone(),
        source: Source::Output(OutputSource {
            asset_ref: o.name,
            format: o.format,
            path: o.path,
            mode,
            options: o.options,
        }),
        metadata,
    };
    Ok((key, asset))
}

// ── The context of a document ────────────────────────────────────

/// Which definition of the document an asset of the context comes from.
pub enum Origin {
    Input(int),
    Transformation(int),
    SplitPass(int),
    SplitFail(int),
    Output(int),
}

/// One insertion into the context while rewriting: its key, whether a key already present is an
/// error, the error that stops the rewrite there if any, and where the asset comes from.
pub struct Step {
    pub key: Seq<char>,
    pub checked: bool,
    pub failure: Option<(TeckelErrorCode, Seq<char>)>,
    pub origin: Origin,
}

pub open spec fn duplicate_message(name: Seq<char>) -> Seq<char> {
    "duplicate AssetRef \""@ + name + "\""@
}

/// The transformations of a document.
pub open spec fn doc_transformations(doc: Document) -> Seq<RawTransformation> {
    match doc.transformation {
        Some(v) => v@,
        None => Seq::empty(),
    }
}

pub open spec fn input_steps(ins: Seq<InputDef>) -> Seq<Step> {
    Seq::new(ins.len(), |i: int| Step { key: ins[i].name@, checked: true, failure: None, origin: Origin::Input(i) })
}

/// The steps of transformation `t`, the `i`th of its document.
pub open spec fn transformation_steps(t: RawTransformation, i: int) -> Seq<Step> {
    match op_error(t.operation) {
        Some(msg) => seq![Step {
            key: t.name@,
            checked: true,
            failure: Some((TeckelErrorCode::EEnum001, msg)),
            origin: Origin::Transformation(i),
        }],
        None => match t.operation {
            TransformationOp::Split(o) => seq![
                Step { key: o.pass@, checked: true, failure: None, origin: Origin::SplitPass(i) },
                Step { key: o.fail@, checked: true, failure: None, origin: Origin::SplitFail(i) },
            ],
            _ => seq![Step { key: t.name@, checked: true, failure: None, origin: Origin::Transformation(i) }],
        },
    }
}

pub open spec fn all_transformation_steps(ts: Seq<RawTransformation>) -> Seq<Step>
    decreases ts.len(),
{
    if ts.len() == 0 {
        Seq::empty()
    } else {
        all_transformation_steps(ts.drop_last()) + transformation_steps(ts.last(), ts.len() - 1)
    }
}

pub open spec fn output_steps(outs: Seq<OutputDef>) -> Seq<Step> {
    Seq::new(outs.len(), |i: int| Step {
        key: output_key(outs[i].name@),
        checked: false,
        failure: if write_mode_of(outs[i].mode@) is None {
            Some((TeckelErrorCode::EMode001, write_mode_message(outs[i].mode@)))
        } else {
            None
        },
        origin: Origin::Output(i),
    })
}

/// Every insertion of a document, in order: inputs, then transformations, then outputs.
pub open spec fn doc_steps(doc: Document) -> Seq<Step> {
    input_steps(doc.input@) + all_transformation_steps(doc_transformations(doc)) + output_steps(doc.output@)
}

/// The first error of running `steps` with the keys `seen` already taken, if any.
pub open spec fn first_failure(steps: Seq<Step>, seen: Set<Seq<char>>) -> Option<(TeckelErrorCode, Seq<char>)>
    decreases steps.len(),
{
    if steps.len() == 0 {
        None
    } else if steps[0].failure is Some {
        steps[0].failure
    } else if steps[0].checked && seen.contains(steps[0].key) {
        Some((TeckelErrorCode::EName001, duplicate_message(steps[0].key)))
    } else {
        first_failure(steps.drop_first(), seen.insert(steps[0].key))
    }
}

/// Asset `a` is the one built by the definition that `o` names in `doc`.
pub open spec fn origin_ok(doc: Document, o: Origin, a: Asset) -> bool {
    match o {
        Origin::Input(i) => input_asset_ok(a, doc.input@[i]),
        Origin::Transformation(i) => {
            let t = doc_transformations(doc)[i];
            &&& a.asset_ref == t.name
            &&& rewrites_to(t.operation, a.source)
            &&& trans_meta_ok(a.metadata, t)
        },
        Origin::SplitPass(i) => {
            let t = doc_transformations(doc)[i];
            &&& t.operation matches TransformationOp::Split(o)
            &&& a.asset_ref == o.pass
            &&& a.source == Source::Where(WhereTransform { from: o.from, filter: o.condition })
            &&& trans_meta_ok(a.metadata, t)
        },
        Origin::SplitFail(i) => {
            let t = doc_transformations(doc)[i];
            &&& t.operation matches TransformationOp::Split(o)
            &&& a.asset_ref == o.fail
            &&& a.source matches Source::Where(w)
            &&& w.from == o.from
            &&& w.filter@ == "NOT("@ + o.condition@ + ")"@
            &&& trans_meta_ok(a.metadata, t)
        },
        Origin::Output(i) => output_asset_ok(a, doc.output@[i]),
    }
}

/// Is step `j` the last of `steps` with its key?
pub open spec fn last_with_key(steps: Seq<Step>, j: int) -> bool {
    forall|j2: int| j < j2 < steps.len() ==> (#[trigger] steps[j2]).key != steps[j].key
}

/// Context `c` holds exactly the keys of `steps`, each with the asset of its last step.
pub open spec fn built_by(c: Seq<(Seq<char>, Asset)>, doc: Document, steps: Seq<Step>) -> bool {
    &&& forall|k: Seq<char>| has_key(c, k) <==> exists|j: int| 0 <= j < steps.len() && (#[trigger] steps[j]).key == k
    &&& forall|j: int| 0 <= j < steps.len() && last_with_key(steps, j)
        ==> (lookup(c, (#[trigger] steps[j]).key) matches Some(a) && origin_ok(doc, steps[j].origin, a))
}

/// The keys of a context.
pub open spec fn key_set(c: Seq<(Seq<char>, Asset)>) -> Set<Seq<char>> {
    Set::new(|k: Seq<char>| has_key(c, k))
}

/// The context after the first `pos` steps, with the rest of the steps still to come.
pub open spec fn progress(c: Seq<(Seq<char>, Asset)>, doc: Document, pos: int) -> bool {
    let steps = doc_steps(doc);
    &&& 0 <= pos <= steps.len()
    &&& first_failure(steps, Set::empty()) == first_failure(steps.subrange(pos, steps.len() as int), key_set(c))
    &&& built_by(c, doc, steps.subrange(0, pos))
}

proof fn lemma_progress_start(doc: Document)
    ensures
        progress(Seq::empty(), doc, 0),
{
    let steps = doc_steps(doc);
    assert(steps.subrange(0, steps.len() as int) =~= steps);
    assert(key_set(Seq::empty()) =~= Set::<Seq<char>>::empty());
}

/// A step that succeeds and puts asset `a` under its key keeps the progress.
proof fn lemma_progress_step(
    c0: Seq<(Seq<char>, Asset)>,
    c1: Seq<(Seq<char>, Asset)>,
    doc: Document,
    pos: int,
    a: Asset,
)
    requires
        progress(c0, doc, pos),
        pos < doc_steps(doc).len(),
        doc_steps(doc)[pos].failure is None,
        !(doc_steps(doc)[pos].checked && has_key(c0, doc_steps(doc)[pos].key)),
        origin_ok(doc, doc_steps(doc)[pos].origin, a),
        lookup(c1, doc_steps(doc)[pos].key) == Some(a),
        forall|k2: Seq<char>| k2 != doc_steps(doc)[pos].key ==> lookup(c1, k2) == lookup(c0, k2),
    ensures
        progress(c1, doc, pos + 1),
{
    let steps = doc_steps(doc);
    let st = steps[pos];
    let rest = steps.subrange(pos, steps.len() as int);
    assert(rest[0] == st);
    assert(rest.drop_first() =~= steps.subrange(pos + 1, steps.len() as int));
    assert(key_set(c1) =~= key_set(c0).insert(st.key)) by {
        assert forall|k: Seq<char>| key_set(c1).contains(k) <==> key_set(c0).insert(st.key).contains(k) by {
            if k != st.key {
                assert(lookup(c1, k) == lookup(c0, k));
            }
        }
    }
    let p0 = steps.subrange(0, pos);
    let p1 = steps.subrange(0, pos + 1);
    assert forall|k: Seq<char>| has_key(c1, k) <==> exists|j: int| 0 <= j < p1.len() && (#[trigger] p1[j]).key == k by {
        if k == st.key {
            assert(p1[pos] == st);
        } else {
            assert(lookup(c1, k) == lookup(c0, k));
            if has_key(c0, k) {
                let j = choose|j: int| 0 <= j < p0.len() && (#[trigger] p0[j]).key == k;
                assert(p1[j] == p0[j]);
            }
            if exists|j: int| 0 <= j < p1.len() && (#[trigger] p1[j]).key == k {
                let j = choose|j: int| 0 <= j < p1.len() && (#[trigger] p1[j]).key == k;
                assert(j != pos);
                assert(p0[j] == p1[j]);
            }
        }
    }
    assert forall|j: int| 0 <= j < p1.len() && last_with_key(p1, j)
        implies (lookup(c1, (#[trigger] p1[j]).key) matches Some(b) && origin_ok(doc, p1[j].origin, b)) by {
        if j == pos {
            assert(p1[j] == st);
        } else {
            assert(p1[j] == p0[j]);
            assert(p1[pos] == st);
            assert(p1[j].key != st.key);
            assert(last_with_key(p0, j)) by {
                assert forall|j2: int| j < j2 < p0.len() implies (#[trigger] p0[j2]).key != p0[j].key by {
                    assert(p0[j2] == p1[j2]);
                }
            }
        }
    }
}

/// A step that fails, or takes a key already present, ends the run with its error.
proof fn lemma_progress_fail(c: Seq<(Seq<char>, Asset)>, doc: Document, pos: int)
    requires
        progress(c, doc, pos),
        pos < doc_steps(doc).len(),
        doc_steps(doc)[pos].failure is Some || (doc_steps(doc)[pos].checked && has_key(c, doc_steps(doc)[pos].key)),
    ensures
        first_failure(doc_steps(doc), Set::empty()) == if doc_steps(doc)[pos].failure is Some {
            doc_steps(doc)[pos].failure
        } else {
            Some((TeckelErrorCode::EName001, duplicate_message(doc_steps(doc)[pos].key)))
        },
{
    let steps = doc_steps(doc);
    let rest = steps.subrange(pos, steps.len() as int);
    assert(rest[0] == steps[pos]);
    assert(key_set(c).contains(steps[pos].key) == has_key(c, steps[pos].key));
}

/// The steps of the first `i` transformations come first among the steps of all of them.
proof fn lemma_transformation_prefix(ts: Seq<RawTransformation>, i: int)
    requires
        0 <= i <= ts.len(),
    ensures
        all_transformation_steps(ts.subrange(0, i)).len() <= all_transformation_steps(ts).len(),
        all_transformation_steps(ts) =~= all_transformation_steps(ts.subrange(0, i))
            + all_transformation_steps(ts).subrange(
            all_transformation_steps(ts.subrange(0, i)).len() as int,
            all_transformation_steps(ts).len() as int,
        ),
        i < ts.len() ==> all_transformation_steps(ts.subrange(0, i + 1))
            == all_transformation_steps(ts.subrange(0, i)) + transformation_steps(ts[i], i),
    decreases ts.len() - i,
{
    if i < ts.len() {
        let a = ts.subrange(0, i + 1);
        assert(a.drop_last() =~= ts.subrange(0, i));
        assert(a.last() == ts[i]);
        lemma_transformation_prefix(ts, i + 1);
    } else {
        assert(ts.subrange(0, i) =~= ts);
    }
}

/// Where the steps of the `j`th transformation stand among the steps of the document.
proof fn lemma_transformation_step_at(doc: Document, j: int, k: int)
    requires
        0 <= j < doc_transformations(doc).len(),
        0 <= k < transformation_steps(doc_transformations(doc)[j], j).len(),
    ensures
        ({
            let ts = doc_transformations(doc);
            let pos = doc.input@.len() + all_transformation_steps(ts.subrange(0, j)).len() + k;
            &&& pos < doc_steps(doc).len()
            &&& doc_steps(doc)[pos] == transformation_steps(ts[j], j)[k]
            &&& all_transformation_steps(ts.subrange(0, j + 1)).len()
                == all_transformation_steps(ts.subrange(0, j)).len() + transformation_steps(ts[j], j).len()
        }),
{
    let ts = doc_transformations(doc);
    lemma_transformation_prefix(ts, j);
    lemma_transformation_prefix(ts, j + 1);
    let a = all_transformation_steps(ts.subrange(0, j));
    let b = all_transformation_steps(ts.subrange(0, j + 1));
    let all = all_transformation_steps(ts);
    assert(all[a.len() + k] == b[a.len() + k]);
}

fn duplicate_error(name: &str) -> (e: TeckelError)
    ensures
        is_spec_error(e, TeckelErrorCode::EName001, duplicate_message(name@)),
{
    let mut m = String::new();
    push_str(&mut m, "duplicate AssetRef \"");
    push_str(&mut m, name);
    push_str(&mut m, "\"");
    TeckelError::spec(TeckelErrorCode::EName001, m)
}

proof fn lemma_input_step_at(doc: Document, i: int)
    requires
        0 <= i < doc.input@.len(),
    ensures
        i < doc_steps(doc).len(),
        doc_steps(doc)[i] == input_steps(doc.input@)[i],
        doc_steps(doc)[i] == (Step { key: doc.input@[i].name@, checked: true, failure: None, origin: Origin::Input(i) }),
{
}

proof fn lemma_output_step_at(doc: Document, i: int)
    requires
        0 <= i < doc.output@.len(),
    ensures
        ({
            let pos = doc.input@.len() + all_transformation_steps(doc_transformations(doc)).len() + i;
            &&& pos < doc_steps(doc).len()
            &&& doc_steps(doc)[pos] == output_steps(doc.output@)[i]
        }),
{
}

/// Inserts the asset of each input, in order.
#[verifier::spinoff_prover]
#[verifier::rlimit(40)]
fn add_inputs(ctx: &mut Context, input: Vec<InputDef>, Ghost(doc): Ghost<Document>) -> (r: Result<(), TeckelError>)
    requires
        progress(old(ctx)@, doc, 0),
        input@ == doc.input@,
    ensures
        match r {
            Ok(()) => progress(final(ctx)@, doc, doc.input@.len() as int),
            Err(e) => first_failure(doc_steps(doc), Set::empty()) matches Some((code, msg))
                && is_spec_error(e, code, msg),
        },
{
    let n = input.len();
    let mut ins = input;
    let mut i: usize = 0;
    while ins.len() > 0
        invariant
            progress(ctx@, doc, i as int),
            n == doc.input@.len(),
            i + ins@.len() == n,
            ins@ == doc.input@.subrange(i as int, n as int),
        decreases ins@.len(),
    {
        let d = ins.remove(0);
        assert(d == doc.input@[i as int]);
        assert(ins@ =~= doc.input@.subrange(i + 1, n as int));
        proof {
            lemma_input_step_at(doc, i as int);
        }
        let name = d.name.clone();
        if ctx.contains_key(name.as_str()) {
            proof {
                lemma_progress_fail(ctx@, doc, i as int);
            }
            return Err(duplicate_error(name.as_str()));
        }
        let a = input_asset(d);
        let ghost ga = a;
        let ghost c0 = ctx@;
        ctx.insert(name, a);
        proof {
            lemma_progress_step(c0, ctx@, doc, i as int, ga);
        }
        i = i + 1;
    }
    Ok(())
}

/// The condition of the failing branch of a split.
fn negated(cond: &str) -> (r: String)
    ensures
        r@ == "NOT("@ + cond@ + ")"@,
{
    let mut m = String::new();
    push_str(&mut m, "NOT(");
    push_str(&mut m, cond);
    push_str(&mut m, ")");
    m
}

/// Inserts the assets of one transformation, the `j`th of the document.
#[verifier::spinoff_prover]
#[verifier::rlimit(40)]
fn add_transformation(
    ctx: &mut Context,
    t: RawTransformation,
    j: usize,
    Ghost(doc): Ghost<Document>,
    Ghost(pos): Ghost<int>,
) -> (r: Result<(), TeckelError>)
    requires
        0 <= j < doc_transformations(doc).len(),
        t == doc_transformations(doc)[j as int],
        pos == doc.input@.len() + all_transformation_steps(doc_transformations(doc).subrange(0, j as int)).len(),
        progress(old(ctx)@, doc, pos),
    ensures
        match r {
            Ok(()) => progress(
                final(ctx)@,
                doc,
                (doc.input@.len() + all_transformation_steps(doc_transformations(doc).subrange(0, j + 1)).len()) as int,
            ),
            Err(e) => first_failure(doc_steps(doc), Set::empty()) matches Some((code, msg))
                && is_spec_error(e, code, msg),
        },
{
    let ghost tg = t;
    let ghost steps = transformation_steps(tg, j as int);
    proof {
        lemma_transformation_step_at(doc, j as int, 0);
    }
    let RawTransformation { name, description, tags, remove_tags, meta, operation } = t;
    let source = match rewrite_transformation(operation) {
        Ok(s) => s,
        Err(e) => {
            proof {
                lemma_progress_fail(ctx@, doc, pos);
            }
            return Err(e);
        },
    };
    match source {
        Source::Split(sp) => {
            assert(tg.operation is Split);
            assert(steps.len() == 2);
            proof {
                lemma_transformation_step_at(doc, j as int, 1);
            }
            if ctx.contains_key(sp.pass.as_str()) {
                proof {
                    lemma_progress_fail(ctx@, doc, pos);
                }
                return Err(duplicate_error(sp.pass.as_str()));
            }
            let pass_asset = Asset {
                asset_ref: sp.pass.clone(),
                source: Source::Where(WhereTransform { from: sp.from.clone(), filter: sp.condition.clone() }),
                metadata: transformation_metadata(&description, &tags, &remove_tags, &meta),
            };
            let ghost pa = pass_asset;
            let ghost c0 = ctx@;
            ctx.insert(sp.pass.clone(), pass_asset);
            proof {
                lemma_progress_step(c0, ctx@, doc, pos, pa);
            }
            if ctx.contains_key(sp.fail.as_str()) {
                proof {
                    lemma_progress_fail(ctx@, doc, pos + 1);
                }
                return Err(duplicate_error(sp.fail.as_str()));
            }
            let fail_asset = Asset {
                asset_ref: sp.fail.clone(),
                source: Source::Where(WhereTransform { from: sp.from, filter: negated(sp.condition.as_str()) }),
                metadata: transformation_metadata(&description, &tags, &remove_tags, &meta),
            };
            let ghost fa = fail_asset;
            let ghost c1 = ctx@;
            ctx.insert(sp.fail, fail_asset);
            proof {
                lemma_progress_step(c1, ctx@, doc, pos + 1, fa);
            }
            Ok(())
        },
        other => {
            assert(!(tg.operation is Split));
            assert(steps.len() == 1);
            if ctx.contains_key(name.as_str()) {
                proof {
                    lemma_progress_fail(ctx@, doc, pos);
                }
                return Err(duplicate_error(name.as_str()));
            }
            let asset = Asset {
                asset_ref: name.clone(),
                source: other,
                metadata: transformation_metadata(&description, &tags, &remove_tags, &meta),
            };
            let ghost ga = asset;
            let ghost c0 = ctx@;
            ctx.insert(name, asset);
            proof {
                lemma_progress_step(c0, ctx@, doc, pos, ga);
            }
            Ok(())
        },
    }
}

/// Inserts the assets of each transformation, in order.
#[verifier::spinoff_prover]
#[verifier::rlimit(40)]
fn add_transformations(
    ctx: &mut Context,
    transformation: Option<Vec<RawTransformation>>,
    Ghost(doc): Ghost<Document>,
) -> (r: Result<(), TeckelError>)
    requires
        transformation == doc.transformation,
        progress(old(ctx)@, doc, doc.input@.len() as int),
    ensures
        match r {
            Ok(()) => progress(
                final(ctx)@,
                doc,
                (doc.input@.len() + all_transformation_steps(doc_transformations(doc)).len()) as int,
            ),
            Err(e) => first_failure(doc_steps(doc), Set::empty()) matches Some((code, msg))
                && is_spec_error(e, code, msg),
        },
{
    let mut ts = match transformation {
        Some(v) => v,
        None => Vec::new(),
    };
    let ghost all = doc_transformations(doc);
    assert(ts@ == all);
    let n = ts.len();
    let mut j: usize = 0;
    assert(all.subrange(0, 0) =~= Seq::<RawTransformation>::empty());
    while ts.len() > 0
        invariant
            all == doc_transformations(doc),
            n == all.len(),
            j + ts@.len() == n,
            ts@ == all.subrange(j as int, n as int),
            progress(ctx@, doc, (doc.input@.len() + all_transformation_steps(all.subrange(0, j as int)).len()) as int),
        decreases ts@.len(),
    {
        let t = ts.remove(0);
        assert(t == all[j as int]);
        assert(ts@ =~= all.subrange(j + 1, n as int));
        match add_transformation(
            ctx,
            t,
            j,
            Ghost(doc),
            Ghost((doc.input@.len() + all_transformation_steps(all.subrange(0, j as int)).len()) as int),
        ) {
            Ok(()) => {},
            Err(e) => return Err(e),
        }
        j = j + 1;
    }
    assert(all.subrange(0, n as int) =~= all);
    Ok(())
}

/// Inserts the asset of each output, in order; an output's key may replace an asset.
#[verifier::spinoff_prover]
#[verifier::rlimit(40)]
fn add_outputs(ctx: &mut Context, output: Vec<OutputDef>, Ghost(doc): Ghost<Document>) -> (r: Result<(), TeckelError>)
    requires
        output@ == doc.output@,
        progress(old(ctx)@, doc, (doc.input@.len() + all_transformation_steps(doc_transformations(doc)).len()) as int),
    ensures
        match r {
            Ok(()) => progress(final(ctx)@, doc, doc_steps(doc).len() as int),
            Err(e) => first_failure(doc_steps(doc), Set::empty()) matches Some((code, msg))
                && is_spec_error(e, code, msg),
        },
{
    let ghost base = doc.input@.len() + all_transformation_steps(doc_transformations(doc)).len();
    let n = output.len();
    let mut outs = output;
    let mut i: usize = 0;
    while outs.len() > 0
        invariant
            base == doc.input@.len() + all_transformation_steps(doc_transformations(doc)).len(),
            base + n == doc_steps(doc).len(),
            n == doc.output@.len(),
            i + outs@.len() == n,
            outs@ == doc.output@.subrange(i as int, n as int),
            progress(ctx@, doc, base + i),
        decreases outs@.len(),
    {
        let o = outs.remove(0);
        assert(o == doc.output@[i as int]);
        assert(outs@ =~= doc.output@.subrange(i + 1, n as int));
        proof {
            lemma_output_step_at(doc, i as int);
        }
        let (key, a) = match output_asset(o) {
            Ok(x) => x,
            Err(e) => {
                proof {
                    lemma_progress_fail(ctx@, doc, base + i);
                }
                return Err(e);
            },
        };
        let ghost ga = a;
        let ghost c0 = ctx@;
        ctx.insert(key, a);
        proof {
            lemma_progress_step(c0, ctx@, doc, base + i, ga);
        }
        i = i + 1;
    }
    Ok(())
}

/// Rewrites a document into its asset context: inputs, then transformations, then outputs.
///
/// A split gives two assets, its passing and its failing rows; an output's asset is keyed
/// `output_` and its name. The first error, in that order, is returned: a duplicate name
/// (`E-NAME-001`), an unknown join type (`E-ENUM-001`) or an unknown write mode (`E-MODE-001`).
#[verifier::spinoff_prover]
#[verifier::rlimit(40)]
pub fn to_context(doc: Document) -> (r: Result<Context, TeckelError>)
    ensures
        match first_failure(doc_steps(doc), Set::empty()) {
            Some((code, msg)) => r matches Err(e) && is_spec_error(e, code, msg),
            None => r matches Ok(c) && built_by(c@, doc, doc_steps(doc)),
        },
{
    let ghost d = doc;
    let Document { version: _, input, transformation, output, .. } = doc;
    let mut ctx = Context::new();
    proof {
        lemma_progress_start(d);
    }
    match add_inputs(&mut ctx, input, Ghost(d)) {
        Ok(()) => {},
        Err(e) => return Err(e),
    }
    match add_transformations(&mut ctx, transformation, Ghost(d)) {
        Ok(()) => {},
        Err(e) => return Err(e),
    }
    match add_outputs(&mut ctx, output, Ghost(d)) {
        Ok(()) => {},
        Err(e) => return Err(e),
    }
    proof {
        let steps = doc_steps(d);
        assert(steps.subrange(steps.len() as int, steps.len() as int) =~= Seq::<Step>::empty());
        assert(steps.subrange(0, steps.len() as int) =~= steps);
    }
    Ok(ctx)
}

/// Definitions `d1` and `d2` with the same inputs, transformations and outputs build the same
/// assets.
proof fn lemma_same_assets(d1: Document, d2: Document)
    requires
        d1.input == d2.input,
        d1.transformation == d2.transformation,
        d1.output == d2.output,
    ensures
        doc_steps(d1) == doc_steps(d2),
        forall|c: Seq<(Seq<char>, Asset)>| #[trigger] built_by(c, d1, doc_steps(d1)) == built_by(c, d2, doc_steps(d2)),
{
    assert(doc_transformations(d1) == doc_transformations(d2));
    assert forall|o: Origin, a: Asset| #[trigger] origin_ok(d1, o, a) == origin_ok(d2, o, a) by {}
}

/// The errors of the pipeline-level sections: the first error among the quality suites, then
/// the first streaming output mode that names no mode.
pub open spec fn sections_error(doc: Document) -> Option<(TeckelErrorCode, Seq<char>)> {
    match first_suite_error(opt_seq(doc.quality)) {
        Some(e) => Some(e),
        None => match first_bad_output_mode(opt_seq(doc.streaming_output)) {
            Some(bad) => Some((TeckelErrorCode::EEnum001, output_mode_message(bad))),
            None => None,
        },
    }
}

/// The pipeline-level sections of `p` are those written in `doc`.
pub open spec fn sections_ok(p: Pipeline, doc: Document) -> bool {
    &&& metadata_ok(p.metadata, doc.pipeline)
    &&& config_ok(p.config, doc.config)
    &&& hooks_ok(p.hooks, doc.hooks)
    &&& p.secrets@ == secrets_of(doc.secrets)
    &&& p.quality@.len() == opt_seq(doc.quality).len()
    &&& forall|i: int| 0 <= i < p.quality@.len() ==> suite_ok(#[trigger] p.quality@[i], opt_seq(doc.quality)[i])
    &&& p.templates@ == opt_seq(doc.templates).map_values(|d: TemplateDef| template_of(d))
    &&& p.exposures@ == opt_seq(doc.exposures).map_values(|d: ExposureDef| exposure_of(d))
    &&& p.streaming_inputs@ == opt_seq(doc.streaming_input).map_values(|d: StreamingInputDef| streaming_input_of(d))
    &&& p.streaming_outputs@.len() == opt_seq(doc.streaming_output).len()
    &&& forall|i: int| 0 <= i < p.streaming_outputs@.len()
        ==> streaming_output_ok(#[trigger] p.streaming_outputs@[i], opt_seq(doc.streaming_output)[i])
}

/// The pipeline a document describes: its asset context (see `to_context`) and its
/// pipeline-level sections. The first error is returned: one of the context, then one of the
/// sections (see `sections_error`).
#[verifier::spinoff_prover]
pub fn to_pipeline(doc: Document) -> (r: Result<Pipeline, TeckelError>)
    ensures
        match first_failure(doc_steps(doc), Set::empty()) {
            Some((code, msg)) => r matches Err(e) && is_spec_error(e, code, msg),
            None => match sections_error(doc) {
                Some((code, msg)) => r matches Err(e) && is_spec_error(e, code, msg),
                None => r matches Ok(p) && built_by(p.context@, doc, doc_steps(doc)) && sections_ok(p, doc),
            },
        },
{
    let ghost d = doc;
    let Document {
        version,
        pipeline,
        config,
        secrets,
        hooks,
        quality,
        templates,
        input,
        streaming_input,
        transformation,
        output,
        streaming_output,
        exposures,
    } = doc;
    let core = Document {
        version,
        pipeline: None,
        config: None,
        secrets: None,
        hooks: None,
        quality: None,
        templates: None,
        input,
        streaming_input: None,
        transformation,
        output,
        streaming_output: None,
        exposures: None,
    };
    proof {
        lemma_same_assets(core, d);
    }
    let context = match to_context(core) {
        Ok(c) => c,
        Err(e) => return Err(e),
    };
    let quality = match rewrite_quality(quality) {
        Ok(q) => q,
        Err(e) => return Err(e),
    };
    let streaming_outputs = match rewrite_streaming_outputs(streaming_output) {
        Ok(o) => o,
        Err(e) => return Err(e),
    };
    Ok(Pipeline {
        context,
        metadata: rewrite_metadata(pipeline),
        config: rewrite_config(config),
        hooks: rewrite_hooks(hooks),
        quality,
        templates: rewrite_templates(templates),
        exposures: rewrite_exposures(exposures),
        streaming_inputs: rewrite_streaming_inputs(streaming_input),
        streaming_outputs,
        secrets: rewrite_secrets(secrets),
    })
}

} // verus!
