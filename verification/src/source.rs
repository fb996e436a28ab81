//! Where the data of an asset comes from: inputs, outputs and transformations.
use vstd::prelude::*;
use std::collections::BTreeMap;
use crate::types::{
    AsOfDirection, AssetRef, Column, Condition, DropNaHow, Expression, FloatBits, FrameType,
    JoinType, MergeActionType, OnError, OnFailure, Options, ParseFormat, Primitive,
    SchemaEnforceMode, SortColumn, WriteMode,
};

verus! {

/// The source of an asset's data.
#[derive(Debug, Clone, PartialEq)]
pub enum Source {
    Input(InputSource),
    Output(OutputSource),
    Select(SelectTransform),
    Where(WhereTransform),
    GroupBy(GroupByTransform),
    OrderBy(OrderByTransform),
    Join(JoinTransform),
    Union(UnionTransform),
    Intersect(IntersectTransform),
    Except(ExceptTransform),
    Distinct(DistinctTransform),
    Limit(LimitTransform),
    AddColumns(AddColumnsTransform),
    DropColumns(DropColumnsTransform),
    RenameColumns(RenameColumnsTransform),
    CastColumns(CastColumnsTransform),
    Window(WindowTransform),
    Pivot(PivotTransform),
    Unpivot(UnpivotTransform),
    Flatten(FlattenTransform),
    Sample(SampleTransform),
    Conditional(ConditionalTransform),
    Split(SplitTransform),
    Sql(SqlTransform),
    Rollup(RollupTransform),
    Cube(CubeTransform),
    Scd2(Scd2Transform),
    Enrich(EnrichTransform),
    SchemaEnforce(SchemaEnforceTransform),
    Assertion(AssertionTransform),
    Repartition(RepartitionTransform),
    Coalesce(CoalesceTransform),
    Custom(CustomTransform),
    Offset(OffsetTransform),
    Tail(TailTransform),
    FillNa(FillNaTransform),
    DropNa(DropNaTransform),
    Replace(ReplaceTransform),
    Merge(MergeTransform),
    Parse(ParseTransform),
    AsOfJoin(AsOfJoinTransform),
    LateralJoin(LateralJoinTransform),
    Transpose(TransposeTransform),
    GroupingSets(GroupingSetsTransform),
    Describe(DescribeTransform),
    Crosstab(CrosstabTransform),
    Hint(HintTransform),
}

#[derive(Debug, Clone, PartialEq)]
pub struct InputSource {
    pub format: String,
    pub path: String,
    pub options: Options,
}

#[derive(Debug, Clone, PartialEq)]
pub struct OutputSource {
    pub asset_ref: AssetRef,
    pub format: String,
    pub path: String,
    pub mode: WriteMode,
    pub options: Options,
}

#[derive(Debug, Clone, PartialEq)]
pub struct SelectTransform {
    pub from: AssetRef,
    pub columns: Vec<Expression>,
}

#[derive(Debug, Clone, PartialEq)]
pub struct WhereTransform {
    pub from: AssetRef,
    pub filter: Condition,
}

#[derive(Debug, Clone, PartialEq)]
pub struct GroupByTransform {
    pub from: AssetRef,
    pub by: Vec<Column>,
    pub agg: Vec<Expression>,
}

#[derive(Debug, Clone, PartialEq)]
pub struct OrderByTransform {
    pub from: AssetRef,
    pub columns: Vec<SortColumn>,
}

#[derive(Debug, Clone, PartialEq)]
pub struct JoinTransform {
    pub left: AssetRef,
    pub right: Vec<JoinTarget>,
}

#[derive(Debug, Clone, PartialEq)]
pub struct JoinTarget {
    pub name: AssetRef,
    pub join_type: JoinType,
    pub on: Vec<Condition>,
}

#[derive(Debug, Clone, PartialEq)]
pub struct UnionTransform {
    pub sources: Vec<AssetRef>,
    pub all: bool,
    pub by_name: bool,
    pub allow_missing_columns: bool,
}

#[derive(Debug, Clone, PartialEq)]
pub struct IntersectTransform {
    pub sources: Vec<AssetRef>,
    pub all: bool,
    pub by_name: bool,
    pub allow_missing_columns: bool,
}

#[derive(Debug, Clone, PartialEq)]
pub struct ExceptTransform {
    pub left: AssetRef,
    pub right: AssetRef,
    pub all: bool,
    pub by_name: bool,
    pub allow_missing_columns: bool,
}

#[derive(Debug, Clone, PartialEq)]
pub struct DistinctTransform {
    pub from: AssetRef,
    pub columns: Option<Vec<Column>>,
}

#[derive(Debug, Clone, PartialEq)]
pub struct LimitTransform {
    pub from: AssetRef,
    pub count: u64,
}

#[derive(Debug, Clone, PartialEq)]
pub struct ColumnDef {
    pub name: String,
    pub expression: Expression,
}

#[derive(Debug, Clone, PartialEq)]
pub struct AddColumnsTransform {
    pub from: AssetRef,
    pub columns: Vec<ColumnDef>,
}

#[derive(Debug, Clone, PartialEq)]
pub struct DropColumnsTransform {
    pub from: AssetRef,
    pub columns: Vec<Column>,
}

#[derive(Debug, Clone, PartialEq)]
pub struct RenameColumnsTransform {
    pub from: AssetRef,
    pub mappings: BTreeMap<Column, String>,
}

#[derive(Debug, Clone, PartialEq)]
pub struct CastDef {
    pub name: Column,
    pub target_type: String,
}

#[derive(Debug, Clone, PartialEq)]
pub struct CastColumnsTransform {
    pub from: AssetRef,
    pub columns: Vec<CastDef>,
}

#[derive(Debug, Clone, PartialEq)]
pub struct WindowFuncDef {
    pub expression: Expression,
    pub alias: String,
}

/// A window frame: its type and its bounds.
#[derive(Debug, Clone, PartialEq)]
pub struct FrameSpec {
    pub frame_type: FrameType,
    pub start: String,
    pub end: String,
}

#[derive(Debug, Clone, PartialEq)]
pub struct WindowTransform {
    pub from: AssetRef,
    pub partition_by: Vec<Column>,
    pub order_by: Vec<SortColumn>,
    pub frame: FrameSpec,
    pub functions: Vec<WindowFuncDef>,
}

#[derive(Debug, Clone, PartialEq)]
pub struct PivotTransform {
    pub from: AssetRef,
    pub group_by: Vec<Column>,
    pub pivot_column: Column,
    pub values: Option<Vec<String>>,
    pub agg: Vec<Expression>,
}

#[derive(Debug, Clone, PartialEq)]
pub struct UnpivotTransform {
    pub from: AssetRef,
    pub ids: Vec<Column>,
    pub values: Vec<Column>,
    pub variable_column: String,
    pub value_column: String,
}

#[derive(Debug, Clone, PartialEq)]
pub struct FlattenTransform {
    pub from: AssetRef,
    pub separator: String,
    pub explode_arrays: bool,
}

/// Random sampling; the fraction is held by its bit pattern.
#[derive(Debug, Clone, PartialEq)]
pub struct SampleTransform {
    pub from: AssetRef,
    pub fraction: FloatBits,
    pub with_replacement: bool,
    pub seed: Option<i64>,
}

#[derive(Debug, Clone, PartialEq)]
pub struct Branch {
    pub condition: Condition,
    pub value: Expression,
}

#[derive(Debug, Clone, PartialEq)]
pub struct ConditionalTransform {
    pub from: AssetRef,
    pub output_column: String,
    pub branches: Vec<Branch>,
    pub otherwise: Option<Expression>,
}

#[derive(Debug, Clone, PartialEq)]
pub struct SplitTransform {
    pub from: AssetRef,
    pub condition: Condition,
    pub pass: AssetRef,
    pub fail: AssetRef,
}

#[derive(Debug, Clone, PartialEq)]
pub struct SqlTransform {
    pub query: String,
    pub views: Vec<AssetRef>,
}

#[derive(Debug, Clone, PartialEq)]
pub struct RollupTransform {
    pub from: AssetRef,
    pub by: Vec<Column>,
    pub agg: Vec<Expression>,
}

#[derive(Debug, Clone, PartialEq)]
pub struct CubeTransform {
    pub from: AssetRef,
    pub by: Vec<Column>,
    pub agg: Vec<Expression>,
}

#[derive(Debug, Clone, PartialEq)]
pub struct Scd2Transform {
    pub current: AssetRef,
    pub incoming: AssetRef,
    pub key_columns: Vec<Column>,
    pub track_columns: Vec<Column>,
    pub start_date_column: String,
    pub end_date_column: String,
    pub current_flag_column: String,
}

#[derive(Debug, Clone, PartialEq)]
pub struct EnrichTransform {
    pub from: AssetRef,
    pub url: String,
    pub method: String,
    pub key_column: Column,
    pub response_column: String,
    pub headers: BTreeMap<String, String>,
    pub on_error: OnError,
    pub timeout: u64,
    pub max_retries: u32,
}

#[derive(Debug, Clone, PartialEq)]
pub struct SchemaColumn {
    pub name: Column,
    pub data_type: String,
    pub nullable: bool,
    pub default: Option<Expression>,
}

#[derive(Debug, Clone, PartialEq)]
pub struct SchemaEnforceTransform {
    pub from: AssetRef,
    pub mode: SchemaEnforceMode,
    pub columns: Vec<SchemaColumn>,
}

#[derive(Debug, Clone, PartialEq)]
pub struct QualityCheck {
    pub column: Option<Column>,
    pub rule: String,
    pub description: Option<String>,
}

#[derive(Debug, Clone, PartialEq)]
pub struct AssertionTransform {
    pub from: AssetRef,
    pub checks: Vec<QualityCheck>,
    pub on_failure: OnFailure,
}

#[derive(Debug, Clone, PartialEq)]
pub struct RepartitionTransform {
    pub from: AssetRef,
    pub num_partitions: u32,
    pub columns: Vec<Column>,
}

#[derive(Debug, Clone, PartialEq)]
pub struct CoalesceTransform {
    pub from: AssetRef,
    pub num_partitions: u32,
}

#[derive(Debug, Clone, PartialEq)]
pub struct CustomTransform {
    pub from: AssetRef,
    pub component: String,
    pub options: BTreeMap<String, String>,
}

#[derive(Debug, Clone, PartialEq)]
pub struct OffsetTransform {
    pub from: AssetRef,
    pub count: u64,
}

#[derive(Debug, Clone, PartialEq)]
pub struct TailTransform {
    pub from: AssetRef,
    pub count: u64,
}

#[derive(Debug, Clone, PartialEq)]
pub struct FillNaTransform {
    pub from: AssetRef,
    pub columns: Option<Vec<Column>>,
    pub value: Option<Primitive>,
    pub values: Option<BTreeMap<Column, Primitive>>,
}

#[derive(Debug, Clone, PartialEq)]
pub struct DropNaTransform {
    pub from: AssetRef,
    pub columns: Option<Vec<Column>>,
    pub how: DropNaHow,
    pub min_non_nulls: Option<u32>,
}

#[derive(Debug, Clone, PartialEq)]
pub struct Replacement {
    pub old: Primitive,
    pub new: Primitive,
}

#[derive(Debug, Clone, PartialEq)]
pub struct ReplaceTransform {
    pub from: AssetRef,
    pub columns: Option<Vec<Column>>,
    pub mappings: Vec<Replacement>,
}

#[derive(Debug, Clone, PartialEq)]
pub struct MergeAction {
    pub action: MergeActionType,
    pub condition: Option<Condition>,
    pub set: Option<BTreeMap<Column, Expression>>,
    pub star: bool,
}

#[derive(Debug, Clone, PartialEq)]
pub struct MergeTransform {
    pub target: AssetRef,
    pub source: AssetRef,
    pub on: Vec<Condition>,
    pub when_matched: Vec<MergeAction>,
    pub when_not_matched: Vec<MergeAction>,
    pub when_not_matched_by_source: Vec<MergeAction>,
}

#[derive(Debug, Clone, PartialEq)]
pub struct ParseTransform {
    pub from: AssetRef,
    pub column: Column,
    pub format: ParseFormat,
    pub schema: Option<Vec<SchemaColumn>>,
    pub options: BTreeMap<String, String>,
}

#[derive(Debug, Clone, PartialEq)]
pub struct AsOfJoinTransform {
    pub left: AssetRef,
    pub right: AssetRef,
    pub left_as_of: Column,
    pub right_as_of: Column,
    pub on: Vec<Condition>,
    pub join_type: JoinType,
    pub direction: AsOfDirection,
    pub tolerance: Option<String>,
    pub allow_exact_matches: bool,
}

#[derive(Debug, Clone, PartialEq)]
pub struct LateralJoinTransform {
    pub left: AssetRef,
    pub right: AssetRef,
    pub join_type: JoinType,
    pub on: Vec<Condition>,
}

#[derive(Debug, Clone, PartialEq)]
pub struct TransposeTransform {
    pub from: AssetRef,
    pub index_columns: Vec<Column>,
}

#[derive(Debug, Clone, PartialEq)]
pub struct GroupingSetsTransform {
    pub from: AssetRef,
    pub sets: Vec<Vec<Column>>,
    pub agg: Vec<Expression>,
}

#[derive(Debug, Clone, PartialEq)]
pub struct DescribeTransform {
    pub from: AssetRef,
    pub columns: Option<Vec<Column>>,
    pub statistics: Option<Vec<String>>,
}

#[derive(Debug, Clone, PartialEq)]
pub struct CrosstabTransform {
    pub from: AssetRef,
    pub col1: Column,
    pub col2: Column,
}

#[derive(Debug, Clone, PartialEq)]
pub struct HintSpec {
    pub name: String,
    pub parameters: Vec<String>,
}

#[derive(Debug, Clone, PartialEq)]
pub struct HintTransform {
    pub from: AssetRef,
    pub hints: Vec<HintSpec>,
}

/// The texts of a sequence of strings.
pub open spec fn texts(v: Seq<String>) -> Seq<Seq<char>> {
    v.map_values(|s: String| s@)
}

/// The names of the join targets.
pub open spec fn target_names(v: Seq<JoinTarget>) -> Seq<Seq<char>> {
    v.map_values(|t: JoinTarget| t.name@)
}

/// The assets a source reads from, in the order they are named.
pub open spec fn source_deps(s: Source) -> Seq<Seq<char>> {
    match s {
        Source::Input(_) => Seq::empty(),
        Source::Output(o) => seq![o.asset_ref@],
        Source::Select(t) => seq![t.from@],
        Source::Where(t) => seq![t.from@],
        Source::GroupBy(t) => seq![t.from@],
        Source::OrderBy(t) => seq![t.from@],
        Source::Join(t) => seq![t.left@] + target_names(t.right@),
        Source::Union(t) => texts(t.sources@),
        Source::Intersect(t) => texts(t.sources@),
        Source::Except(t) => seq![t.left@, t.right@],
        Source::Distinct(t) => seq![t.from@],
        Source::Limit(t) => seq![t.from@],
        Source::AddColumns(t) => seq![t.from@],
        Source::DropColumns(t) => seq![t.from@],
        Source::RenameColumns(t) => seq![t.from@],
        Source::CastColumns(t) => seq![t.from@],
        Source::Window(t) => seq![t.from@],
        Source::Pivot(t) => seq![t.from@],
        Source::Unpivot(t) => seq![t.from@],
        Source::Flatten(t) => seq![t.from@],
        Source::Sample(t) => seq![t.from@],
        Source::Conditional(t) => seq![t.from@],
        Source::Split(t) => seq![t.from@],
        Source::Sql(t) => texts(t.views@),
        Source::Rollup(t) => seq![t.from@],
        Source::Cube(t) => seq![t.from@],
        Source::Scd2(t) => seq![t.current@, t.incoming@],
        Source::Enrich(t) => seq![t.from@],
        Source::SchemaEnforce(t) => seq![t.from@],
        Source::Assertion(t) => seq![t.from@],
        Source::Repartition(t) => seq![t.from@],
        Source::Coalesce(t) => seq![t.from@],
        Source::Custom(t) => seq![t.from@],
        Source::Offset(t) => seq![t.from@],
        Source::Tail(t) => seq![t.from@],
        Source::FillNa(t) => seq![t.from@],
        Source::DropNa(t) => seq![t.from@],
        Source::Replace(t) => seq![t.from@],
        Source::Merge(t) => seq![t.target@, t.source@],
        Source::Parse(t) => seq![t.from@],
        Source::AsOfJoin(t) => seq![t.left@, t.right@],
        Source::LateralJoin(t) => seq![t.left@, t.right@],
        Source::Transpose(t) => seq![t.from@],
        Source::GroupingSets(t) => seq![t.from@],
        Source::Describe(t) => seq![t.from@],
        Source::Crosstab(t) => seq![t.from@],
        Source::Hint(t) => seq![t.from@],
    }
}

/// A source reads exactly the assets it names: each asset-reference field of each kind of
/// source is among its dependencies (`from`; `left` and `right`; the join targets; the
/// sources of a set operation; the views of a SQL step; `current` and `incoming`; `target`
/// and `source`), and there are no others (an input reads nothing).
pub proof fn lemma_dependencies_are_the_references(s: Source)
    ensures
        match s {
            Source::Input(_) => source_deps(s).len() == 0,
            Source::Output(o) => source_deps(s).len() == 1 && source_deps(s).contains(o.asset_ref@),
            Source::Select(t) => source_deps(s).len() == 1 && source_deps(s).contains(t.from@),
            Source::Where(t) => source_deps(s).len() == 1 && source_deps(s).contains(t.from@),
            Source::GroupBy(t) => source_deps(s).len() == 1 && source_deps(s).contains(t.from@),
            Source::OrderBy(t) => source_deps(s).len() == 1 && source_deps(s).contains(t.from@),
            Source::Join(t) => source_deps(s).len() == 1 + t.right@.len() && source_deps(s).contains(t.left@)
                && forall|i: int| 0 <= i < t.right@.len() ==> source_deps(s).contains(#[trigger] t.right@[i].name@),
            Source::Union(t) => source_deps(s).len() == t.sources@.len()
                && forall|i: int| 0 <= i < t.sources@.len() ==> source_deps(s).contains(#[trigger] t.sources@[i]@),
            Source::Intersect(t) => source_deps(s).len() == t.sources@.len()
                && forall|i: int| 0 <= i < t.sources@.len() ==> source_deps(s).contains(#[trigger] t.sources@[i]@),
            Source::Except(t) => source_deps(s).len() == 2 && source_deps(s).contains(t.left@) && source_deps(s).contains(t.right@),
            Source::Distinct(t) => source_deps(s).len() == 1 && source_deps(s).contains(t.from@),
            Source::Limit(t) => source_deps(s).len() == 1 && source_deps(s).contains(t.from@),
            Source::AddColumns(t) => source_deps(s).len() == 1 && source_deps(s).contains(t.from@),
            Source::DropColumns(t) => source_deps(s).len() == 1 && source_deps(s).contains(t.from@),
            Source::RenameColumns(t) => source_deps(s).len() == 1 && source_deps(s).contains(t.from@),
            Source::CastColumns(t) => source_deps(s).len() == 1 && source_deps(s).contains(t.from@),
            Source::Window(t) => source_deps(s).len() == 1 && source_deps(s).contains(t.from@),
            Source::Pivot(t) => source_deps(s).len() == 1 && source_deps(s).contains(t.from@),
            Source::Unpivot(t) => source_deps(s).len() == 1 && source_deps(s).contains(t.from@),
            Source::Flatten(t) => source_deps(s).len() == 1 && source_deps(s).contains(t.from@),
            Source::Sample(t) => source_deps(s).len() == 1 && source_deps(s).contains(t.from@),
            Source::Conditional(t) => source_deps(s).len() == 1 && source_deps(s).contains(t.from@),
            Source::Split(t) => source_deps(s).len() == 1 && source_deps(s).contains(t.from@),
            Source::Sql(t) => source_deps(s).len() == t.views@.len()
                && forall|i: int| 0 <= i < t.views@.len() ==> source_deps(s).contains(#[trigger] t.views@[i]@),
            Source::Rollup(t) => source_deps(s).len() == 1 && source_deps(s).contains(t.from@),
            Source::Cube(t) => source_deps(s).len() == 1 && source_deps(s).contains(t.from@),
            Source::Scd2(t) => source_deps(s).len() == 2 && source_deps(s).contains(t.current@) && source_deps(s).contains(t.incoming@),
            Source::Enrich(t) => source_deps(s).len() == 1 && source_deps(s).contains(t.from@),
            Source::SchemaEnforce(t) => source_deps(s).len() == 1 && source_deps(s).contains(t.from@),
            Source::Assertion(t) => source_deps(s).len() == 1 && source_deps(s).contains(t.from@),
            Source::Repartition(t) => source_deps(s).len() == 1 && source_deps(s).contains(t.from@),
            Source::Coalesce(t) => source_deps(s).len() == 1 && source_deps(s).contains(t.from@),
            Source::Custom(t) => source_deps(s).len() == 1 && source_deps(s).contains(t.from@),
            Source::Offset(t) => source_deps(s).len() == 1 && source_deps(s).contains(t.from@),
            Source::Tail(t) => source_deps(s).len() == 1 && source_deps(s).contains(t.from@),
            Source::FillNa(t) => source_deps(s).len() == 1 && source_deps(s).contains(t.from@),
            Source::DropNa(t) => source_deps(s).len() == 1 && source_deps(s).contains(t.from@),
            Source::Replace(t) => source_deps(s).len() == 1 && source_deps(s).contains(t.from@),
            Source::Merge(t) => source_deps(s).len() == 2 && source_deps(s).contains(t.target@) && source_deps(s).contains(t.source@),
            Source::Parse(t) => source_deps(s).len() == 1 && source_deps(s).contains(t.from@),
            Source::AsOfJoin(t) => source_deps(s).len() == 2 && source_deps(s).contains(t.left@) && source_deps(s).contains(t.right@),
            Source::LateralJoin(t) => source_deps(s).len() == 2 && source_deps(s).contains(t.left@) && source_deps(s).contains(t.right@),
            Source::Transpose(t) => source_deps(s).len() == 1 && source_deps(s).contains(t.from@),
            Source::GroupingSets(t) => source_deps(s).len() == 1 && source_deps(s).contains(t.from@),
            Source::Describe(t) => source_deps(s).len() == 1 && source_deps(s).contains(t.from@),
            Source::Crosstab(t) => source_deps(s).len() == 1 && source_deps(s).contains(t.from@),
            Source::Hint(t) => source_deps(s).len() == 1 && source_deps(s).contains(t.from@),
        },
{
    match s {
        Source::Input(_) => {},
        Source::Output(o) => { assert(source_deps(s)[0] == o.asset_ref@); },
        Source::Select(t) => { assert(source_deps(s)[0] == t.from@); },
        Source::Where(t) => { assert(source_deps(s)[0] == t.from@); },
        Source::GroupBy(t) => { assert(source_deps(s)[0] == t.from@); },
        Source::OrderBy(t) => { assert(source_deps(s)[0] == t.from@); },
        Source::Join(t) => {
            assert(source_deps(s)[0] == t.left@);
            assert forall|i: int| 0 <= i < t.right@.len() implies source_deps(s).contains(#[trigger] t.right@[i].name@) by {
                assert(source_deps(s)[1 + i] == t.right@[i].name@);
            }
        },
        Source::Union(t) => {
            assert forall|i: int| 0 <= i < t.sources@.len() implies source_deps(s).contains(#[trigger] t.sources@[i]@) by {
                assert(source_deps(s)[i] == t.sources@[i]@);
            }
        },
        Source::Intersect(t) => {
            assert forall|i: int| 0 <= i < t.sources@.len() implies source_deps(s).contains(#[trigger] t.sources@[i]@) by {
                assert(source_deps(s)[i] == t.sources@[i]@);
            }
        },
        Source::Except(t) => { assert(source_deps(s)[0] == t.left@); assert(source_deps(s)[1] == t.right@); },
        Source::Distinct(t) => { assert(source_deps(s)[0] == t.from@); },
        Source::Limit(t) => { assert(source_deps(s)[0] == t.from@); },
        Source::AddColumns(t) => { assert(source_deps(s)[0] == t.from@); },
        Source::DropColumns(t) => { assert(source_deps(s)[0] == t.from@); },
        Source::RenameColumns(t) => { assert(source_deps(s)[0] == t.from@); },
        Source::CastColumns(t) => { assert(source_deps(s)[0] == t.from@); },
        Source::Window(t) => { assert(source_deps(s)[0] == t.from@); },
        Source::Pivot(t) => { assert(source_deps(s)[0] == t.from@); },
        Source::Unpivot(t) => { assert(source_deps(s)[0] == t.from@); },
        Source::Flatten(t) => { assert(source_deps(s)[0] == t.from@); },
        Source::Sample(t) => { assert(source_deps(s)[0] == t.from@); },
        Source::Conditional(t) => { assert(source_deps(s)[0] == t.from@); },
        Source::Split(t) => { assert(source_deps(s)[0] == t.from@); },
        Source::Sql(t) => {
            assert forall|i: int| 0 <= i < t.views@.len() implies source_deps(s).contains(#[trigger] t.views@[i]@) by {
                assert(source_deps(s)[i] == t.views@[i]@);
            }
        },
        Source::Rollup(t) => { assert(source_deps(s)[0] == t.from@); },
        Source::Cube(t) => { assert(source_deps(s)[0] == t.from@); },
        Source::Scd2(t) => { assert(source_deps(s)[0] == t.current@); assert(source_deps(s)[1] == t.incoming@); },
        Source::Enrich(t) => { assert(source_deps(s)[0] == t.from@); },
        Source::SchemaEnforce(t) => { assert(source_deps(s)[0] == t.from@); },
        Source::Assertion(t) => { assert(source_deps(s)[0] == t.from@); },
        Source::Repartition(t) => { assert(source_deps(s)[0] == t.from@); },
        Source::Coalesce(t) => { assert(source_deps(s)[0] == t.from@); },
        Source::Custom(t) => { assert(source_deps(s)[0] == t.from@); },
        Source::Offset(t) => { assert(source_deps(s)[0] == t.from@); },
        Source::Tail(t) => { assert(source_deps(s)[0] == t.from@); },
        Source::FillNa(t) => { assert(source_deps(s)[0] == t.from@); },
        Source::DropNa(t) => { assert(source_deps(s)[0] == t.from@); },
        Source::Replace(t) => { assert(source_deps(s)[0] == t.from@); },
        Source::Merge(t) => { assert(source_deps(s)[0] == t.target@); assert(source_deps(s)[1] == t.source@); },
        Source::Parse(t) => { assert(source_deps(s)[0] == t.from@); },
        Source::AsOfJoin(t) => { assert(source_deps(s)[0] == t.left@); assert(source_deps(s)[1] == t.right@); },
        Source::LateralJoin(t) => { assert(source_deps(s)[0] == t.left@); assert(source_deps(s)[1] == t.right@); },
        Source::Transpose(t) => { assert(source_deps(s)[0] == t.from@); },
        Source::GroupingSets(t) => { assert(source_deps(s)[0] == t.from@); },
        Source::Describe(t) => { assert(source_deps(s)[0] == t.from@); },
        Source::Crosstab(t) => { assert(source_deps(s)[0] == t.from@); },
        Source::Hint(t) => { assert(source_deps(s)[0] == t.from@); },
    }
}

/// A copy of each string of `v`, in order.
pub(crate) fn copy_names(v: &Vec<String>) -> (r: Vec<String>)
    ensures
        r@ == v@,
{
    let mut r: Vec<String> = Vec::new();
    let mut i: usize = 0;
    while i < v.len()
        invariant
            i <= v@.len(),
            r@ == v@.subrange(0, i as int),
        decreases v@.len() - i,
    {
        r.push(v[i].clone());
        assert(r@ =~= v@.subrange(0, i + 1));
        i = i + 1;
    }
    assert(v@.subrange(0, v@.len() as int) =~= v@);
    r
}

fn one(a: &String) -> (r: Vec<String>)
    ensures
        texts(r@) == seq![a@],
{
    let mut r: Vec<String> = Vec::new();
    r.push(a.clone());
    assert(texts(r@) =~= seq![a@]);
    r
}

fn two(a: &String, b: &String) -> (r: Vec<String>)
    ensures
        texts(r@) == seq![a@, b@],
{
    let mut r: Vec<String> = Vec::new();
    r.push(a.clone());
    r.push(b.clone());
    assert(texts(r@) =~= seq![a@, b@]);
    r
}

impl Source {
    /// All upstream asset references of this source, in the order they are named.
    pub fn dependencies(&self) -> (r: Vec<AssetRef>)
        ensures
            texts(r@) == source_deps(*self),
    {
        match self {
            Source::Input(_) => {
                let r: Vec<String> = Vec::new();
                assert(texts(r@) =~= Seq::<Seq<char>>::empty());
                r
            },
            Source::Output(o) => one(&o.asset_ref),
            Source::Select(t) => one(&t.from),
            Source::Where(t) => one(&t.from),
            Source::GroupBy(t) => one(&t.from),
            Source::OrderBy(t) => one(&t.from),
            Source::Join(t) => {
                let mut deps = one(&t.left);
                let mut i: usize = 0;
                while i < t.right.len()
                    invariant
                        i <= t.right@.len(),
                        texts(deps@) == seq![t.left@] + target_names(t.right@).subrange(0, i as int),
                    decreases t.right@.len() - i,
                {
                    let ghost before = deps@;
                    deps.push(t.right[i].name.clone());
                    proof {
                        assert(deps@ == before.push(t.right@[i as int].name));
                        assert(texts(deps@) =~= texts(before).push(t.right@[i as int].name@));
                        assert(target_names(t.right@).subrange(0, i + 1) =~= target_names(t.right@).subrange(0, i as int).push(t.right@[i as int].name@));
                    }
                    i = i + 1;
                }
                assert(target_names(t.right@).subrange(0, t.right@.len() as int) =~= target_names(t.right@));
                deps
            },
            Source::Union(t) => copy_names(&t.sources),
            Source::Intersect(t) => copy_names(&t.sources),
            Source::Except(t) => two(&t.left, &t.right),
            Source::Distinct(t) => one(&t.from),
            Source::Limit(t) => one(&t.from),
            Source::AddColumns(t) => one(&t.from),
            Source::DropColumns(t) => one(&t.from),
            Source::RenameColumns(t) => one(&t.from),
            Source::CastColumns(t) => one(&t.from),
            Source::Window(t) => one(&t.from),
            Source::Pivot(t) => one(&t.from),
            Source::Unpivot(t) => one(&t.from),
            Source::Flatten(t) => one(&t.from),
            Source::Sample(t) => one(&t.from),
            Source::Conditional(t) => one(&t.from),
            Source::Split(t) => one(&t.from),
            Source::Sql(t) => copy_names(&t.views),
            Source::Rollup(t) => one(&t.from),
            Source::Cube(t) => one(&t.from),
            Source::Scd2(t) => two(&t.current, &t.incoming),
            Source::Enrich(t) => one(&t.from),
            Source::SchemaEnforce(t) => one(&t.from),
            Source::Assertion(t) => one(&t.from),
            Source::Repartition(t) => one(&t.from),
            Source::Coalesce(t) => one(&t.from),
            Source::Custom(t) => one(&t.from),
            Source::Offset(t) => one(&t.from),
            Source::Tail(t) => one(&t.from),
            Source::FillNa(t) => one(&t.from),
            Source::DropNa(t) => one(&t.from),
            Source::Replace(t) => one(&t.from),
            Source::Merge(t) => two(&t.target, &t.source),
            Source::Parse(t) => one(&t.from),
            Source::AsOfJoin(t) => two(&t.left, &t.right),
            Source::LateralJoin(t) => two(&t.left, &t.right),
            Source::Transpose(t) => one(&t.from),
            Source::GroupingSets(t) => one(&t.from),
            Source::Describe(t) => one(&t.from),
            Source::Crosstab(t) => one(&t.from),
            Source::Hint(t) => one(&t.from),
        }
    }
}

impl Default for FrameSpec {
    /// A range frame from the unbounded preceding row to the current row.
    fn default() -> (r: FrameSpec)
        ensures
            r.frame_type == FrameType::Range,
            r.start@ == "unbounded preceding"@,
            r.end@ == "current row"@,
    {
        FrameSpec {
            frame_type: FrameType::Range,
            start: String::from_str("unbounded preceding"),
            end: String::from_str("current row"),
        }
    }
}

} // verus!
