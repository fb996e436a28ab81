//! The shape of a pipeline document as written in YAML, before it is rewritten into assets.
use vstd::prelude::*;
use std::collections::BTreeMap;
use crate::pipeline::SecretKey;
use crate::quality_yaml::QualitySuiteDef;
use crate::types::{FloatBits, Primitive};
use crate::yaml_value::YamlValue;

verus! {

#[derive(Debug, Clone, PartialEq)]
pub struct SelectOp {
    pub from: String,
    pub columns: Vec<String>,
}

#[derive(Debug, Clone, PartialEq)]
pub struct WhereOp {
    pub from: String,
    pub filter: String,
}

#[derive(Debug, Clone, PartialEq)]
pub struct GroupOp {
    pub from: String,
    pub by: Vec<String>,
    pub agg: Vec<String>,
}

#[derive(Debug, Clone, PartialEq)]
pub struct OrderByOp {
    pub from: String,
    pub columns: Vec<SortColumnDef>,
}

#[derive(Debug, Clone, PartialEq)]
pub struct JoinOp {
    pub left: String,
    pub right: Vec<JoinTargetDef>,
}

#[derive(Debug, Clone, PartialEq)]
pub struct JoinTargetDef {
    pub name: String,
    pub join_type: String,
    pub on: Vec<String>,
}

#[derive(Debug, Clone, PartialEq)]
pub struct UnionOp {
    pub sources: Vec<String>,
    pub all: bool,
    pub by_name: bool,
    pub allow_missing_columns: bool,
}

#[derive(Debug, Clone, PartialEq)]
pub struct IntersectOp {
    pub sources: Vec<String>,
    pub all: bool,
    pub by_name: bool,
    pub allow_missing_columns: bool,
}

#[derive(Debug, Clone, PartialEq)]
pub struct ExceptOp {
    pub left: String,
    pub right: String,
    pub all: bool,
    pub by_name: bool,
    pub allow_missing_columns: bool,
}

#[derive(Debug, Clone, PartialEq)]
pub struct DistinctOp {
    pub from: String,
    pub columns: Option<Vec<String>>,
}

#[derive(Debug, Clone, PartialEq)]
pub struct LimitOp {
    pub from: String,
    pub count: u64,
}

#[derive(Debug, Clone, PartialEq)]
pub struct ColumnDefOp {
    pub name: String,
    pub expression: String,
}

#[derive(Debug, Clone, PartialEq)]
pub struct AddColumnsOp {
    pub from: String,
    pub columns: Vec<ColumnDefOp>,
}

#[derive(Debug, Clone, PartialEq)]
pub struct DropColumnsOp {
    pub from: String,
    pub columns: Vec<String>,
}

#[derive(Debug, Clone, PartialEq)]
pub struct RenameColumnsOp {
    pub from: String,
    pub mappings: BTreeMap<String, String>,
}

#[derive(Debug, Clone, PartialEq)]
pub struct CastDefOp {
    pub name: String,
    pub target_type: String,
}

#[derive(Debug, Clone, PartialEq)]
pub struct CastColumnsOp {
    pub from: String,
    pub columns: Vec<CastDefOp>,
}

#[derive(Debug, Clone, PartialEq)]
pub struct WindowFuncDefOp {
    pub expression: String,
    pub alias: String,
}

/// A window frame as written: its type, start and end.
#[derive(Debug, Clone, PartialEq)]
pub struct FrameSpecOp {
    pub frame_type: String,
    pub start: String,
    pub end: String,
}

#[derive(Debug, Clone, PartialEq)]
pub struct WindowOp {
    pub from: String,
    pub partition_by: Vec<String>,
    pub order_by: Option<Vec<SortColumnDef>>,
    pub frame: Option<FrameSpecOp>,
    pub functions: Vec<WindowFuncDefOp>,
}

#[derive(Debug, Clone, PartialEq)]
pub struct PivotOp {
    pub from: String,
    pub group_by: Vec<String>,
    pub pivot_column: String,
    pub values: Option<Vec<String>>,
    pub agg: Vec<String>,
}

#[derive(Debug, Clone, PartialEq)]
pub struct UnpivotOp {
    pub from: String,
    pub ids: Vec<String>,
    pub values: Vec<String>,
    pub variable_column: String,
    pub value_column: String,
}

#[derive(Debug, Clone, PartialEq)]
pub struct FlattenOp {
    pub from: String,
    pub separator: String,
    pub explode_arrays: bool,
}

/// Random sampling; fractions and bounds are held by their bit patterns.
#[derive(Debug, Clone, PartialEq)]
pub struct SampleOp {
    pub from: String,
    pub fraction: FloatBits,
    pub with_replacement: bool,
    pub seed: Option<i64>,
    pub lower_bound: Option<FloatBits>,
    pub upper_bound: Option<FloatBits>,
    pub deterministic_order: bool,
}

#[derive(Debug, Clone, PartialEq)]
pub struct BranchDef {
    pub condition: String,
    pub value: String,
}

#[derive(Debug, Clone, PartialEq)]
pub struct ConditionalOp {
    pub from: String,
    pub output_column: String,
    pub branches: Vec<BranchDef>,
    pub otherwise: Option<String>,
}

#[derive(Debug, Clone, PartialEq)]
pub struct SplitOp {
    pub from: String,
    pub condition: String,
    pub pass: String,
    pub fail: String,
}

#[derive(Debug, Clone, PartialEq)]
pub struct SqlOp {
    pub query: String,
    pub views: Vec<String>,
}

#[derive(Debug, Clone, PartialEq)]
pub struct RollupOp {
    pub from: String,
    pub by: Vec<String>,
    pub agg: Vec<String>,
}

#[derive(Debug, Clone, PartialEq)]
pub struct CubeOp {
    pub from: String,
    pub by: Vec<String>,
    pub agg: Vec<String>,
}

#[derive(Debug, Clone, PartialEq)]
pub struct Scd2Op {
    pub current: String,
    pub incoming: String,
    pub key_columns: Vec<String>,
    pub track_columns: Vec<String>,
    pub start_date_column: String,
    pub end_date_column: String,
    pub current_flag_column: String,
}

#[derive(Debug, Clone, PartialEq)]
pub struct EnrichOp {
    pub from: String,
    pub url: String,
    pub method: String,
    pub key_column: String,
    pub response_column: String,
    pub headers: BTreeMap<String, String>,
    pub on_error: String,
    pub timeout: u64,
    pub max_retries: u32,
}

#[derive(Debug, Clone, PartialEq)]
pub struct SchemaColumnDef {
    pub name: String,
    pub data_type: String,
    pub nullable: bool,
    pub default: Option<String>,
}

#[derive(Debug, Clone, PartialEq)]
pub struct SchemaEnforceOp {
    pub from: String,
    pub mode: String,
    pub columns: Vec<SchemaColumnDef>,
}

#[derive(Debug, Clone, PartialEq)]
pub struct QualityCheckDef {
    pub column: Option<String>,
    pub rule: String,
    pub description: Option<String>,
}

#[derive(Debug, Clone, PartialEq)]
pub struct AssertionOp {
    pub from: String,
    pub checks: Vec<QualityCheckDef>,
    pub on_failure: String,
}

#[derive(Debug, Clone, PartialEq)]
pub struct RepartitionOp {
    pub from: String,
    pub num_partitions: u32,
    pub columns: Vec<String>,
}

#[derive(Debug, Clone, PartialEq)]
pub struct CoalesceOp {
    pub from: String,
    pub num_partitions: u32,
}

#[derive(Debug, Clone, PartialEq)]
pub struct CustomOp {
    pub from: String,
    pub component: String,
    pub options: BTreeMap<String, String>,
}

#[derive(Debug, Clone, PartialEq)]
pub struct OffsetOp {
    pub from: String,
    pub count: u64,
}

#[derive(Debug, Clone, PartialEq)]
pub struct TailOp {
    pub from: String,
    pub count: u64,
}

#[derive(Debug, Clone, PartialEq)]
pub struct FillNaOp {
    pub from: String,
    pub columns: Option<Vec<String>>,
    pub value: Option<Primitive>,
    pub values: Option<BTreeMap<String, Primitive>>,
}

#[derive(Debug, Clone, PartialEq)]
pub struct DropNaOp {
    pub from: String,
    pub columns: Option<Vec<String>>,
    pub how: Option<String>,
    pub min_non_nulls: Option<u32>,
}

#[derive(Debug, Clone, PartialEq)]
pub struct ReplacementDef {
    pub old: Primitive,
    pub new: Primitive,
}

#[derive(Debug, Clone, PartialEq)]
pub struct ReplaceOp {
    pub from: String,
    pub columns: Option<Vec<String>>,
    pub mappings: Vec<ReplacementDef>,
}

#[derive(Debug, Clone, PartialEq)]
pub struct MergeActionDef {
    pub action: String,
    pub condition: Option<String>,
    pub set: Option<BTreeMap<String, String>>,
    pub star: bool,
}

#[derive(Debug, Clone, PartialEq)]
pub struct MergeOp {
    pub target: String,
    pub source: String,
    pub on: Vec<String>,
    pub when_matched: Vec<MergeActionDef>,
    pub when_not_matched: Vec<MergeActionDef>,
    pub when_not_matched_by_source: Vec<MergeActionDef>,
}

#[derive(Debug, Clone, PartialEq)]
pub struct ParseOp {
    pub from: String,
    pub column: String,
    pub format: String,
    pub schema: Option<Vec<SchemaColumnDef>>,
    pub options: BTreeMap<String, String>,
}

#[derive(Debug, Clone, PartialEq)]
pub struct AsOfJoinOp {
    pub left: String,
    pub right: String,
    pub left_as_of: String,
    pub right_as_of: String,
    pub on: Vec<String>,
    pub join_type: Option<String>,
    pub direction: Option<String>,
    pub tolerance: Option<String>,
    pub allow_exact_matches: bool,
}

#[derive(Debug, Clone, PartialEq)]
pub struct LateralJoinOp {
    pub left: String,
    pub right: String,
    pub join_type: Option<String>,
    pub on: Vec<String>,
}

#[derive(Debug, Clone, PartialEq)]
pub struct TransposeOp {
    pub from: String,
    pub index_columns: Vec<String>,
}

#[derive(Debug, Clone, PartialEq)]
pub struct GroupingSetsOp {
    pub from: String,
    pub sets: Vec<Vec<String>>,
    pub agg: Vec<String>,
}

#[derive(Debug, Clone, PartialEq)]
pub struct DescribeOp {
    pub from: String,
    pub columns: Option<Vec<String>>,
    pub statistics: Option<Vec<String>>,
}

#[derive(Debug, Clone, PartialEq)]
pub struct CrosstabOp {
    pub from: String,
    pub col1: String,
    pub col2: String,
}

#[derive(Debug, Clone, PartialEq)]
pub struct HintSpecDef {
    pub name: String,
    pub parameters: Vec<String>,
}

#[derive(Debug, Clone, PartialEq)]
pub struct HintOp {
    pub from: String,
    pub hints: Vec<HintSpecDef>,
}

#[derive(Debug, Clone, PartialEq)]
pub struct OwnerDef {
    pub name: String,
    pub email: String,
    pub owner_type: Option<String>,
}

#[derive(Debug, PartialEq)]
pub struct ColumnMetadataDef {
    pub name: String,
    pub description: Option<String>,
    pub tags: Option<Vec<String>>,
    pub constraints: Option<Vec<String>>,
    pub meta: Option<BTreeMap<String, YamlValue>>,
}

/// An input asset as written.
#[derive(Debug, PartialEq)]
pub struct InputDef {
    pub name: String,
    pub format: String,
    pub path: String,
    pub options: BTreeMap<String, Primitive>,
    pub description: Option<String>,
    pub tags: Option<Vec<String>>,
    pub meta: Option<BTreeMap<String, YamlValue>>,
    pub owner: Option<OwnerDef>,
    pub columns: Option<Vec<ColumnMetadataDef>>,
}

/// An output as written.
#[derive(Debug, PartialEq)]
pub struct OutputDef {
    pub name: String,
    pub format: String,
    pub path: String,
    pub mode: String,
    pub options: BTreeMap<String, Primitive>,
    pub description: Option<String>,
    pub tags: Option<Vec<String>>,
    pub meta: Option<BTreeMap<String, YamlValue>>,
    pub freshness: Option<String>,
    pub maturity: Option<String>,
}

/// A named transformation with its metadata and exactly one operation.
#[derive(Debug, PartialEq)]
pub struct RawTransformation {
    pub name: String,
    pub description: Option<String>,
    pub tags: Option<Vec<String>>,
    pub remove_tags: Option<Vec<String>>,
    pub meta: Option<BTreeMap<String, YamlValue>>,
    pub operation: TransformationOp,
}

/// Pipeline-level metadata as written.
#[derive(Debug, PartialEq)]
pub struct PipelineMetadataDef {
    pub name: Option<String>,
    pub namespace: Option<String>,
    pub version: Option<String>,
    pub description: Option<String>,
    pub owner: Option<OwnerDef>,
    pub tags: Option<Vec<String>>,
    pub meta: Option<BTreeMap<String, YamlValue>>,
    pub schedule: Option<String>,
    pub freshness: Option<String>,
    pub links: Option<Vec<LinkDef>>,
    pub contacts: Option<Vec<ContactDef>>,
    pub catalog: Option<CatalogDef>,
}

#[derive(Debug, Clone, PartialEq)]
pub struct LinkDef {
    pub label: String,
    pub url: String,
}

#[derive(Debug, Clone, PartialEq)]
pub struct ContactDef {
    pub name: String,
    pub email: String,
    pub role: Option<String>,
}

#[derive(Debug, Clone, PartialEq)]
pub struct CatalogDef {
    pub target: String,
    pub namespace: Option<String>,
}

/// Pipeline-wide configuration as written.
#[derive(Debug, Clone, PartialEq)]
pub struct ConfigDef {
    pub backend: Option<String>,
    pub cache: Option<CacheDef>,
    pub notifications: Option<NotificationsDef>,
}

#[derive(Debug, Clone, PartialEq)]
pub struct CacheDef {
    pub auto_cache_threshold: Option<u32>,
    pub default_storage_level: Option<String>,
}

#[derive(Debug, Clone, PartialEq)]
pub struct NotificationsDef {
    pub on_success: Option<Vec<NotificationTargetDef>>,
    pub on_failure: Option<Vec<NotificationTargetDef>>,
}

#[derive(Debug, Clone, PartialEq)]
pub struct NotificationTargetDef {
    pub channel: String,
    pub url: Option<String>,
    pub path: Option<String>,
}

/// Secret key declarations as written, by alias.
#[derive(Debug, Clone, PartialEq)]
pub struct SecretsDef {
    pub keys: Option<BTreeMap<String, SecretKeyDef>>,
}

/// A secret key declaration as written: it has the fields of the model's declaration.
pub type SecretKeyDef = SecretKey;

/// Lifecycle hooks as written.
#[derive(Debug, Clone, PartialEq)]
pub struct HooksDef {
    pub pre_execution: Option<Vec<HookDef>>,
    pub post_execution: Option<Vec<HookDef>>,
}

#[derive(Debug, Clone, PartialEq)]
pub struct HookDef {
    pub name: String,
    pub command: String,
}

#[derive(Debug, Clone, PartialEq)]
pub struct TemplateDef {
    pub name: String,
    pub parameters: BTreeMap<String, Primitive>,
}

/// A downstream consumer declaration as written.
#[derive(Debug, PartialEq)]
pub struct ExposureDef {
    pub name: String,
    pub exposure_type: String,
    pub description: Option<String>,
    pub url: Option<String>,
    pub maturity: Option<String>,
    pub owner: Option<OwnerDef>,
    pub depends_on: Vec<String>,
    pub tags: Vec<String>,
    pub meta: BTreeMap<String, YamlValue>,
}

#[derive(Debug, Clone, PartialEq)]
pub struct StreamingInputDef {
    pub name: String,
    pub format: String,
    pub path: Option<String>,
    pub options: BTreeMap<String, Primitive>,
    pub trigger: Option<String>,
}

#[derive(Debug, Clone, PartialEq)]
pub struct StreamingOutputDef {
    pub name: String,
    pub format: String,
    pub path: Option<String>,
    pub options: BTreeMap<String, Primitive>,
    pub output_mode: Option<String>,
    pub checkpoint_location: Option<String>,
    pub trigger: Option<String>,
}

/// A pipeline document: its version, inputs, transformations and outputs, and the
/// pipeline-level sections.
#[derive(Debug, PartialEq)]
pub struct Document {
    pub version: String,
    pub pipeline: Option<PipelineMetadataDef>,
    pub config: Option<ConfigDef>,
    pub secrets: Option<SecretsDef>,
    pub hooks: Option<HooksDef>,
    pub quality: Option<Vec<QualitySuiteDef>>,
    pub templates: Option<Vec<TemplateDef>>,
    pub input: Vec<InputDef>,
    pub streaming_input: Option<Vec<StreamingInputDef>>,
    pub transformation: Option<Vec<RawTransformation>>,
    pub output: Vec<OutputDef>,
    pub streaming_output: Option<Vec<StreamingOutputDef>>,
    pub exposures: Option<Vec<ExposureDef>>,
}

/// A sort column as written: a bare name, or a name with direction and null placement.
#[derive(Debug, Clone, PartialEq)]
pub enum SortColumnDef {
    Simple(String),
    Explicit { column: String, direction: String, nulls: String },
}

/// The operation of a transformation; the YAML key names it.
#[derive(Debug, PartialEq)]
pub enum TransformationOp {
    Select(SelectOp),
    Where(WhereOp),
    Group(GroupOp),
    OrderBy(OrderByOp),
    Join(JoinOp),
    Union(UnionOp),
    Intersect(IntersectOp),
    Except(ExceptOp),
    Distinct(DistinctOp),
    Limit(LimitOp),
    AddColumns(AddColumnsOp),
    DropColumns(DropColumnsOp),
    RenameColumns(RenameColumnsOp),
    CastColumns(CastColumnsOp),
    Window(WindowOp),
    Pivot(PivotOp),
    Unpivot(UnpivotOp),
    Flatten(FlattenOp),
    Sample(SampleOp),
    Conditional(ConditionalOp),
    Split(SplitOp),
    Sql(SqlOp),
    Rollup(RollupOp),
    Cube(CubeOp),
    Scd2(Scd2Op),
    Enrich(EnrichOp),
    SchemaEnforce(SchemaEnforceOp),
    Assertion(AssertionOp),
    Repartition(RepartitionOp),
    Coalesce(CoalesceOp),
    Custom(CustomOp),
    Offset(OffsetOp),
    Tail(TailOp),
    FillNa(FillNaOp),
    DropNa(DropNaOp),
    Replace(ReplaceOp),
    Merge(MergeOp),
    Parse(ParseOp),
    AsOfJoin(AsOfJoinOp),
    LateralJoin(LateralJoinOp),
    Transpose(TransposeOp),
    GroupingSets(GroupingSetsOp),
    Describe(DescribeOp),
    Crosstab(CrosstabOp),
    Hint(HintOp),
}

} // verus!
