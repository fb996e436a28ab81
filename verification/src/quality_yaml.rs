//! The shape of data quality suites as written in YAML.
use vstd::prelude::*;
use std::collections::BTreeMap;
use crate::types::FloatBits;

verus! {

/// A data quality suite as written.
#[derive(Debug, Clone, PartialEq)]
pub struct QualitySuiteDef {
    pub suite: String,
    pub description: Option<String>,
    pub target: String,
    pub filter: Option<String>,
    pub severity: String,
    pub checks: Vec<QualityCheckDef>,
}

/// One check of a suite as written; which fields matter depends on its type.
#[derive(Debug, Clone, PartialEq)]
pub struct QualityCheckDef {
    pub check_type: String,
    pub column: Option<String>,
    pub columns: Option<QualityCheckColumns>,
    pub threshold: Option<FloatBits>,
    pub severity: Option<String>,
    pub escalate: Option<EscalateDef>,
    pub description: Option<String>,
    pub accepted_values: Option<Vec<String>>,
    pub range: Option<RangeSpecDef>,
    pub pattern: Option<String>,
    pub format: Option<String>,
    pub length_between: Option<(u64, u64)>,
    pub mean: Option<BoundSpecDef>,
    pub min: Option<BoundSpecDef>,
    pub max: Option<BoundSpecDef>,
    pub sum: Option<BoundSpecDef>,
    pub stdev: Option<BoundSpecDef>,
    pub quantiles: Option<BTreeMap<String, BoundSpecDef>>,
    pub row_count: Option<BoundSpecDef>,
    pub column_count: Option<BoundSpecDef>,
    pub max_age: Option<String>,
    pub reference: Option<ReferenceDef>,
    pub condition: Option<String>,
    pub types: Option<BTreeMap<String, String>>,
}

/// The `columns` of a check: a list (uniqueness), or required and forbidden columns (schema).
#[derive(Debug, Clone, PartialEq)]
pub enum QualityCheckColumns {
    List(Vec<String>),
    SchemaColumns { required: Option<Vec<String>>, forbidden: Option<Vec<String>> },
}

/// A bound as written; it has the fields of the model's bound.
pub type BoundSpecDef = crate::quality::BoundSpec;

#[derive(Debug, Clone, PartialEq)]
pub struct RangeSpecDef {
    pub min: Option<FloatBits>,
    pub max: Option<FloatBits>,
    pub strict_min: bool,
    pub strict_max: bool,
}

#[derive(Debug, Clone, PartialEq)]
pub struct EscalateDef {
    pub threshold: FloatBits,
    pub severity: String,
}

#[derive(Debug, Clone, PartialEq)]
pub struct ReferenceDef {
    pub asset: String,
    pub column: String,
}

} // verus!
