//! Names, option values, enumerations and the data type system of the model.
use vstd::prelude::*;
use std::collections::BTreeMap;

verus! {

/// Unique identifier of an asset; valid ones match `^[a-zA-Z][a-zA-Z0-9_-]{0,127}$`.
pub type AssetRef = String;

/// A column name, optionally qualified as `asset.column`.
pub type Column = String;

/// A boolean expression string.
pub type Condition = String;

/// An expression string (SQL-like).
pub type Expression = String;

/// A floating-point number held by its IEEE-754 binary64 bit pattern.
#[derive(Debug, Clone, Copy, PartialEq, Eq, Structural)]
pub struct FloatBits {
    pub bits: u64,
}

/// Primitive option values.
#[derive(Debug, Clone, PartialEq)]
pub enum Primitive {
    Bool(bool),
    Int(i64),
    Float(FloatBits),
    String(String),
}

/// Format-specific key-value options.
pub type Options = BTreeMap<String, Primitive>;

/// Data format of inputs and outputs.
#[derive(Debug, Clone, PartialEq, Eq)]
pub enum Format {
    Csv,
    Json,
    Parquet,
    Delta,
    Orc,
    Avro,
    Jdbc,
    Custom(String),
}

/// Write mode of outputs.
#[derive(Debug, Clone, Copy, PartialEq, Eq, Structural)]
pub enum WriteMode {
    Error,
    Overwrite,
    Append,
    Ignore,
}

/// Sort direction.
#[derive(Debug, Clone, Copy, PartialEq, Eq, Structural)]
pub enum SortDirection {
    Asc,
    Desc,
}

/// Placement of nulls when sorting.
#[derive(Debug, Clone, Copy, PartialEq, Eq, Structural)]
pub enum NullOrdering {
    First,
    Last,
}

/// Join type.
#[derive(Debug, Clone, Copy, PartialEq, Eq, Structural)]
pub enum JoinType {
    Inner,
    Left,
    Right,
    Outer,
    Cross,
    LeftSemi,
    LeftAnti,
}

/// Window frame type.
#[derive(Debug, Clone, Copy, PartialEq, Eq, Structural)]
pub enum FrameType {
    Rows,
    Range,
}

/// Schema enforcement mode.
#[derive(Debug, Clone, Copy, PartialEq, Eq, Structural)]
pub enum SchemaEnforceMode {
    Strict,
    Evolve,
}

/// What an assertion does when a check fails.
#[derive(Debug, Clone, Copy, PartialEq, Eq, Structural)]
pub enum OnFailure {
    Fail,
    Warn,
    Drop,
}

/// What an enrichment does on an HTTP error.
#[derive(Debug, Clone, Copy, PartialEq, Eq, Structural)]
pub enum OnError {
    Null,
    Fail,
    Skip,
}

/// Streaming output mode.
#[derive(Debug, Clone, Copy, PartialEq, Eq, Structural)]
pub enum OutputMode {
    Append,
    Update,
    Complete,
}

/// Direction of an as-of join.
#[derive(Debug, Clone, Copy, PartialEq, Eq, Structural)]
pub enum AsOfDirection {
    Backward,
    Forward,
    Nearest,
}

/// Kind of a merge action.
#[derive(Debug, Clone, Copy, PartialEq, Eq, Structural)]
pub enum MergeActionType {
    Update,
    Insert,
    Delete,
}

/// Format of a column parsed by a parse transformation.
#[derive(Debug, Clone, Copy, PartialEq, Eq, Structural)]
pub enum ParseFormat {
    Json,
    Csv,
}

/// When a drop-nulls transformation drops a row.
#[derive(Debug, Clone, Copy, PartialEq, Eq, Structural)]
pub enum DropNaHow {
    Any,
    All,
}

/// The data type system.
#[derive(Debug, PartialEq)]
pub enum TeckelDataType {
    String,
    Integer,
    Long,
    Float,
    Double,
    Boolean,
    Date,
    Timestamp,
    Binary,
    Decimal { precision: u8, scale: u8 },
    Array(Box<TeckelDataType>),
    MapType(Box<TeckelDataType>, Box<TeckelDataType>),
    Struct(Vec<StructField>),
    Byte,
    Short,
    Char(u32),
    VarChar(u32),
    TimestampNtz,
    Time(Option<u8>),
    YearMonthInterval,
    DayTimeInterval,
    Variant,
}

/// A field of a struct data type.
#[derive(Debug, PartialEq)]
pub struct StructField {
    pub name: String,
    pub data_type: TeckelDataType,
    pub nullable: bool,
}

/// A sort column: a bare name, or a name with direction and null placement.
#[derive(Debug, Clone, PartialEq)]
pub enum SortColumn {
    Simple(Column),
    Explicit { column: Column, direction: SortDirection, nulls: NullOrdering },
}

/// The column a sort column names.
pub open spec fn sort_column_name(c: SortColumn) -> Seq<char> {
    match c {
        SortColumn::Simple(n) => n@,
        SortColumn::Explicit { column, .. } => column@,
    }
}

impl SortColumn {
    /// The name of the sorted column.
    pub fn column_name(&self) -> (r: &str)
        ensures
            r@ == sort_column_name(*self),
    {
        match self {
            SortColumn::Simple(c) => c.as_str(),
            SortColumn::Explicit { column, .. } => column.as_str(),
        }
    }
}

impl Default for WriteMode {
    fn default() -> (r: WriteMode)
        ensures
            r == WriteMode::Error,
    {
        WriteMode::Error
    }
}

impl Default for SortDirection {
    fn default() -> (r: SortDirection)
        ensures
            r == SortDirection::Asc,
    {
        SortDirection::Asc
    }
}

impl Default for NullOrdering {
    fn default() -> (r: NullOrdering)
        ensures
            r == NullOrdering::Last,
    {
        NullOrdering::Last
    }
}

impl Default for FrameType {
    fn default() -> (r: FrameType)
        ensures
            r == FrameType::Range,
    {
        FrameType::Range
    }
}

impl Default for SchemaEnforceMode {
    fn default() -> (r: SchemaEnforceMode)
        ensures
            r == SchemaEnforceMode::Strict,
    {
        SchemaEnforceMode::Strict
    }
}

impl Default for OnFailure {
    fn default() -> (r: OnFailure)
        ensures
            r == OnFailure::Fail,
    {
        OnFailure::Fail
    }
}

impl Default for OnError {
    fn default() -> (r: OnError)
        ensures
            r == OnError::Null,
    {
        OnError::Null
    }
}

impl Default for OutputMode {
    fn default() -> (r: OutputMode)
        ensures
            r == OutputMode::Append,
    {
        OutputMode::Append
    }
}

} // verus!
