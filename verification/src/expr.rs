//! Syntax tree of the expression language, and its mathematical meaning.
use vstd::prelude::*;
use crate::types::{FrameType, NullOrdering, SortDirection};

verus! {

/// Window frame of an inline window expression.
#[derive(Debug, PartialEq)]
pub struct WindowFrame {
    pub frame_type: FrameType,
    pub start: FrameBound,
    pub end: FrameBound,
}

/// Bound of a window frame.
#[derive(Debug, PartialEq)]
pub enum FrameBound {
    UnboundedPreceding,
    UnboundedFollowing,
    CurrentRow,
    Preceding(Box<Expr>),
    Following(Box<Expr>),
}

/// A parsed expression.
#[allow(inconsistent_fields)]
#[derive(Debug, PartialEq)]
pub enum Expr {
    /// A literal value.
    Literal(Literal),
    /// A column reference, optionally qualified: `table.column`.
    ColumnRef { table: Option<String>, column: String },
    /// A binary operation: `left op right`.
    BinaryOp { left: Box<Expr>, op: BinaryOp, right: Box<Expr> },
    /// A unary operation: `op expr`.
    UnaryOp { op: UnaryOp, expr: Box<Expr> },
    /// A function call: `name([DISTINCT] args...)`.
    FunctionCall { name: String, args: Vec<Expr>, distinct: bool },
    /// `CASE WHEN .. THEN .. [ELSE ..] END`.
    Case { when_clauses: Vec<(Expr, Expr)>, else_clause: Option<Box<Expr>> },
    /// `CAST(expr AS type)`.
    Cast { expr: Box<Expr>, data_type: String },
    /// `expr IS [NOT] NULL`.
    IsNull { expr: Box<Expr>, negated: bool },
    /// `expr [NOT] IN (list...)`.
    InList { expr: Box<Expr>, list: Vec<Expr>, negated: bool },
    /// `expr [NOT] BETWEEN low AND high`.
    Between { expr: Box<Expr>, low: Box<Expr>, high: Box<Expr>, negated: bool },
    /// `expr [NOT] LIKE pattern`.
    Like { expr: Box<Expr>, pattern: Box<Expr>, negated: bool },
    /// `expr AS alias`.
    Alias { expr: Box<Expr>, alias: String },
    /// `*`, as in `count(*)`.
    Wildcard,
    /// `expr [NOT] RLIKE pattern`.
    RLike { expr: Box<Expr>, pattern: Box<Expr>, negated: bool },
    /// `left <=> right`.
    NullSafeEq { left: Box<Expr>, right: Box<Expr> },
    /// `left || right`.
    Concat { left: Box<Expr>, right: Box<Expr> },
    /// `TRY_CAST(expr AS type)`.
    TryCast { expr: Box<Expr>, data_type: String },
    /// `func() OVER (PARTITION BY .. ORDER BY .. frame)`.
    WindowExpr {
        function: Box<Expr>,
        partition_by: Vec<Expr>,
        order_by: Vec<(Expr, SortDirection, NullOrdering)>,
        frame: Option<WindowFrame>,
    },
    /// `x -> expr` or `(x, y) -> expr`.
    Lambda { params: Vec<String>, body: Box<Expr> },
    /// `key => value` in a function call.
    NamedArg { name: String, value: Box<Expr> },
    /// `expr.field`.
    FieldAccess { expr: Box<Expr>, field: String },
    /// `expr[key]`.
    Subscript { expr: Box<Expr>, key: Box<Expr> },
    /// `table.*`.
    QualifiedWildcard { qualifier: String },
    /// `DATE '2025-01-01'` and the like.
    TypedLiteral { type_label: String, value: String },
    /// `ARRAY(..)`, `MAP(..)`, `STRUCT(..)`, `NAMED_STRUCT(..)`.
    ComplexLiteral { constructor: String, args: Vec<Expr> },
}

/// Binary operators.
#[derive(Debug, Clone, Copy, PartialEq, Eq, Structural)]
pub enum BinaryOp {
    Add,
    Sub,
    Mul,
    Div,
    Mod,
    Eq,
    Neq,
    Lt,
    Gt,
    LtEq,
    GtEq,
    And,
    Or,
    StringConcat,
    NullSafeEq,
}

/// Unary operators.
#[derive(Debug, Clone, Copy, PartialEq, Eq, Structural)]
pub enum UnaryOp {
    Neg,
    Not,
}

/// The symbol of a binary operator, as it is written.
pub open spec fn binary_op_text(op: BinaryOp) -> Seq<char> {
    match op {
        BinaryOp::Add => "+"@,
        BinaryOp::Sub => "-"@,
        BinaryOp::Mul => "*"@,
        BinaryOp::Div => "/"@,
        BinaryOp::Mod => "%"@,
        BinaryOp::Eq => "="@,
        BinaryOp::Neq => "!="@,
        BinaryOp::Lt => "<"@,
        BinaryOp::Gt => ">"@,
        BinaryOp::LtEq => "<="@,
        BinaryOp::GtEq => ">="@,
        BinaryOp::And => "AND"@,
        BinaryOp::Or => "OR"@,
        BinaryOp::StringConcat => "||"@,
        BinaryOp::NullSafeEq => "<=>"@,
    }
}

impl BinaryOp {
    /// The symbol of the operator, as it is written.
    pub fn as_str(&self) -> (r: &'static str)
        ensures
            r@ == binary_op_text(*self),
    {
        match self {
            BinaryOp::Add => "+",
            BinaryOp::Sub => "-",
            BinaryOp::Mul => "*",
            BinaryOp::Div => "/",
            BinaryOp::Mod => "%",
            BinaryOp::Eq => "=",
            BinaryOp::Neq => "!=",
            BinaryOp::Lt => "<",
            BinaryOp::Gt => ">",
            BinaryOp::LtEq => "<=",
            BinaryOp::GtEq => ">=",
            BinaryOp::And => "AND",
            BinaryOp::Or => "OR",
            BinaryOp::StringConcat => "||",
            BinaryOp::NullSafeEq => "<=>",
        }
    }
}

/// The symbol of a unary operator, as it is written.
pub open spec fn unary_op_text(op: UnaryOp) -> Seq<char> {
    match op {
        UnaryOp::Neg => "-"@,
        UnaryOp::Not => "NOT"@,
    }
}

impl UnaryOp {
    /// The symbol of the operator, as it is written.
    pub fn as_str(&self) -> (r: &'static str)
        ensures
            r@ == unary_op_text(*self),
    {
        match self {
            UnaryOp::Neg => "-",
            UnaryOp::Not => "NOT",
        }
    }
}

/// Literal values. A floating-point literal is held by its decimal text, as written.
#[derive(Debug, PartialEq)]
pub enum Literal {
    String(String),
    Integer(i64),
    Float(String),
    Boolean(bool),
    Null,
}

/// The meaning of a literal.
pub enum LiteralV {
    Str(Seq<char>),
    Int(int),
    Float(Seq<char>),
    Bool(bool),
    Null,
}

/// The meaning of an expression tree, over mathematical strings and sequences.
/// The forms that the textual grammar never produces are all `Other`.
#[allow(inconsistent_fields)]
pub enum ExprV {
    Lit(LiteralV),
    Col { table: Option<Seq<char>>, column: Seq<char> },
    Bin { left: Box<ExprV>, op: BinaryOp, right: Box<ExprV> },
    Un { op: UnaryOp, expr: Box<ExprV> },
    Call { name: Seq<char>, args: Seq<ExprV>, distinct: bool },
    Case { whens: Seq<(ExprV, ExprV)>, otherwise: Option<Box<ExprV>> },
    Cast { expr: Box<ExprV>, data_type: Seq<char> },
    IsNull { expr: Box<ExprV>, negated: bool },
    InList { expr: Box<ExprV>, list: Seq<ExprV>, negated: bool },
    Between { expr: Box<ExprV>, low: Box<ExprV>, high: Box<ExprV>, negated: bool },
    Like { expr: Box<ExprV>, pattern: Box<ExprV>, negated: bool },
    Alias { expr: Box<ExprV>, alias: Seq<char> },
    Wildcard,
    RLike { expr: Box<ExprV>, pattern: Box<ExprV>, negated: bool },
    NullSafeEq { left: Box<ExprV>, right: Box<ExprV> },
    Concat { left: Box<ExprV>, right: Box<ExprV> },
    TryCast { expr: Box<ExprV>, data_type: Seq<char> },
    Window {
        function: Box<ExprV>,
        partition_by: Seq<ExprV>,
        order_by: Seq<(ExprV, SortDirection, NullOrdering)>,
        frame: Option<FrameV>,
    },
    Lambda { params: Seq<Seq<char>>, body: Box<ExprV> },
    NamedArg { name: Seq<char>, value: Box<ExprV> },
    FieldAccess { expr: Box<ExprV>, field: Seq<char> },
    Subscript { expr: Box<ExprV>, key: Box<ExprV> },
    QualifiedWildcard { qualifier: Seq<char> },
    TypedLiteral { type_label: Seq<char>, value: Seq<char> },
    ComplexLiteral { constructor: Seq<char>, args: Seq<ExprV> },
}

/// The meaning of a window frame.
pub struct FrameV {
    pub frame_type: FrameType,
    pub start: BoundV,
    pub end: BoundV,
}

/// The meaning of a window frame bound.
pub enum BoundV {
    UnboundedPreceding,
    UnboundedFollowing,
    CurrentRow,
    Preceding(Box<ExprV>),
    Following(Box<ExprV>),
}

pub open spec fn literal_view(l: Literal) -> LiteralV {
    match l {
        Literal::String(s) => LiteralV::Str(s@),
        Literal::Integer(i) => LiteralV::Int(i as int),
        Literal::Float(t) => LiteralV::Float(t@),
        Literal::Boolean(b) => LiteralV::Bool(b),
        Literal::Null => LiteralV::Null,
    }
}

pub open spec fn opt_string_view(o: Option<String>) -> Option<Seq<char>> {
    match o {
        Some(s) => Some(s@),
        None => None,
    }
}

/// The meaning of an expression tree.
pub open spec fn expr_view(e: Expr) -> ExprV
    decreases e,
{
    match e {
        Expr::Literal(l) => ExprV::Lit(literal_view(l)),
        Expr::ColumnRef { table, column } => ExprV::Col { table: opt_string_view(table), column: column@ },
        Expr::BinaryOp { left, op, right } => ExprV::Bin {
            left: Box::new(expr_view(*left)),
            op,
            right: Box::new(expr_view(*right)),
        },
        Expr::UnaryOp { op, expr } => ExprV::Un { op, expr: Box::new(expr_view(*expr)) },
        Expr::FunctionCall { name, args, distinct } => ExprV::Call {
            name: name@,
            args: exprs_view(args@),
            distinct,
        },
        Expr::Case { when_clauses, else_clause } => ExprV::Case {
            whens: pairs_view(when_clauses@),
            otherwise: match else_clause {
                Some(b) => Some(Box::new(expr_view(*b))),
                None => None,
            },
        },
        Expr::Cast { expr, data_type } => ExprV::Cast { expr: Box::new(expr_view(*expr)), data_type: data_type@ },
        Expr::IsNull { expr, negated } => ExprV::IsNull { expr: Box::new(expr_view(*expr)), negated },
        Expr::InList { expr, list, negated } => ExprV::InList {
            expr: Box::new(expr_view(*expr)),
            list: exprs_view(list@),
            negated,
        },
        Expr::Between { expr, low, high, negated } => ExprV::Between {
            expr: Box::new(expr_view(*expr)),
            low: Box::new(expr_view(*low)),
            high: Box::new(expr_view(*high)),
            negated,
        },
        Expr::Like { expr, pattern, negated } => ExprV::Like {
            expr: Box::new(expr_view(*expr)),
            pattern: Box::new(expr_view(*pattern)),
            negated,
        },
        Expr::Alias { expr, alias } => ExprV::Alias { expr: Box::new(expr_view(*expr)), alias: alias@ },
        Expr::Wildcard => ExprV::Wildcard,
        Expr::RLike { expr, pattern, negated } => ExprV::RLike {
            expr: Box::new(expr_view(*expr)),
            pattern: Box::new(expr_view(*pattern)),
            negated,
        },
        Expr::NullSafeEq { left, right } => ExprV::NullSafeEq {
            left: Box::new(expr_view(*left)),
            right: Box::new(expr_view(*right)),
        },
        Expr::Concat { left, right } => ExprV::Concat { left: Box::new(expr_view(*left)), right: Box::new(expr_view(*right)) },
        Expr::TryCast { expr, data_type } => ExprV::TryCast { expr: Box::new(expr_view(*expr)), data_type: data_type@ },
        Expr::WindowExpr { function, partition_by, order_by, frame } => ExprV::Window {
            function: Box::new(expr_view(*function)),
            partition_by: exprs_view(partition_by@),
            order_by: sort_keys_view(order_by@),
            frame: match frame {
                Some(f) => Some(FrameV {
                    frame_type: f.frame_type,
                    start: match f.start {
                        FrameBound::UnboundedPreceding => BoundV::UnboundedPreceding,
                        FrameBound::UnboundedFollowing => BoundV::UnboundedFollowing,
                        FrameBound::CurrentRow => BoundV::CurrentRow,
                        FrameBound::Preceding(b) => BoundV::Preceding(Box::new(expr_view(*b))),
                        FrameBound::Following(b) => BoundV::Following(Box::new(expr_view(*b))),
                    },
                    end: match f.end {
                        FrameBound::UnboundedPreceding => BoundV::UnboundedPreceding,
                        FrameBound::UnboundedFollowing => BoundV::UnboundedFollowing,
                        FrameBound::CurrentRow => BoundV::CurrentRow,
                        FrameBound::Preceding(b) => BoundV::Preceding(Box::new(expr_view(*b))),
                        FrameBound::Following(b) => BoundV::Following(Box::new(expr_view(*b))),
                    },
                }),
                None => None,
            },
        },
        Expr::Lambda { params, body } => ExprV::Lambda {
            params: params@.map_values(|x: String| x@),
            body: Box::new(expr_view(*body)),
        },
        Expr::NamedArg { name, value } => ExprV::NamedArg { name: name@, value: Box::new(expr_view(*value)) },
        Expr::FieldAccess { expr, field } => ExprV::FieldAccess { expr: Box::new(expr_view(*expr)), field: field@ },
        Expr::Subscript { expr, key } => ExprV::Subscript { expr: Box::new(expr_view(*expr)), key: Box::new(expr_view(*key)) },
        Expr::QualifiedWildcard { qualifier } => ExprV::QualifiedWildcard { qualifier: qualifier@ },
        Expr::TypedLiteral { type_label, value } => ExprV::TypedLiteral { type_label: type_label@, value: value@ },
        Expr::ComplexLiteral { constructor, args } => ExprV::ComplexLiteral {
            constructor: constructor@,
            args: exprs_view(args@),
        },
    }
}

/// The meanings of a sequence of sort keys.
pub open spec fn sort_keys_view(v: Seq<(Expr, SortDirection, NullOrdering)>) -> Seq<(ExprV, SortDirection, NullOrdering)>
    decreases v,
{
    if v.len() == 0 {
        Seq::empty()
    } else {
        seq![(expr_view(v[0].0), v[0].1, v[0].2)] + sort_keys_view(v.subrange(1, v.len() as int))
    }
}

/// The meanings of a sequence of expression trees.
pub open spec fn exprs_view(v: Seq<Expr>) -> Seq<ExprV>
    decreases v,
{
    if v.len() == 0 {
        Seq::empty()
    } else {
        seq![expr_view(v[0])] + exprs_view(v.subrange(1, v.len() as int))
    }
}

/// The meanings of a sequence of pairs of expression trees.
pub open spec fn pairs_view(v: Seq<(Expr, Expr)>) -> Seq<(ExprV, ExprV)>
    decreases v,
{
    if v.len() == 0 {
        Seq::empty()
    } else {
        seq![(expr_view(v[0].0), expr_view(v[0].1))] + pairs_view(v.subrange(1, v.len() as int))
    }
}

impl View for Expr {
    type V = ExprV;

    open spec fn view(&self) -> ExprV {
        expr_view(*self)
    }
}

/// Appending one tree appends its meaning.
pub proof fn lemma_exprs_view_push(v: Seq<Expr>, e: Expr)
    ensures
        exprs_view(v.push(e)) == exprs_view(v).push(expr_view(e)),
    decreases v.len(),
{
    if v.len() == 0 {
        let w = v.push(e);
        assert(w[0] == e);
        assert(w.subrange(1, 1) =~= Seq::<Expr>::empty());
        assert(exprs_view(w.subrange(1, 1)) =~= Seq::<ExprV>::empty());
        assert(exprs_view(w) =~= seq![expr_view(e)]);
        assert(exprs_view(v) =~= Seq::<ExprV>::empty());
    } else {
        lemma_exprs_view_push(v.subrange(1, v.len() as int), e);
        assert(v.push(e).subrange(1, v.len() + 1 as int) =~= v.subrange(1, v.len() as int).push(e));
        assert(exprs_view(v.push(e)) =~= exprs_view(v).push(expr_view(e)));
    }
}

/// Appending one pair appends its meaning.
pub proof fn lemma_pairs_view_push(v: Seq<(Expr, Expr)>, e: (Expr, Expr))
    ensures
        pairs_view(v.push(e)) == pairs_view(v).push((expr_view(e.0), expr_view(e.1))),
    decreases v.len(),
{
    if v.len() == 0 {
        let w = v.push(e);
        assert(w[0] == e);
        assert(w.subrange(1, 1) =~= Seq::<(Expr, Expr)>::empty());
        assert(pairs_view(w.subrange(1, 1)) =~= Seq::<(ExprV, ExprV)>::empty());
        assert(pairs_view(w) =~= seq![(expr_view(e.0), expr_view(e.1))]);
        assert(pairs_view(v) =~= Seq::<(ExprV, ExprV)>::empty());
    } else {
        lemma_pairs_view_push(v.subrange(1, v.len() as int), e);
        assert(v.push(e).subrange(1, v.len() + 1 as int) =~= v.subrange(1, v.len() as int).push(e));
        assert(pairs_view(v.push(e)) =~= pairs_view(v).push((expr_view(e.0), expr_view(e.1))));
    }
}

} // verus!
