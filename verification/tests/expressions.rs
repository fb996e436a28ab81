use std::collections::BTreeMap;
use teckel::asset::{Asset, AssetMetadata, Context};
use teckel::document::{Document, InputDef, OutputDef, RawTransformation, TransformationOp, WhereOp};
use teckel::error::{TeckelError, TeckelErrorCode};
use teckel::pipeline::parse_document_with;
use teckel::source::{
    Branch, ConditionalTransform, JoinTarget, JoinTransform, SelectTransform, Source, WhereTransform,
};
use teckel::types::JoinType;
use teckel::validate::{source_expressions, validate_expressions};

fn s(x: &str) -> String {
    x.to_string()
}

fn asset(name: &str, source: Source) -> Asset {
    Asset { asset_ref: s(name), source, metadata: AssetMetadata::default() }
}

fn document(filter: &str) -> Document {
    Document {
        version: s("2.0"),
        pipeline: None,
        config: None,
        secrets: None,
        hooks: None,
        quality: None,
        templates: None,
        input: vec![InputDef {
            name: s("employees"),
            format: s("csv"),
            path: s("e.csv"),
            options: BTreeMap::new(),
            description: None,
            tags: None,
            meta: None,
            owner: None,
            columns: None,
        }],
        streaming_input: None,
        transformation: Some(vec![RawTransformation {
            name: s("filtered"),
            description: None,
            tags: None,
            remove_tags: None,
            meta: None,
            operation: TransformationOp::Where(WhereOp { from: s("employees"), filter: s(filter) }),
        }]),
        output: vec![OutputDef {
            name: s("filtered"),
            format: s("csv"),
            path: s("o.csv"),
            mode: s("overwrite"),
            options: BTreeMap::new(),
            description: None,
            tags: None,
            meta: None,
            freshness: None,
            maturity: None,
        }],
        streaming_output: None,
        exposures: None,
    }
}

#[test]
fn expressions_of_a_source_in_field_order() {
    let join = Source::Join(JoinTransform {
        left: s("a"),
        right: vec![
            JoinTarget { name: s("b"), join_type: JoinType::Inner, on: vec![s("a.id = b.id")] },
            JoinTarget { name: s("c"), join_type: JoinType::Left, on: vec![s("a.x = c.x"), s("c.y > 1")] },
        ],
    });
    assert_eq!(source_expressions(&join), vec![s("a.id = b.id"), s("a.x = c.x"), s("c.y > 1")]);
    let conditional = Source::Conditional(ConditionalTransform {
        from: s("a"),
        output_column: s("band"),
        branches: vec![Branch { condition: s("x > 1"), value: s("'high'") }],
        otherwise: Some(s("'low'")),
    });
    assert_eq!(source_expressions(&conditional), vec![s("x > 1"), s("'high'"), s("'low'")]);
}

#[test]
fn valid_expressions_pass() {
    let mut ctx = Context::new();
    ctx.insert(s("a"), asset("a", Source::Select(SelectTransform { from: s("x"), columns: vec![s("id"), s("upper(name)")] })));
    ctx.insert(s("b"), asset("b", Source::Where(WhereTransform { from: s("a"), filter: s("id > 3 AND name = 'x'") })));
    assert!(validate_expressions(&ctx).is_ok());
}

#[test]
fn first_invalid_expression_is_expr_001() {
    let mut ctx = Context::new();
    ctx.insert(s("b"), asset("b", Source::Where(WhereTransform { from: s("a"), filter: s("col1 >> 2") })));
    ctx.insert(s("a"), asset("a", Source::Select(SelectTransform { from: s("x"), columns: vec![s("id"), s("(name")] })));
    match validate_expressions(&ctx).unwrap_err() {
        TeckelError::Spec { code, message } => {
            assert_eq!(code, TeckelErrorCode::EExpr001);
            assert_eq!(
                message,
                "invalid expression in \"a\": expected ')', found end of input (expression: \"(name\")"
            );
        }
        other => panic!("expected a spec error, got {other:?}"),
    }
}

#[test]
fn parse_checks_expressions_only_when_asked() {
    assert!(parse_document_with(document("col1 >> 2"), false).is_ok());
    match parse_document_with(document("col1 >> 2"), true).unwrap_err() {
        TeckelError::Spec { code, message } => {
            assert_eq!(code, TeckelErrorCode::EExpr001);
            assert_eq!(
                message,
                "invalid expression in \"filtered\": unexpected character '>' at position 6 (expression: \"col1 >> 2\")"
            );
        }
        other => panic!("expected a spec error, got {other:?}"),
    }
    assert!(parse_document_with(document("salary > 50000"), true).is_ok());
}
