use std::collections::BTreeMap;
use teckel::document::{
    Document, ExceptOp, GroupOp, InputDef, IntersectOp, JoinOp, JoinTargetDef, LimitOp, OrderByOp,
    OutputDef, RawTransformation, SelectOp, SortColumnDef, SplitOp, TransformationOp, UnionOp,
    WhereOp, DistinctOp,
};
use teckel::pipeline::{parse_document, parse_document_context};
use teckel::source::Source;
use teckel::types::{JoinType, Primitive, SortColumn, SortDirection, NullOrdering, WriteMode};
use teckel::variables::substitute;

fn input(name: &str, format: &str, path: &str) -> InputDef {
    InputDef {
        name: name.to_string(),
        format: format.to_string(),
        path: path.to_string(),
        options: BTreeMap::new(),
        description: None,
        tags: None,
        meta: None,
        owner: None,
        columns: None,
    }
}

fn output(name: &str, format: &str, path: &str, mode: &str) -> OutputDef {
    OutputDef {
        name: name.to_string(),
        format: format.to_string(),
        path: path.to_string(),
        mode: mode.to_string(),
        options: BTreeMap::new(),
        description: None,
        tags: None,
        meta: None,
        freshness: None,
        maturity: None,
    }
}

fn transformation(name: &str, operation: TransformationOp) -> RawTransformation {
    RawTransformation { name: name.to_string(), description: None, tags: None, remove_tags: None, meta: None, operation }
}

fn strings(v: &[&str]) -> Vec<String> {
    v.iter().map(|s| s.to_string()).collect()
}

fn where_op(from: &str, filter: &str) -> TransformationOp {
    TransformationOp::Where(WhereOp { from: from.to_string(), filter: filter.to_string() })
}

#[test]
fn parse_simple_pipeline() {
    let mut employees = input("employees", "csv", "data/employees.csv");
    employees.options.insert("header".to_string(), Primitive::Bool(true));
    let doc = Document {
        pipeline: None,
        config: None,
        secrets: None,
        hooks: None,
        quality: None,
        templates: None,
        streaming_input: None,
        streaming_output: None,
        exposures: None,
        version: "2.0".to_string(),
        input: vec![employees],
        transformation: Some(vec![
            transformation("filtered", where_op("employees", "salary > 50000")),
            transformation(
                "projected",
                TransformationOp::Select(SelectOp { from: "filtered".to_string(), columns: strings(&["id", "name", "salary"]) }),
            ),
        ]),
        output: vec![output("projected", "parquet", "output/employees", "overwrite")],
    };
    let pipeline = parse_document(doc).unwrap();

    assert!(pipeline.context.contains_key("employees"));
    assert!(pipeline.context.contains_key("filtered"));
    assert!(pipeline.context.contains_key("projected"));
    assert!(pipeline.context.contains_key("output_projected"));
    assert_eq!(pipeline.context.len(), 4);
    match &pipeline.context.get("output_projected").unwrap().source {
        Source::Output(o) => {
            assert_eq!(o.asset_ref, "projected");
            assert_eq!(o.mode, WriteMode::Overwrite);
        }
        other => panic!("expected Output source, got {other:?}"),
    }
}

#[test]
fn parse_rejects_invalid_version() {
    let doc = Document {
        pipeline: None,
        config: None,
        secrets: None,
        hooks: None,
        quality: None,
        templates: None,
        streaming_input: None,
        streaming_output: None,
        exposures: None,
        version: "1.0".to_string(),
        input: vec![input("x", "csv", "x.csv")],
        transformation: None,
        output: vec![output("x", "csv", "out.csv", "error")],
    };
    let err = parse_document(doc).unwrap_err();
    assert!(err.render().contains("E-VERSION-001"));
}

#[test]
fn parse_with_variable_substitution() {
    let yaml = "version: \"2.0\"\ninput:\n  - name: data\n    format: csv\n    path: \"${DATA_PATH}/input.csv\"\n";
    let vars = BTreeMap::from([("DATA_PATH".to_string(), "/tmp/test".to_string())]);
    let pairs: Vec<(String, String)> = vars.iter().map(|(k, v)| (k.clone(), v.clone())).collect();
    let text = substitute(yaml, &pairs, &Vec::new()).unwrap();
    assert!(text.contains("path: \"/tmp/test/input.csv\""));
    let path = substitute("${DATA_PATH}/input.csv", &pairs, &Vec::new()).unwrap();
    let doc = Document {
        pipeline: None,
        config: None,
        secrets: None,
        hooks: None,
        quality: None,
        templates: None,
        streaming_input: None,
        streaming_output: None,
        exposures: None,
        version: "2.0".to_string(),
        input: vec![input("data", "csv", &path)],
        transformation: None,
        output: vec![output("data", "csv", "out.csv", "error")],
    };
    let pipeline = parse_document(doc).unwrap();
    let asset = pipeline.context.get("data").unwrap();
    match &asset.source {
        Source::Input(input) => {
            assert_eq!(input.path, "/tmp/test/input.csv");
        }
        _ => panic!("expected Input source"),
    }
}

#[test]
fn parse_join_pipeline() {
    let doc = Document {
        pipeline: None,
        config: None,
        secrets: None,
        hooks: None,
        quality: None,
        templates: None,
        streaming_input: None,
        streaming_output: None,
        exposures: None,
        version: "2.0".to_string(),
        input: vec![input("orders", "csv", "orders.csv"), input("customers", "csv", "customers.csv")],
        transformation: Some(vec![transformation(
            "enriched",
            TransformationOp::Join(JoinOp {
                left: "orders".to_string(),
                right: vec![JoinTargetDef {
                    name: "customers".to_string(),
                    join_type: "inner".to_string(),
                    on: strings(&["orders.customer_id = customers.id"]),
                }],
            }),
        )]),
        output: vec![output("enriched", "parquet", "output/enriched", "overwrite")],
    };
    let pipeline = parse_document(doc).unwrap();
    assert!(pipeline.context.contains_key("enriched"));
    let asset = pipeline.context.get("enriched").unwrap();
    assert_eq!(asset.source.dependencies().len(), 2);
    match &asset.source {
        Source::Join(j) => assert_eq!(j.right[0].join_type, JoinType::Inner),
        other => panic!("expected Join, got {other:?}"),
    }
}

#[test]
fn parse_all_core_transformations() {
    let doc = Document {
        pipeline: None,
        config: None,
        secrets: None,
        hooks: None,
        quality: None,
        templates: None,
        streaming_input: None,
        streaming_output: None,
        exposures: None,
        version: "2.0".to_string(),
        input: vec![input("a", "csv", "a.csv"), input("b", "csv", "b.csv")],
        transformation: Some(vec![
            transformation("t_select", TransformationOp::Select(SelectOp { from: "a".to_string(), columns: strings(&["id", "name"]) })),
            transformation("t_where", where_op("a", "x > 0")),
            transformation(
                "t_group",
                TransformationOp::Group(GroupOp { from: "a".to_string(), by: strings(&["region"]), agg: strings(&["sum(amount) as total"]) }),
            ),
            transformation(
                "t_order",
                TransformationOp::OrderBy(OrderByOp {
                    from: "a".to_string(),
                    columns: vec![SortColumnDef::Explicit {
                        column: "id".to_string(),
                        direction: "desc".to_string(),
                        nulls: "last".to_string(),
                    }],
                }),
            ),
            transformation(
                "t_join",
                TransformationOp::Join(JoinOp {
                    left: "a".to_string(),
                    right: vec![JoinTargetDef { name: "b".to_string(), join_type: "left".to_string(), on: strings(&["a.id = b.id"]) }],
                }),
            ),
            transformation(
                "t_union",
                TransformationOp::Union(UnionOp { sources: strings(&["a", "b"]), all: true, by_name: false, allow_missing_columns: false }),
            ),
            transformation(
                "t_intersect",
                TransformationOp::Intersect(IntersectOp { sources: strings(&["a", "b"]), all: false, by_name: false, allow_missing_columns: false }),
            ),
            transformation(
                "t_except",
                TransformationOp::Except(ExceptOp {
                    left: "a".to_string(),
                    right: "b".to_string(),
                    all: false,
                    by_name: false,
                    allow_missing_columns: false,
                }),
            ),
            transformation("t_distinct", TransformationOp::Distinct(DistinctOp { from: "a".to_string(), columns: None })),
            transformation("t_limit", TransformationOp::Limit(LimitOp { from: "a".to_string(), count: 10 })),
        ]),
        output: vec![output("t_select", "csv", "out.csv", "error")],
    };
    let pipeline = parse_document(doc).unwrap();
    assert_eq!(pipeline.context.len(), 13);
    match &pipeline.context.get("t_order").unwrap().source {
        Source::OrderBy(o) => assert_eq!(
            o.columns,
            vec![SortColumn::Explicit { column: "id".to_string(), direction: SortDirection::Desc, nulls: NullOrdering::Last }]
        ),
        other => panic!("expected OrderBy, got {other:?}"),
    }
}

#[test]
fn split_gives_pass_and_fail_assets() {
    let doc = Document {
        pipeline: None,
        config: None,
        secrets: None,
        hooks: None,
        quality: None,
        templates: None,
        streaming_input: None,
        streaming_output: None,
        exposures: None,
        version: "3.0".to_string(),
        input: vec![input("src", "csv", "s.csv")],
        transformation: Some(vec![transformation(
            "sp",
            TransformationOp::Split(SplitOp {
                from: "src".to_string(),
                condition: "x > 1".to_string(),
                pass: "good".to_string(),
                fail: "bad".to_string(),
            }),
        )]),
        output: vec![output("src", "csv", "o.csv", "append")],
    };
    let ctx = parse_document_context(doc).unwrap();
    assert_eq!(ctx.keys(), vec!["bad", "good", "output_src", "src"]);
    match &ctx.get("bad").unwrap().source {
        Source::Where(w) => {
            assert_eq!(w.from, "src");
            assert_eq!(w.filter, "NOT(x > 1)");
        }
        other => panic!("expected Where, got {other:?}"),
    }
    match &ctx.get("good").unwrap().source {
        Source::Where(w) => assert_eq!(w.filter, "x > 1"),
        other => panic!("expected Where, got {other:?}"),
    }
}

#[test]
fn duplicate_name_is_an_error() {
    let doc = Document {
        pipeline: None,
        config: None,
        secrets: None,
        hooks: None,
        quality: None,
        templates: None,
        streaming_input: None,
        streaming_output: None,
        exposures: None,
        version: "2.0".to_string(),
        input: vec![input("a", "csv", "a.csv"), input("a", "csv", "b.csv")],
        transformation: None,
        output: vec![output("a", "csv", "o.csv", "error")],
    };
    let err = parse_document(doc).unwrap_err();
    assert_eq!(err.render(), "[E-NAME-001] duplicate AssetRef \"a\"");
}

#[test]
fn unknown_join_type_is_an_error() {
    let doc = Document {
        pipeline: None,
        config: None,
        secrets: None,
        hooks: None,
        quality: None,
        templates: None,
        streaming_input: None,
        streaming_output: None,
        exposures: None,
        version: "2.0".to_string(),
        input: vec![input("a", "csv", "a.csv"), input("b", "csv", "b.csv")],
        transformation: Some(vec![transformation(
            "j",
            TransformationOp::Join(JoinOp {
                left: "a".to_string(),
                right: vec![JoinTargetDef { name: "b".to_string(), join_type: "sideways".to_string(), on: vec![] }],
            }),
        )]),
        output: vec![output("j", "csv", "o.csv", "error")],
    };
    let err = parse_document(doc).unwrap_err();
    assert_eq!(
        err.render(),
        "[E-ENUM-001] invalid join type \"sideways\", expected: inner|left|right|outer|cross|left_semi|left_anti"
    );
}

#[test]
fn unknown_write_mode_is_an_error() {
    let doc = Document {
        pipeline: None,
        config: None,
        secrets: None,
        hooks: None,
        quality: None,
        templates: None,
        streaming_input: None,
        streaming_output: None,
        exposures: None,
        version: "2.0".to_string(),
        input: vec![input("a", "csv", "a.csv")],
        transformation: None,
        output: vec![output("a", "csv", "o.csv", "truncate")],
    };
    let err = parse_document(doc).unwrap_err();
    assert_eq!(err.render(), "[E-MODE-001] unknown write mode \"truncate\", expected: error|overwrite|append|ignore");
}

#[test]
fn validation_runs_after_rewrite() {
    let doc = Document {
        pipeline: None,
        config: None,
        secrets: None,
        hooks: None,
        quality: None,
        templates: None,
        streaming_input: None,
        streaming_output: None,
        exposures: None,
        version: "2.0".to_string(),
        input: vec![input("a", "csv", "a.csv")],
        transformation: Some(vec![transformation("t", where_op("missing", "x"))]),
        output: vec![output("t", "csv", "o.csv", "error")],
    };
    let err = parse_document(doc).unwrap_err();
    assert_eq!(err.render(), "Validation failed with 1 error(s)");
}

#[test]
fn parsed_pipeline_reads_only_from_its_own_assets() {
    let doc = Document {
        pipeline: None,
        config: None,
        secrets: None,
        hooks: None,
        quality: None,
        templates: None,
        streaming_input: None,
        streaming_output: None,
        exposures: None,
        version: "2.0".to_string(),
        input: vec![input("orders", "csv", "orders.csv"), input("customers", "csv", "customers.csv")],
        transformation: Some(vec![
            transformation(
                "enriched",
                TransformationOp::Join(JoinOp {
                    left: "orders".to_string(),
                    right: vec![JoinTargetDef {
                        name: "customers".to_string(),
                        join_type: "left".to_string(),
                        on: strings(&["orders.customer_id = customers.id"]),
                    }],
                }),
            ),
            transformation("big", where_op("enriched", "amount > 100")),
        ]),
        output: vec![output("big", "parquet", "out/big", "overwrite")],
    };
    let pipeline = parse_document(doc).unwrap();
    for key in pipeline.context.keys() {
        let asset = pipeline.context.get(&key).unwrap();
        for dep in asset.source.dependencies() {
            assert!(pipeline.context.contains_key(&dep), "{key} reads from missing {dep}");
        }
    }
}

#[test]
fn parse_context_is_the_context_of_parse() {
    let make = || Document {
        pipeline: None,
        config: None,
        secrets: None,
        hooks: None,
        quality: None,
        templates: None,
        streaming_input: None,
        streaming_output: None,
        exposures: None,
        version: "2.0".to_string(),
        input: vec![input("a", "csv", "a.csv")],
        transformation: Some(vec![transformation("b", where_op("a", "x > 1"))]),
        output: vec![output("b", "csv", "b.csv", "overwrite")],
    };
    let pipeline = parse_document(make()).unwrap();
    let context = parse_document_context(make()).unwrap();
    assert_eq!(pipeline.context.keys(), context.keys());
    let mut bad = make();
    bad.version = "1.0".to_string();
    let mut bad2 = make();
    bad2.version = "1.0".to_string();
    assert_eq!(parse_document(bad).unwrap_err().render(), parse_document_context(bad2).unwrap_err().render());
}
