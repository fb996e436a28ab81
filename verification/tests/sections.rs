use std::collections::BTreeMap;
use teckel::document::{
    AsOfJoinOp, CacheDef, ConfigDef, Document, DropNaOp, ExposureDef, HintOp, HintSpecDef, HookDef,
    HooksDef, InputDef, LateralJoinOp, LinkDef, MergeActionDef, MergeOp, NotificationTargetDef,
    NotificationsDef, OffsetOp, OutputDef, ParseOp, PipelineMetadataDef, RawTransformation,
    ReplaceOp, ReplacementDef, SecretKeyDef, SecretsDef, StreamingInputDef, StreamingOutputDef,
    TemplateDef, TransformationOp, UnionOp,
};
use teckel::error::{TeckelError, TeckelErrorCode};
use teckel::pipeline::parse_document;
use teckel::quality::{BoundSpec, Check, Severity};
use teckel::quality_yaml::{EscalateDef, QualityCheckColumns, QualityCheckDef, QualitySuiteDef, ReferenceDef};
use teckel::rewrite::{rewrite_transformation, to_pipeline};
use teckel::source::Source;
use teckel::suites::{rewrite_check, rewrite_quality};
use teckel::types::{
    AsOfDirection, DropNaHow, FloatBits, JoinType, MergeActionType, OutputMode, ParseFormat, Primitive,
};

fn s(x: &str) -> String {
    x.to_string()
}

fn input(name: &str) -> InputDef {
    InputDef {
        name: s(name),
        format: s("csv"),
        path: s("in.csv"),
        options: BTreeMap::new(),
        description: None,
        tags: None,
        meta: None,
        owner: None,
        columns: None,
    }
}

fn output(name: &str) -> OutputDef {
    OutputDef {
        name: s(name),
        format: s("csv"),
        path: s("out.csv"),
        mode: s("error"),
        options: BTreeMap::new(),
        description: None,
        tags: None,
        meta: None,
        freshness: None,
        maturity: None,
    }
}

fn transformation(name: &str, operation: TransformationOp) -> RawTransformation {
    RawTransformation { name: s(name), description: None, tags: None, remove_tags: None, meta: None, operation }
}

fn base() -> Document {
    Document {
        version: s("3.0"),
        pipeline: None,
        config: None,
        secrets: None,
        hooks: None,
        quality: None,
        templates: None,
        input: vec![input("orders")],
        streaming_input: None,
        transformation: None,
        output: vec![output("orders")],
        streaming_output: None,
        exposures: None,
    }
}

fn check(check_type: &str) -> QualityCheckDef {
    QualityCheckDef {
        check_type: s(check_type),
        column: None,
        columns: None,
        threshold: None,
        severity: None,
        escalate: None,
        description: None,
        accepted_values: None,
        range: None,
        pattern: None,
        format: None,
        length_between: None,
        mean: None,
        min: None,
        max: None,
        sum: None,
        stdev: None,
        quantiles: None,
        row_count: None,
        column_count: None,
        max_age: None,
        reference: None,
        condition: None,
        types: None,
    }
}

fn suite(severity: &str, checks: Vec<QualityCheckDef>) -> QualitySuiteDef {
    QualitySuiteDef {
        suite: s("orders_quality"),
        description: None,
        target: s("orders"),
        filter: None,
        severity: s(severity),
        checks,
    }
}

fn spec_error(e: TeckelError) -> (TeckelErrorCode, String) {
    match e {
        TeckelError::Spec { code, message } => (code, message),
        other => panic!("expected a spec error, got {other:?}"),
    }
}

const ONE: u64 = 0x3FF0_0000_0000_0000;

// ── v3 transformations ───────────────────────────────────────────

#[test]
fn offset_is_rewritten_with_its_source() {
    let source = rewrite_transformation(TransformationOp::Offset(OffsetOp { from: s("orders"), count: 10 })).unwrap();
    match &source {
        Source::Offset(t) => {
            assert_eq!(t.from, "orders");
            assert_eq!(t.count, 10);
        }
        other => panic!("expected Offset, got {other:?}"),
    }
    assert_eq!(source.dependencies(), vec![s("orders")]);
}

#[test]
fn drop_na_reads_its_mode() {
    let op = |how: Option<&str>| {
        TransformationOp::DropNa(DropNaOp { from: s("orders"), columns: None, how: how.map(s), min_non_nulls: Some(2) })
    };
    match rewrite_transformation(op(None)).unwrap() {
        Source::DropNa(t) => {
            assert_eq!(t.how, DropNaHow::Any);
            assert_eq!(t.min_non_nulls, Some(2));
        }
        other => panic!("expected DropNa, got {other:?}"),
    }
    match rewrite_transformation(op(Some("all"))).unwrap() {
        Source::DropNa(t) => assert_eq!(t.how, DropNaHow::All),
        other => panic!("expected DropNa, got {other:?}"),
    }
    let (code, message) = spec_error(rewrite_transformation(op(Some("some"))).unwrap_err());
    assert_eq!(code, TeckelErrorCode::EEnum001);
    assert_eq!(message, "invalid dropna how \"some\", expected: any|all");
}

#[test]
fn merge_reads_its_actions_and_depends_on_target_and_source() {
    let action = |a: &str| MergeActionDef { action: s(a), condition: None, set: None, star: true };
    let op = MergeOp {
        target: s("customers"),
        source: s("updates"),
        on: vec![s("customers.id = updates.id")],
        when_matched: vec![action("update")],
        when_not_matched: vec![action("insert")],
        when_not_matched_by_source: vec![action("delete")],
    };
    let source = rewrite_transformation(TransformationOp::Merge(op)).unwrap();
    match &source {
        Source::Merge(t) => {
            assert_eq!(t.when_matched[0].action, MergeActionType::Update);
            assert_eq!(t.when_not_matched[0].action, MergeActionType::Insert);
            assert_eq!(t.when_not_matched_by_source[0].action, MergeActionType::Delete);
            assert!(t.when_matched[0].star);
        }
        other => panic!("expected Merge, got {other:?}"),
    }
    assert_eq!(source.dependencies(), vec![s("customers"), s("updates")]);

    let bad = MergeOp {
        target: s("customers"),
        source: s("updates"),
        on: vec![],
        when_matched: vec![action("update")],
        when_not_matched: vec![action("upsert")],
        when_not_matched_by_source: vec![action("remove")],
    };
    let (code, message) = spec_error(rewrite_transformation(TransformationOp::Merge(bad)).unwrap_err());
    assert_eq!(code, TeckelErrorCode::EEnum001);
    assert_eq!(message, "invalid merge action \"upsert\", expected: update|insert|delete");
}

#[test]
fn parse_reads_its_format() {
    let op = |format: &str| {
        TransformationOp::Parse(ParseOp {
            from: s("raw"),
            column: s("payload"),
            format: s(format),
            schema: None,
            options: BTreeMap::new(),
        })
    };
    match rewrite_transformation(op("json")).unwrap() {
        Source::Parse(t) => {
            assert_eq!(t.format, ParseFormat::Json);
            assert_eq!(t.column, "payload");
            assert!(t.schema.is_none());
        }
        other => panic!("expected Parse, got {other:?}"),
    }
    let (code, message) = spec_error(rewrite_transformation(op("xml")).unwrap_err());
    assert_eq!(code, TeckelErrorCode::EEnum001);
    assert_eq!(message, "invalid parse format \"xml\", expected: json|csv");
}

#[test]
fn as_of_join_defaults_and_errors() {
    let op = |join_type: Option<&str>, direction: Option<&str>| {
        TransformationOp::AsOfJoin(AsOfJoinOp {
            left: s("trades"),
            right: s("quotes"),
            left_as_of: s("ts"),
            right_as_of: s("ts"),
            on: vec![],
            join_type: join_type.map(s),
            direction: direction.map(s),
            tolerance: None,
            allow_exact_matches: true,
        })
    };
    let source = rewrite_transformation(op(None, None)).unwrap();
    match &source {
        Source::AsOfJoin(t) => {
            assert_eq!(t.join_type, JoinType::Left);
            assert_eq!(t.direction, AsOfDirection::Backward);
        }
        other => panic!("expected AsOfJoin, got {other:?}"),
    }
    assert_eq!(source.dependencies(), vec![s("trades"), s("quotes")]);
    match rewrite_transformation(op(Some("inner"), Some("nearest"))).unwrap() {
        Source::AsOfJoin(t) => {
            assert_eq!(t.join_type, JoinType::Inner);
            assert_eq!(t.direction, AsOfDirection::Nearest);
        }
        other => panic!("expected AsOfJoin, got {other:?}"),
    }
    let (code, message) = spec_error(rewrite_transformation(op(Some("sideways"), Some("up"))).unwrap_err());
    assert_eq!(code, TeckelErrorCode::EEnum001);
    assert!(message.starts_with("invalid join type \"sideways\""));
    let (_, message) = spec_error(rewrite_transformation(op(None, Some("up"))).unwrap_err());
    assert_eq!(message, "invalid as-of direction \"up\", expected: backward|forward|nearest");
}

#[test]
fn lateral_join_defaults_to_inner() {
    let op = TransformationOp::LateralJoin(LateralJoinOp { left: s("a"), right: s("b"), join_type: None, on: vec![] });
    match rewrite_transformation(op).unwrap() {
        Source::LateralJoin(t) => assert_eq!(t.join_type, JoinType::Inner),
        other => panic!("expected LateralJoin, got {other:?}"),
    }
}

#[test]
fn replace_and_hint_keep_their_items() {
    let op = TransformationOp::Replace(ReplaceOp {
        from: s("orders"),
        columns: Some(vec![s("status")]),
        mappings: vec![ReplacementDef { old: Primitive::String(s("N/A")), new: Primitive::Int(0) }],
    });
    match rewrite_transformation(op).unwrap() {
        Source::Replace(t) => {
            assert_eq!(t.mappings.len(), 1);
            assert_eq!(t.mappings[0].old, Primitive::String(s("N/A")));
            assert_eq!(t.mappings[0].new, Primitive::Int(0));
        }
        other => panic!("expected Replace, got {other:?}"),
    }
    let op = TransformationOp::Hint(HintOp {
        from: s("orders"),
        hints: vec![HintSpecDef { name: s("broadcast"), parameters: vec![s("customers")] }],
    });
    match rewrite_transformation(op).unwrap() {
        Source::Hint(t) => {
            assert_eq!(t.hints[0].name, "broadcast");
            assert_eq!(t.hints[0].parameters, vec![s("customers")]);
        }
        other => panic!("expected Hint, got {other:?}"),
    }
}

#[test]
fn union_keeps_its_flags() {
    let op = TransformationOp::Union(UnionOp { sources: vec![s("a"), s("b")], all: true, by_name: true, allow_missing_columns: false });
    match rewrite_transformation(op).unwrap() {
        Source::Union(t) => {
            assert!(t.all);
            assert!(t.by_name);
            assert!(!t.allow_missing_columns);
        }
        other => panic!("expected Union, got {other:?}"),
    }
}

#[test]
fn v3_transformation_in_a_pipeline() {
    let mut doc = base();
    doc.transformation = Some(vec![transformation(
        "first_ten",
        TransformationOp::Offset(OffsetOp { from: s("orders"), count: 10 }),
    )]);
    doc.output = vec![output("first_ten")];
    let pipeline = parse_document(doc).unwrap();
    assert!(pipeline.context.contains_key("first_ten"));
    assert!(pipeline.context.contains_key("output_first_ten"));
}

// ── Pipeline-level sections ──────────────────────────────────────

#[test]
fn sections_are_carried_into_the_pipeline() {
    let mut doc = base();
    doc.pipeline = Some(PipelineMetadataDef {
        name: Some(s("orders")),
        namespace: Some(s("sales")),
        version: None,
        description: None,
        owner: None,
        tags: Some(vec![s("daily")]),
        meta: None,
        schedule: Some(s("0 2 * * *")),
        freshness: None,
        links: Some(vec![LinkDef { label: s("wiki"), url: s("https://example.com") }]),
        contacts: None,
        catalog: None,
    });
    doc.config = Some(ConfigDef {
        backend: Some(s("spark")),
        cache: Some(CacheDef { auto_cache_threshold: Some(3), default_storage_level: None }),
        notifications: Some(NotificationsDef {
            on_success: None,
            on_failure: Some(vec![NotificationTargetDef { channel: s("email"), url: None, path: None }]),
        }),
    });
    doc.hooks = Some(HooksDef {
        pre_execution: Some(vec![HookDef { name: s("warm"), command: s("make warm") }]),
        post_execution: None,
    });
    let mut keys = BTreeMap::new();
    keys.insert(s("db"), SecretKeyDef { scope: Some(s("prod")), key: s("DB_PASSWORD") });
    doc.secrets = Some(SecretsDef { keys: Some(keys) });
    doc.templates = Some(vec![TemplateDef { name: s("t"), parameters: BTreeMap::new() }]);
    doc.exposures = Some(vec![ExposureDef {
        name: s("dashboard"),
        exposure_type: s("dashboard"),
        description: None,
        url: None,
        maturity: Some(s("high")),
        owner: None,
        depends_on: vec![s("orders")],
        tags: vec![],
        meta: BTreeMap::new(),
    }]);
    doc.streaming_input = Some(vec![StreamingInputDef {
        name: s("events"),
        format: s("kafka"),
        path: None,
        options: BTreeMap::new(),
        trigger: None,
    }]);
    doc.streaming_output = Some(vec![StreamingOutputDef {
        name: s("sink"),
        format: s("delta"),
        path: Some(s("/tmp/sink")),
        options: BTreeMap::new(),
        output_mode: Some(s("complete")),
        checkpoint_location: None,
        trigger: None,
    }]);
    let pipeline = parse_document(doc).unwrap();
    assert_eq!(pipeline.metadata.name.as_deref(), Some("orders"));
    assert_eq!(pipeline.metadata.tags, vec![s("daily")]);
    assert_eq!(pipeline.metadata.links[0].label, "wiki");
    assert!(pipeline.metadata.contacts.is_empty());
    assert_eq!(pipeline.config.backend.as_deref(), Some("spark"));
    assert_eq!(pipeline.config.cache.as_ref().unwrap().auto_cache_threshold, Some(3));
    let notifications = pipeline.config.notifications.as_ref().unwrap();
    assert!(notifications.on_success.is_empty());
    assert_eq!(notifications.on_failure[0].channel, "email");
    assert_eq!(pipeline.hooks.pre_execution[0].command, "make warm");
    assert!(pipeline.hooks.post_execution.is_empty());
    assert_eq!(pipeline.secrets.get("db").unwrap().key, "DB_PASSWORD");
    assert_eq!(pipeline.templates.len(), 1);
    assert_eq!(pipeline.exposures[0].depends_on, vec![s("orders")]);
    assert_eq!(pipeline.streaming_inputs[0].name, "events");
    assert_eq!(pipeline.streaming_outputs[0].output_mode, Some(OutputMode::Complete));
}

#[test]
fn absent_sections_are_empty() {
    let pipeline = parse_document(base()).unwrap();
    assert!(pipeline.metadata.name.is_none());
    assert!(pipeline.metadata.tags.is_empty());
    assert!(pipeline.config.backend.is_none());
    assert!(pipeline.hooks.pre_execution.is_empty());
    assert!(pipeline.secrets.is_empty());
    assert!(pipeline.quality.is_empty());
    assert!(pipeline.streaming_outputs.is_empty());
}

#[test]
fn unknown_streaming_output_mode_is_rejected() {
    let mut doc = base();
    doc.streaming_output = Some(vec![StreamingOutputDef {
        name: s("sink"),
        format: s("delta"),
        path: None,
        options: BTreeMap::new(),
        output_mode: Some(s("replace")),
        checkpoint_location: None,
        trigger: None,
    }]);
    let (code, message) = spec_error(to_pipeline(doc).unwrap_err());
    assert_eq!(code, TeckelErrorCode::EEnum001);
    assert_eq!(message, "invalid output mode \"replace\", expected: append|update|complete");
}

#[test]
fn context_errors_come_before_section_errors() {
    let mut doc = base();
    doc.output = vec![OutputDef { mode: s("sometimes"), ..output("orders") }];
    doc.quality = Some(vec![suite("error", vec![check("bogus")])]);
    let (code, _) = spec_error(to_pipeline(doc).unwrap_err());
    assert_eq!(code, TeckelErrorCode::EMode001);
}

// ── Quality suites ───────────────────────────────────────────────

#[test]
fn quality_suite_with_checks() {
    let mut completeness = check("completeness");
    completeness.column = Some(s("order_id"));
    completeness.threshold = Some(FloatBits { bits: 0.99f64.to_bits() });
    completeness.severity = Some(s("warn"));
    completeness.escalate = Some(EscalateDef { threshold: FloatBits { bits: 0.9f64.to_bits() }, severity: s("error") });
    let mut uniqueness = check("uniqueness");
    uniqueness.column = Some(s("order_id"));
    let mut schema = check("schema");
    schema.columns = Some(QualityCheckColumns::SchemaColumns { required: Some(vec![s("order_id")]), forbidden: None });
    let mut volume = check("volume");
    volume.row_count = Some(BoundSpec { min: Some(FloatBits { bits: 1.0f64.to_bits() }), max: None, between: None });
    let mut referential = check("referential");
    referential.column = Some(s("customer_id"));
    referential.reference = Some(ReferenceDef { asset: s("customers"), column: s("id") });
    let mut cross = check("cross-column");
    cross.condition = Some(s("shipped_at >= ordered_at"));

    let suites = rewrite_quality(Some(vec![suite(
        "warn",
        vec![completeness, uniqueness, schema, volume, referential, cross],
    )]))
    .unwrap();
    assert_eq!(suites.len(), 1);
    let q = &suites[0];
    assert_eq!(q.severity, Severity::Warn);
    assert_eq!(q.target, "orders");
    match &q.checks[0] {
        Check::Completeness(c) => {
            assert_eq!(c.column, "order_id");
            assert_eq!(f64::from_bits(c.threshold.bits), 0.99);
            assert_eq!(c.severity, Some(Severity::Warn));
            assert_eq!(c.escalate.as_ref().unwrap().severity, Severity::Error);
        }
        other => panic!("expected completeness, got {other:?}"),
    }
    match &q.checks[1] {
        Check::Uniqueness(c) => {
            assert_eq!(c.columns, vec![s("order_id")]);
            assert_eq!(c.threshold.bits, ONE);
        }
        other => panic!("expected uniqueness, got {other:?}"),
    }
    match &q.checks[2] {
        Check::Schema(c) => {
            assert_eq!(c.required_columns, vec![s("order_id")]);
            assert!(c.forbidden_columns.is_empty());
            assert!(c.types.is_empty());
        }
        other => panic!("expected schema, got {other:?}"),
    }
    assert!(matches!(&q.checks[3], Check::Volume(v) if v.row_count.is_some() && v.column_count.is_none()));
    match &q.checks[4] {
        Check::Referential(c) => {
            assert_eq!(c.reference_asset, "customers");
            assert_eq!(c.reference_column, "id");
        }
        other => panic!("expected referential, got {other:?}"),
    }
    assert!(matches!(&q.checks[5], Check::CrossColumn(c) if c.condition == "shipped_at >= ordered_at"));
}

#[test]
fn unknown_check_type_is_quality_002() {
    let (code, message) = spec_error(rewrite_check(check("accuracy")).unwrap_err());
    assert_eq!(code, TeckelErrorCode::EQuality002);
    assert_eq!(message, "unknown quality check type \"accuracy\"");
}

#[test]
fn missing_check_field_is_req_001() {
    let (code, message) = spec_error(rewrite_check(check("freshness")).unwrap_err());
    assert_eq!(code, TeckelErrorCode::EReq001);
    assert_eq!(message, "quality check \"freshness\" requires \"column\"");
    let mut freshness = check("freshness");
    freshness.column = Some(s("updated_at"));
    let (_, message) = spec_error(rewrite_check(freshness).unwrap_err());
    assert_eq!(message, "quality check \"freshness\" requires \"maxAge\"");
    let (_, message) = spec_error(rewrite_check(check("custom")).unwrap_err());
    assert_eq!(message, "quality check \"custom\" requires \"condition\"");
}

#[test]
fn invalid_severity_is_enum_001() {
    let (code, message) = spec_error(rewrite_quality(Some(vec![suite("fatal", vec![])])).unwrap_err());
    assert_eq!(code, TeckelErrorCode::EEnum001);
    assert_eq!(message, "invalid severity \"fatal\", expected: error|warn|info");
}

#[test]
fn quality_errors_reach_parse() {
    let mut doc = base();
    doc.quality = Some(vec![suite("error", vec![check("accuracy")])]);
    let (code, _) = spec_error(parse_document(doc).unwrap_err());
    assert_eq!(code, TeckelErrorCode::EQuality002);
}
