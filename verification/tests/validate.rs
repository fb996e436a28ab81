use std::collections::BTreeMap;
use teckel::asset::{Asset, AssetMetadata, Context};
use teckel::document::{Document, InputDef, OutputDef};
use teckel::error::{TeckelError, TeckelErrorCode};
use teckel::source::{InputSource, Source, WhereTransform};
use teckel::validate::{check_version, is_asset_ref, levenshtein, validate};

fn doc(version: &str) -> Document {
    Document {
        version: version.to_string(),
        pipeline: None,
        config: None,
        secrets: None,
        hooks: None,
        quality: None,
        templates: None,
        input: vec![],
        streaming_input: None,
        transformation: None,
        output: vec![],
        streaming_output: None,
        exposures: None,
    }
}

fn input(name: &str) -> InputDef {
    InputDef {
        name: name.to_string(),
        format: "csv".to_string(),
        path: "x.csv".to_string(),
        options: BTreeMap::new(),
        description: None,
        tags: None,
        meta: None,
        owner: None,
        columns: None,
    }
}

fn output(name: &str) -> OutputDef {
    OutputDef {
        name: name.to_string(),
        format: "csv".to_string(),
        path: "out.csv".to_string(),
        mode: "error".to_string(),
        options: BTreeMap::new(),
        description: None,
        tags: None,
        meta: None,
        freshness: None,
        maturity: None,
    }
}

fn asset(name: &str, source: Source) -> Asset {
    Asset { asset_ref: name.to_string(), source, metadata: AssetMetadata::default() }
}

fn input_source() -> Source {
    Source::Input(InputSource { format: "csv".to_string(), path: "x.csv".to_string(), options: BTreeMap::new() })
}

fn where_from(from: &str) -> Source {
    Source::Where(WhereTransform { from: from.to_string(), filter: "x > 0".to_string() })
}

fn messages(e: TeckelError) -> Vec<String> {
    match e {
        TeckelError::Validation { count, errors } => {
            assert_eq!(count, errors.len());
            errors.iter().map(|x| x.render()).collect()
        }
        other => panic!("expected Validation, got {other:?}"),
    }
}

#[test]
fn validates_version() {
    let d = doc("1.0");
    assert!(check_version(&d).is_err());
}

#[test]
fn levenshtein_distance() {
    assert_eq!(levenshtein("kitten", "sitting"), 3);
    assert_eq!(levenshtein("abc", "abc"), 0);
    assert_eq!(levenshtein("", "abc"), 3);
}

#[test]
fn levenshtein_counts_bytes() {
    assert_eq!(levenshtein("abc", ""), 3);
    assert_eq!(levenshtein("flaw", "lawn"), 2);
    assert_eq!(levenshtein("é", "e"), 2);
}

#[test]
fn accepts_both_versions() {
    assert!(check_version(&doc("2.0")).is_ok());
    assert!(check_version(&doc("3.0")).is_ok());
    let err = check_version(&doc("1.0")).unwrap_err();
    assert_eq!(err.render(), "[E-VERSION-001] unsupported version \"1.0\", expected \"2.0\" or \"3.0\"");
}

#[test]
fn asset_ref_format() {
    assert!(is_asset_ref("employees"));
    assert!(is_asset_ref("a-b_c9"));
    assert!(!is_asset_ref("123_bad"));
    assert!(!is_asset_ref(""));
    assert!(!is_asset_ref("has space"));
    assert!(is_asset_ref(&"a".repeat(128)));
    assert!(!is_asset_ref(&"a".repeat(129)));
}

#[test]
fn valid_pipeline_passes() {
    let mut ctx = Context::new();
    ctx.insert("src".to_string(), asset("src", input_source()));
    ctx.insert("filtered".to_string(), asset("filtered", where_from("src")));
    let mut d = doc("2.0");
    d.input.push(input("src"));
    d.output.push(output("src"));
    assert!(validate(&ctx, &d).is_ok());
}

#[test]
fn undefined_reference_suggests_name() {
    let mut ctx = Context::new();
    ctx.insert("employees".to_string(), asset("employees", input_source()));
    ctx.insert("filtered".to_string(), asset("filtered", where_from("emplyees")));
    let mut d = doc("2.0");
    d.input.push(input("employees"));
    d.output.push(output("employees"));
    let msgs = messages(validate(&ctx, &d).unwrap_err());
    assert_eq!(
        msgs,
        vec!["[E-REF-001] asset \"filtered\" references undefined asset \"emplyees\" (did you mean \"employees\"?)".to_string()]
    );
}

#[test]
fn errors_come_in_rule_order() {
    let mut ctx = Context::new();
    ctx.insert("a".to_string(), asset("a", where_from("b")));
    ctx.insert("b".to_string(), asset("b", where_from("a")));
    ctx.insert("c".to_string(), asset("c", where_from("zzzzzzzz")));
    let mut d = doc("2.0");
    d.input.push(input("1bad"));
    d.output.push(output("nowhere"));
    let msgs = messages(validate(&ctx, &d).unwrap_err());
    assert_eq!(
        msgs,
        vec![
            "[E-NAME-002] invalid AssetRef \"1bad\" -- must start with a letter".to_string(),
            "[E-REF-001] asset \"c\" references undefined asset \"zzzzzzzz\"".to_string(),
            "[E-CYCLE-001] circular dependency detected in the pipeline DAG".to_string(),
            "[E-REF-001] output \"nowhere\" references undefined asset".to_string(),
        ]
    );
}

#[test]
fn empty_lists_are_errors() {
    let ctx = Context::new();
    let d = doc("2.0");
    let msgs = messages(validate(&ctx, &d).unwrap_err());
    assert_eq!(
        msgs,
        vec![
            "[E-LIST-001] \"input\" must contain at least one element".to_string(),
            "[E-LIST-001] \"output\" must contain at least one element".to_string(),
        ]
    );
    let e = validate(&ctx, &d).unwrap_err();
    assert_eq!(e.render(), "Validation failed with 2 error(s)");
    assert!(matches!(e, TeckelError::Validation { count: 2, .. }));
    let _ = TeckelErrorCode::EList001;
}

#[test]
fn output_may_not_reference_another_output() {
    let mut ctx = Context::new();
    ctx.insert("x".to_string(), asset("x", input_source()));
    let mut d = doc("2.0");
    d.input.push(input("x"));
    d.output.push(output("y"));
    d.output.push(output("y"));
    match validate(&ctx, &d).unwrap_err() {
        TeckelError::Validation { count, errors } => {
            assert_eq!(count, 2);
            for e in &errors {
                assert_eq!(e.render(), "[E-REF-001] output \"y\" references undefined asset");
            }
        }
        other => panic!("expected validation errors, got {other:?}"),
    }
}

#[test]
fn levenshtein_is_symmetric_and_zero_on_itself() {
    assert_eq!(levenshtein("kitten", "sitting"), levenshtein("sitting", "kitten"));
    assert_eq!(levenshtein("flaw", "lawn"), levenshtein("lawn", "flaw"));
    assert_eq!(levenshtein("employees", "employees"), 0);
}
