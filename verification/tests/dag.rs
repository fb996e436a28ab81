use std::collections::BTreeMap;
use teckel::asset::{Asset, AssetMetadata, Context};
use teckel::dag::{execution_plan, propagate_tags};
use teckel::pipeline::Pipeline;
use teckel::source::{InputSource, Source, WhereTransform};

fn make_input(name: &str, tags: &[&str]) -> (String, Asset) {
    (
        name.to_string(),
        Asset {
            asset_ref: name.to_string(),
            source: Source::Input(InputSource {
                format: "csv".to_string(),
                path: "test.csv".to_string(),
                options: BTreeMap::new(),
            }),
            metadata: AssetMetadata { tags: tags.iter().map(|s| s.to_string()).collect(), ..Default::default() },
        },
    )
}

fn make_where(name: &str, from: &str, tags: &[&str], remove: &[&str]) -> (String, Asset) {
    (
        name.to_string(),
        Asset {
            asset_ref: name.to_string(),
            source: Source::Where(WhereTransform { from: from.to_string(), filter: "x > 0".to_string() }),
            metadata: AssetMetadata {
                tags: tags.iter().map(|s| s.to_string()).collect(),
                remove_tags: remove.iter().map(|s| s.to_string()).collect(),
                ..Default::default()
            },
        },
    )
}

#[test]
fn execution_plan_sorts_topologically() {
    let mut context = Context::new();
    let (k, v) = make_input("src", &[]);
    context.insert(k, v);
    let (k, v) = make_where("filtered", "src", &[], &[]);
    context.insert(k, v);

    let plan = execution_plan(&context).unwrap();
    let src_idx = plan.iter().position(|s| s == "src").unwrap();
    let filt_idx = plan.iter().position(|s| s == "filtered").unwrap();
    assert!(src_idx < filt_idx);
}

#[test]
fn tag_propagation_inherits() {
    let mut pipeline = Pipeline::default();
    let (k, v) = make_input("src", &["pii", "sensitive"]);
    pipeline.context.insert(k, v);
    let (k, v) = make_where("filtered", "src", &["processed"], &[]);
    pipeline.context.insert(k, v);

    propagate_tags(&mut pipeline).unwrap();

    let tags = &pipeline.context.get("filtered").unwrap().metadata.tags;
    assert!(tags.contains(&"processed".to_string()));
    assert!(tags.contains(&"pii".to_string()));
    assert!(tags.contains(&"sensitive".to_string()));
}

#[test]
fn tag_propagation_removes() {
    let mut pipeline = Pipeline::default();
    let (k, v) = make_input("src", &["pii", "sensitive", "raw"]);
    pipeline.context.insert(k, v);
    let (k, v) = make_where("cleaned", "src", &["clean"], &["pii", "raw"]);
    pipeline.context.insert(k, v);

    propagate_tags(&mut pipeline).unwrap();

    let tags = &pipeline.context.get("cleaned").unwrap().metadata.tags;
    assert!(tags.contains(&"clean".to_string()));
    assert!(tags.contains(&"sensitive".to_string()));
    assert!(!tags.contains(&"pii".to_string()));
    assert!(!tags.contains(&"raw".to_string()));
}

#[test]
fn tag_propagation_multi_hop() {
    let mut pipeline = Pipeline::default();
    let (k, v) = make_input("a", &["origin"]);
    pipeline.context.insert(k, v);
    let (k, v) = make_where("b", "a", &["mid"], &[]);
    pipeline.context.insert(k, v);
    let (k, v) = make_where("c", "b", &["final"], &[]);
    pipeline.context.insert(k, v);

    propagate_tags(&mut pipeline).unwrap();

    let tags = &pipeline.context.get("c").unwrap().metadata.tags;
    assert!(tags.contains(&"origin".to_string()));
    assert!(tags.contains(&"mid".to_string()));
    assert!(tags.contains(&"final".to_string()));
}

#[test]
fn tags_keep_own_first_without_duplicates() {
    let mut pipeline = Pipeline::default();
    let (k, v) = make_input("src", &["x", "y"]);
    pipeline.context.insert(k, v);
    let (k, v) = make_where("t", "src", &["y", "own"], &[]);
    pipeline.context.insert(k, v);
    propagate_tags(&mut pipeline).unwrap();
    assert_eq!(pipeline.context.get("t").unwrap().metadata.tags, vec!["y".to_string(), "own".to_string(), "x".to_string()]);
    assert_eq!(pipeline.context.get("src").unwrap().metadata.tags, vec!["x".to_string(), "y".to_string()]);
}

#[test]
fn cycle_is_an_error_and_changes_nothing() {
    let mut context = Context::new();
    let (k, v) = make_where("a", "b", &["ta"], &[]);
    context.insert(k, v);
    let (k, v) = make_where("b", "a", &["tb"], &[]);
    context.insert(k, v);
    let e = execution_plan(&context).unwrap_err();
    assert_eq!(e.render(), "[E-CYCLE-001] circular dependency detected — cannot produce execution plan");
    let mut pipeline = Pipeline { context, ..Pipeline::default() };
    assert!(propagate_tags(&mut pipeline).is_err());
    assert_eq!(pipeline.context.get("a").unwrap().metadata.tags, vec!["ta".to_string()]);
}

#[test]
fn self_dependency_is_a_cycle() {
    let mut context = Context::new();
    let (k, v) = make_where("a", "a", &[], &[]);
    context.insert(k, v);
    assert!(execution_plan(&context).is_err());
}

#[test]
fn plan_lists_every_asset_once() {
    let mut context = Context::new();
    for (k, v) in [make_input("z", &[]), make_where("m", "z", &[], &[]), make_where("a", "m", &[], &[]), make_input("q", &[])] {
        context.insert(k, v);
    }
    let plan = execution_plan(&context).unwrap();
    let mut sorted = plan.clone();
    sorted.sort();
    assert_eq!(sorted, vec!["a", "m", "q", "z"]);
    let pos = |n: &str| plan.iter().position(|s| s == n).unwrap();
    assert!(pos("z") < pos("m"));
    assert!(pos("m") < pos("a"));
}

fn make_output(name: &str, from: &str) -> (String, Asset) {
    (
        format!("output_{name}"),
        Asset {
            asset_ref: from.to_string(),
            source: Source::Output(teckel::source::OutputSource {
                asset_ref: from.to_string(),
                format: "csv".to_string(),
                path: "out.csv".to_string(),
                mode: teckel::types::WriteMode::Overwrite,
                options: BTreeMap::new(),
            }),
            metadata: AssetMetadata::default(),
        },
    )
}

#[test]
fn plan_puts_inputs_then_transformations_then_outputs() {
    let mut context = Context::new();
    for (k, v) in [make_input("a", &[]), make_where("t", "a", &[], &[]), make_input("z", &[]), make_output("t", "t")] {
        context.insert(k, v);
    }
    let plan = execution_plan(&context).unwrap();
    assert_eq!(plan.len(), 4);
    let mut first: Vec<String> = plan[0..2].to_vec();
    first.sort();
    assert_eq!(first, vec!["a".to_string(), "z".to_string()]);
    assert_eq!(plan[2], "t");
    assert_eq!(plan[3], "output_t");
}

#[test]
fn plan_puts_an_asset_after_the_output_it_reads() {
    let mut context = Context::new();
    for (k, v) in [make_input("x", &[]), make_output("x", "x"), make_where("t", "output_x", &[], &[])] {
        context.insert(k, v);
    }
    let plan = execution_plan(&context).unwrap();
    assert_eq!(plan, vec!["x".to_string(), "output_x".to_string(), "t".to_string()]);
}
