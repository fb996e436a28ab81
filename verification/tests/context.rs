use std::collections::BTreeMap;
use teckel::asset::{Asset, AssetMetadata, Context};
use teckel::source::{InputSource, Source};

fn asset(name: &str, path: &str) -> Asset {
    Asset {
        asset_ref: name.to_string(),
        source: Source::Input(InputSource { format: "csv".to_string(), path: path.to_string(), options: BTreeMap::new() }),
        metadata: AssetMetadata::default(),
    }
}

#[test]
fn insert_then_get() {
    let mut c = Context::new();
    assert_eq!(c.len(), 0);
    assert!(c.insert("b".to_string(), asset("b", "1")).is_none());
    assert!(c.insert("a".to_string(), asset("a", "2")).is_none());
    assert_eq!(c.len(), 2);
    assert!(c.contains_key("a"));
    assert!(!c.contains_key("c"));
    assert_eq!(c.get("b").unwrap().asset_ref, "b");
    assert!(c.get("c").is_none());
}

#[test]
fn insert_replaces_and_returns_previous() {
    let mut c = Context::new();
    c.insert("a".to_string(), asset("a", "old"));
    let prev = c.insert("a".to_string(), asset("a", "new")).unwrap();
    assert!(matches!(prev.source, Source::Input(ref i) if i.path == "old"));
    assert_eq!(c.len(), 1);
    assert!(matches!(c.get("a").unwrap().source, Source::Input(ref i) if i.path == "new"));
}

#[test]
fn keys_in_order() {
    let mut c = Context::new();
    for n in ["pear", "apple", "Zed", "apples", "é"] {
        c.insert(n.to_string(), asset(n, "x"));
    }
    assert_eq!(c.keys(), vec!["Zed", "apple", "apples", "pear", "é"]);
    assert_eq!(c.find("apples"), Some(2));
    assert_eq!(c.find("banana"), None);
}
