use serde_yaml::Value;
use teckel::types::FloatBits;
use teckel::yaml_value::{deep_merge, merge_documents, TaggedYaml, YamlEntry, YamlNumber, YamlValue};

fn to_model(v: &Value) -> YamlValue {
    match v {
        Value::Null => YamlValue::Null,
        Value::Bool(b) => YamlValue::Bool(*b),
        Value::Number(n) => YamlValue::Number(if let Some(u) = n.as_u64() {
            YamlNumber::PosInt(u)
        } else if let Some(i) = n.as_i64() {
            YamlNumber::NegInt(i)
        } else {
            YamlNumber::Float(FloatBits { bits: n.as_f64().unwrap().to_bits() })
        }),
        Value::String(s) => YamlValue::String(s.clone()),
        Value::Sequence(items) => YamlValue::Sequence(items.iter().map(to_model).collect()),
        Value::Mapping(m) => YamlValue::Mapping(m.iter().map(|(k, x)| YamlEntry { key: to_model(k), value: to_model(x) }).collect()),
        Value::Tagged(t) => YamlValue::Tagged(Box::new(TaggedYaml { tag: t.tag.to_string(), value: to_model(&t.value) })),
    }
}

fn to_value(v: &YamlValue) -> Value {
    match v {
        YamlValue::Null => Value::Null,
        YamlValue::Bool(b) => Value::Bool(*b),
        YamlValue::Number(YamlNumber::PosInt(u)) => Value::Number((*u).into()),
        YamlValue::Number(YamlNumber::NegInt(i)) => Value::Number((*i).into()),
        YamlValue::Number(YamlNumber::Float(f)) => Value::Number(f64::from_bits(f.bits).into()),
        YamlValue::String(s) => Value::String(s.clone()),
        YamlValue::Sequence(items) => Value::Sequence(items.iter().map(to_value).collect()),
        YamlValue::Mapping(es) => {
            let mut m = serde_yaml::Mapping::new();
            for e in es {
                m.insert(to_value(&e.key), to_value(&e.value));
            }
            Value::Mapping(m)
        }
        YamlValue::Tagged(t) => Value::Tagged(Box::new(serde_yaml::value::TaggedValue {
            tag: serde_yaml::value::Tag::new(t.tag.clone()),
            value: to_value(&t.value),
        })),
    }
}

fn yaml(text: &str) -> YamlValue {
    let v: Value = serde_yaml::from_str(text).unwrap();
    to_model(&v)
}

#[test]
fn deep_merges_objects() {
    let base = yaml("a: 1\nb:\n  c: 2\n  d: 3");
    let overlay = yaml("b:\n  c: 99\n  e: 4");
    let merged = deep_merge(base, overlay);
    let result: Value = serde_yaml::from_str("a: 1\nb:\n  c: 99\n  d: 3\n  e: 4").unwrap();
    assert_eq!(to_value(&merged), result);
}

#[test]
fn replaces_arrays() {
    let base = yaml("items:\n  - a\n  - b");
    let overlay = yaml("items:\n  - x");
    let merged = deep_merge(base, overlay);
    let result: Value = serde_yaml::from_str("items:\n  - x").unwrap();
    assert_eq!(to_value(&merged), result);
}

#[test]
fn entry_order_follows_the_merge() {
    let merged = deep_merge(yaml("a: 1\nb: 2\nc: 3"), yaml("a: 10\nd: 4"));
    let keys: Vec<String> = match &merged {
        YamlValue::Mapping(es) => es
            .iter()
            .map(|e| match &e.key {
                YamlValue::String(s) => s.clone(),
                _ => panic!("string key expected"),
            })
            .collect(),
        _ => panic!("mapping expected"),
    };
    assert_eq!(keys, vec!["c", "b", "a", "d"]);
}

#[test]
fn scalar_overlay_wins() {
    assert_eq!(to_value(&deep_merge(yaml("a: 1"), yaml("5"))), serde_yaml::from_str::<Value>("5").unwrap());
    assert_eq!(to_value(&deep_merge(yaml("5"), yaml("a: 1"))), serde_yaml::from_str::<Value>("a: 1").unwrap());
}

#[test]
fn merges_documents_left_to_right() {
    let merged = merge_documents(vec![yaml("a: 1\nb: 2"), yaml("b: 99\nc: 3"), yaml("c: 100")]).unwrap();
    let result: Value = serde_yaml::from_str("a: 1\nb: 99\nc: 100").unwrap();
    assert_eq!(to_value(&merged), result);
    assert!(merge_documents(vec![]).is_none());
}

fn float_key(f: f64, v: i64) -> YamlEntry {
    YamlEntry {
        key: YamlValue::Number(YamlNumber::Float(FloatBits { bits: f.to_bits() })),
        value: YamlValue::Number(YamlNumber::NegInt(v)),
    }
}

#[test]
fn float_keys_compare_as_yaml_numbers() {
    let base = YamlValue::Mapping(vec![float_key(0.0, -1), float_key(f64::NAN, -2)]);
    let nan2 = f64::from_bits(f64::NAN.to_bits() | 1);
    let overlay = YamlValue::Mapping(vec![float_key(-0.0, -3), float_key(nan2, -4)]);
    match deep_merge(base, overlay) {
        YamlValue::Mapping(es) => {
            assert_eq!(es.len(), 2);
            assert_eq!(es[0].value, YamlValue::Number(YamlNumber::NegInt(-3)));
            assert_eq!(es[1].value, YamlValue::Number(YamlNumber::NegInt(-4)));
        }
        other => panic!("expected a mapping, got {other:?}"),
    }
}
