use std::collections::BTreeMap;
use teckel::variables::substitute;

fn pairs(m: &BTreeMap<String, String>) -> Vec<(String, String)> {
    m.iter().map(|(k, v)| (k.clone(), v.clone())).collect()
}

fn no_env() -> Vec<(String, String)> {
    Vec::new()
}

#[test]
fn substitutes_from_map() {
    let vars = BTreeMap::from([("FOO".to_string(), "bar".to_string())]);
    let result = substitute("path: ${FOO}/data", &pairs(&vars), &no_env()).unwrap();
    assert_eq!(result, "path: bar/data");
}

#[test]
fn uses_default_value() {
    let vars = BTreeMap::new();
    let result = substitute("filter: ${COND:1=1}", &pairs(&vars), &no_env()).unwrap();
    assert_eq!(result, "filter: 1=1");
}

#[test]
fn escapes_double_dollar() {
    let vars = BTreeMap::new();
    let result = substitute("text: $${NOT_A_VAR}", &pairs(&vars), &no_env()).unwrap();
    assert_eq!(result, "text: ${NOT_A_VAR}");
}

#[test]
fn errors_on_unresolved() {
    let vars = BTreeMap::new();
    let result = substitute("path: ${MISSING}", &pairs(&vars), &no_env());
    assert!(result.is_err());
}

#[test]
fn unresolved_error_names_first_variable() {
    let err = substitute("${A} ${B}", &no_env(), &no_env()).unwrap_err();
    assert_eq!(err.render(), "[E-VAR-001] unresolved variable \"A\" with no default");
}

#[test]
fn variables_come_before_environment_and_default() {
    let vars = vec![("X".to_string(), "from-vars".to_string())];
    let env = vec![("X".to_string(), "from-env".to_string()), ("Y".to_string(), "env-y".to_string())];
    assert_eq!(substitute("${X:d}", &vars, &env).unwrap(), "from-vars");
    assert_eq!(substitute("${Y:d}", &vars, &env).unwrap(), "env-y");
    assert_eq!(substitute("${Z:d}", &vars, &env).unwrap(), "d");
    assert_eq!(substitute("${Z:}", &vars, &env).unwrap(), "");
}

#[test]
fn text_without_placeholders_is_unchanged() {
    let text = "a $ b {c} $x ${} ${a:b";
    assert_eq!(substitute(text, &no_env(), &no_env()).unwrap(), text);
}

#[test]
fn single_pass() {
    let vars = vec![("A".to_string(), "${B}".to_string()), ("B".to_string(), "no".to_string())];
    assert_eq!(substitute("${A}", &vars, &no_env()).unwrap(), "${B}");
}

#[test]
fn blank_name_is_a_name() {
    let err = substitute("${ }", &no_env(), &no_env()).unwrap_err();
    assert_eq!(err.render(), "[E-VAR-001] unresolved variable \" \" with no default");
}
