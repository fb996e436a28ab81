use teckel::secrets::{fill_secrets, resolve_secrets, secret_aliases, secret_env_key, EnvSecretsProvider, SecretsProvider};

struct Fixed;

impl SecretsProvider for Fixed {
    fn resolve(&self, alias: &str) -> Option<String> {
        if alias == "db_pass" { Some("s3cret".to_string()) } else { None }
    }
}

#[test]
fn resolves_known_secret() {
    let r = resolve_secrets("password: {{secrets.db_pass}}", &Fixed).unwrap();
    assert_eq!(r, "password: s3cret");
}

#[test]
fn unknown_secret_is_an_error() {
    let e = resolve_secrets("a {{secrets.other}} b {{secrets.db_pass}}", &Fixed).unwrap_err();
    assert_eq!(e.render(), "[E-SECRET-001] unresolved secret \"other\"");
}

#[test]
fn aliases_in_order() {
    assert_eq!(
        secret_aliases("{{secrets.a}} x {{secrets.b-2}} {{secrets.9no}} {{secrets.c}"),
        vec!["a".to_string(), "b-2".to_string()]
    );
}

#[test]
fn fill_uses_values_in_order() {
    let r = fill_secrets("{{secrets.a}}-{{secrets.b}}", &vec![Some("1".to_string()), Some("2".to_string())]).unwrap();
    assert_eq!(r, "1-2");
    assert!(fill_secrets("{{secrets.a}}", &vec![None]).is_err());
}

#[test]
fn env_provider_maps_alias_to_variable() {
    assert_eq!(secret_env_key("foo_bar"), "TECKEL_SECRET__FOO_BAR");
    assert_eq!(secret_env_key("my-key"), "TECKEL_SECRET__MY_KEY");
    let p = EnvSecretsProvider { environment: vec![("TECKEL_SECRET__FOO_BAR".to_string(), "v".to_string())] };
    assert_eq!(p.resolve("foo_bar"), Some("v".to_string()));
    assert_eq!(p.resolve("other"), None);
}

struct Nothing;

impl SecretsProvider for Nothing {
    fn resolve(&self, _alias: &str) -> Option<String> {
        None
    }
}

#[test]
fn text_without_secret_placeholders_is_unchanged() {
    let text = "user: app\npassword: {secrets.x} {{ secrets.y }} {{secrets.}}\n";
    assert_eq!(resolve_secrets(text, &Nothing).unwrap(), text);
}

struct Recording {
    known: Option<(String, String)>,
    asked: std::cell::RefCell<Vec<String>>,
}

impl SecretsProvider for Recording {
    fn resolve(&self, alias: &str) -> Option<String> {
        self.asked.borrow_mut().push(alias.to_string());
        match &self.known {
            Some((k, v)) if k == alias => Some(v.clone()),
            _ => None,
        }
    }
}

#[test]
fn unknown_alias_is_secret_001() {
    let p = Recording { known: None, asked: std::cell::RefCell::new(Vec::new()) };
    let e = resolve_secrets("password: \"{{secrets.db_password}}\"", &p).unwrap_err();
    assert_eq!(e.render(), "[E-SECRET-001] unresolved secret \"db_password\"");
    assert_eq!(*p.asked.borrow(), vec!["db_password".to_string()]);
}

#[test]
fn known_alias_is_replaced_and_invalid_alias_kept() {
    let p = Recording {
        known: Some(("db_password".to_string(), "s3cur3_p4ss".to_string())),
        asked: std::cell::RefCell::new(Vec::new()),
    };
    let r = resolve_secrets("a: {{secrets.db_password}}, b: {{secrets.1x}}", &p).unwrap();
    assert_eq!(r, "a: s3cur3_p4ss, b: {{secrets.1x}}");
    assert_eq!(*p.asked.borrow(), vec!["db_password".to_string()]);
}
