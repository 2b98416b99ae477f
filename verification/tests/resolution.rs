use eslint_config::errors::ConfigError;
use eslint_config::json::JsonValue;
use eslint_config::keys::parse_rule_name;
use eslint_config::overrides::{parse_rules, resolve_rule_value, parse_severity};
use eslint_config::presets::parse_extends;
use eslint_config::resolve::{ConfiguredRule, ESLintConfig, RuleDescriptor};
use eslint_config::Severity;

fn s(x: &str) -> String {
    x.to_string()
}

fn obj(fields: Vec<(&str, JsonValue)>) -> JsonValue {
    JsonValue::Obj(fields.into_iter().map(|(k, v)| (s(k), v)).collect())
}

fn arr(items: Vec<JsonValue>) -> JsonValue {
    JsonValue::Arr(items)
}

fn txt(x: &str) -> JsonValue {
    JsonValue::Str(s(x))
}

fn json_eq(a: &JsonValue, b: &JsonValue) -> bool {
    match (a, b) {
        (JsonValue::Null, JsonValue::Null) => true,
        (JsonValue::Bool(x), JsonValue::Bool(y)) => x == y,
        (JsonValue::Num(x), JsonValue::Num(y)) => x == y,
        (JsonValue::Str(x), JsonValue::Str(y)) => x == y,
        (JsonValue::Arr(x), JsonValue::Arr(y)) => {
            x.len() == y.len() && x.iter().zip(y.iter()).all(|(u, v)| json_eq(u, v))
        }
        (JsonValue::Obj(x), JsonValue::Obj(y)) => {
            x.len() == y.len()
                && x.iter()
                    .zip(y.iter())
                    .all(|(u, v)| u.0 == v.0 && json_eq(&u.1, &v.1))
        }
        _ => false,
    }
}

fn catalog(ids: Vec<(&str, &str)>) -> Vec<RuleDescriptor> {
    ids.into_iter()
        .map(|(c, n)| RuleDescriptor {
            category: s(c),
            name: s(n),
        })
        .collect()
}

fn resolve(cat: &Vec<RuleDescriptor>, doc: &JsonValue) -> Vec<ConfiguredRule> {
    ESLintConfig::from_document(cat, doc)
        .expect("resolution should succeed")
        .into_rules()
}

#[test]
fn default_category_for_plain_keys() {
    let (cat, name) = parse_rule_name("no-console");
    assert_eq!(cat, "eslint");
    assert_eq!(name, "no-console");
}

#[test]
fn category_split_on_first_slash() {
    let (cat, name) = parse_rule_name("react/jsx-key");
    assert_eq!(cat, "react");
    assert_eq!(name, "jsx-key");
    let (cat2, name2) = parse_rule_name("a/b/c");
    assert_eq!(cat2, "a");
    assert_eq!(name2, "b/c");
}

#[test]
fn leading_at_is_stripped() {
    let (cat, name) = parse_rule_name("@scope/name");
    assert_eq!(cat, "scope");
    assert_eq!(name, "name");
    let (cat2, name2) = parse_rule_name("@@scope/name");
    assert_eq!(cat2, "scope");
    assert_eq!(name2, "name");
}

#[test]
fn scoped_typescript_alias_maps_to_typescript() {
    let (cat, name) = parse_rule_name("@typescript-eslint/no-explicit-any");
    assert_eq!(cat, "typescript");
    assert_eq!(name, "no-explicit-any");
    let (cat2, _) = parse_rule_name("typescript-eslint/other-rule");
    assert_eq!(cat2, "typescript");
}

#[test]
fn trailing_slash_gives_empty_name() {
    let (cat, name) = parse_rule_name("eslint/");
    assert_eq!(cat, "eslint");
    assert_eq!(name, "");
}

#[test]
fn extends_absent_yields_nothing() {
    let doc = obj(vec![("rules", obj(vec![]))]);
    let r = parse_extends(&doc).expect("absent extends is not an error");
    assert!(r.is_none());
}

#[test]
fn extends_not_array_fails() {
    let doc = obj(vec![("extends", txt("x"))]);
    let e = parse_extends(&doc).expect_err("non-array extends must fail");
    assert!(matches!(e, ConfigError::PropertyNotArray(p) if p == "extends"));
}

#[test]
fn unknown_presets_are_dropped() {
    let doc = obj(vec![(
        "extends",
        arr(vec![
            txt("eslint:recommended"),
            txt("nonsense:preset"),
            JsonValue::Bool(true),
            txt("plugin:jest/recommended"),
        ]),
    )]);
    let r = parse_extends(&doc)
        .expect("unknown presets are not an error")
        .expect("extends present");
    assert_eq!(r, vec![s("eslint"), s("jest")]);
}

#[test]
fn all_known_presets_map() {
    let doc = obj(vec![(
        "extends",
        arr(vec![
            txt("eslint:recommended"),
            txt("plugin:react/recommended"),
            txt("plugin:@typescript-eslint/recommended"),
            txt("plugin:react-hooks/recommended"),
            txt("plugin:unicorn/recommended"),
            txt("plugin:jest/recommended"),
        ]),
    )]);
    let r = parse_extends(&doc).unwrap().unwrap();
    assert_eq!(
        r,
        vec![
            s("eslint"),
            s("react"),
            s("typescript"),
            s("react"),
            s("unicorn"),
            s("jest")
        ]
    );
}

#[test]
fn severity_tokens() {
    assert_eq!(parse_severity(&txt("off")).unwrap(), Severity::Off);
    assert_eq!(parse_severity(&txt("warn")).unwrap(), Severity::Warn);
    assert_eq!(parse_severity(&txt("error")).unwrap(), Severity::Error);
    assert!(!Severity::Off.is_enabled());
    assert!(Severity::Warn.is_enabled());
    assert!(Severity::Error.is_enabled());
}

#[test]
fn severity_unknown_token_fails() {
    let e = parse_severity(&txt("loud")).expect_err("unknown token must fail");
    assert!(matches!(e, ConfigError::InvalidSeverity(JsonValue::Str(v)) if v == "loud"));
}

#[test]
fn rule_value_single_element_array() {
    let (sev, cfg) = resolve_rule_value(&arr(vec![txt("error")])).unwrap();
    assert_eq!(sev, Severity::Error);
    assert!(cfg.is_none());
}

#[test]
fn rule_value_with_config() {
    let v = arr(vec![txt("warn"), obj(vec![("opt", JsonValue::Num(s("1")))])]);
    let (sev, cfg) = resolve_rule_value(&v).unwrap();
    assert_eq!(sev, Severity::Warn);
    let cfg = cfg.expect("second element is the config");
    assert!(json_eq(&cfg, &obj(vec![("opt", JsonValue::Num(s("1")))])));
}

#[test]
fn rule_value_empty_array_fails() {
    let e = resolve_rule_value(&arr(vec![])).expect_err("empty array must fail");
    assert!(matches!(e, ConfigError::InvalidRuleValue(JsonValue::Arr(v)) if v.is_empty()));
}

#[test]
fn rule_value_other_kind_fails() {
    let e = resolve_rule_value(&JsonValue::Num(s("2"))).expect_err("a number must fail");
    assert!(matches!(e, ConfigError::InvalidRuleValue(JsonValue::Num(v)) if v == "2"));
}

#[test]
fn rules_absent_or_not_object_yields_no_overrides() {
    assert!(parse_rules(&obj(vec![])).unwrap().is_empty());
    assert!(parse_rules(&obj(vec![("rules", txt("x"))])).unwrap().is_empty());
    assert!(parse_rules(&JsonValue::Null).unwrap().is_empty());
}

#[test]
fn rules_first_failure_wins() {
    let doc = obj(vec![(
        "rules",
        obj(vec![
            ("no-console", txt("error")),
            ("no-debugger", txt("loud")),
            ("no-alert", arr(vec![])),
        ]),
    )]);
    let e = parse_rules(&doc).expect_err("malformed entry must fail the parse");
    assert!(matches!(e, ConfigError::InvalidSeverity(JsonValue::Str(v)) if v == "loud"));
}

#[test]
fn preset_rule_included_without_config() {
    let cat = catalog(vec![("eslint", "no-unused-vars")]);
    let doc = obj(vec![("extends", arr(vec![txt("eslint:recommended")]))]);
    let rules = resolve(&cat, &doc);
    assert_eq!(rules.len(), 1);
    assert_eq!(rules[0].category, "eslint");
    assert_eq!(rules[0].name, "no-unused-vars");
    assert!(rules[0].config.is_none());
}

#[test]
fn explicit_off_overrides_preset() {
    let cat = catalog(vec![("eslint", "no-unused-vars")]);
    let doc = obj(vec![
        ("extends", arr(vec![txt("eslint:recommended")])),
        ("rules", obj(vec![("eslint/no-unused-vars", txt("off"))])),
    ]);
    let rules = resolve(&cat, &doc);
    assert!(rules.is_empty());
}

#[test]
fn explicit_entry_enables_rule_outside_presets() {
    let cat = catalog(vec![("react", "jsx-key")]);
    let config = obj(vec![("opt", JsonValue::Num(s("1")))]);
    let doc = obj(vec![(
        "rules",
        obj(vec![("react/jsx-key", arr(vec![txt("warn"), config]))]),
    )]);
    let rules = resolve(&cat, &doc);
    assert_eq!(rules.len(), 1);
    assert_eq!(rules[0].category, "react");
    assert_eq!(rules[0].name, "jsx-key");
    let cfg = rules[0].config.as_ref().expect("config carried through");
    assert!(json_eq(cfg, &obj(vec![("opt", JsonValue::Num(s("1")))])));
}

#[test]
fn rule_not_in_catalog_is_ignored() {
    let cat = catalog(vec![("eslint", "no-console")]);
    let doc = obj(vec![("rules", obj(vec![("mystery/rule", txt("error"))]))]);
    let rules = resolve(&cat, &doc);
    assert!(rules.is_empty());
}

#[test]
fn later_entry_of_same_identifier_wins() {
    let cat = catalog(vec![("typescript", "x")]);
    let doc = obj(vec![(
        "rules",
        obj(vec![
            ("typescript-eslint/x", txt("off")),
            ("@typescript-eslint/x", txt("error")),
        ]),
    )]);
    let rules = resolve(&cat, &doc);
    assert_eq!(rules.len(), 1);
    assert_eq!(rules[0].name, "x");
}

#[test]
fn output_sorted_by_name_whatever_the_orders() {
    let cat = catalog(vec![
        ("eslint", "zeta"),
        ("react", "alpha"),
        ("eslint", "mid"),
        ("react", "beta"),
    ]);
    let doc = obj(vec![(
        "extends",
        arr(vec![txt("plugin:react/recommended"), txt("eslint:recommended")]),
    )]);
    let rules = resolve(&cat, &doc);
    let names: Vec<&str> = rules.iter().map(|r| r.name.as_str()).collect();
    assert_eq!(names, vec!["alpha", "beta", "mid", "zeta"]);
}

#[test]
fn resolution_is_idempotent() {
    let cat = catalog(vec![
        ("eslint", "no-console"),
        ("eslint", "no-unused-vars"),
        ("react", "jsx-key"),
    ]);
    let doc = obj(vec![
        ("extends", arr(vec![txt("eslint:recommended")])),
        (
            "rules",
            obj(vec![
                ("no-console", arr(vec![txt("error"), JsonValue::Bool(true)])),
                ("react/jsx-key", txt("off")),
            ]),
        ),
    ]);
    let first = resolve(&cat, &doc);
    let second = resolve(&cat, &doc);
    assert_eq!(first.len(), second.len());
    for (a, b) in first.iter().zip(second.iter()) {
        assert_eq!(a.category, b.category);
        assert_eq!(a.name, b.name);
        match (&a.config, &b.config) {
            (None, None) => {}
            (Some(x), Some(y)) => assert!(json_eq(x, y)),
            _ => panic!("configs differ between runs"),
        }
    }
}

#[test]
fn example_document_resolves_as_specified() {
    let cat = catalog(vec![
        ("eslint", "no-console"),
        ("eslint", "no-unused-vars"),
        ("react", "jsx-key"),
    ]);
    let doc = obj(vec![
        ("extends", arr(vec![txt("eslint:recommended")])),
        (
            "rules",
            obj(vec![
                ("no-console", txt("error")),
                ("react/jsx-key", txt("off")),
            ]),
        ),
    ]);
    let rules = resolve(&cat, &doc);
    let names: Vec<&str> = rules.iter().map(|r| r.name.as_str()).collect();
    assert_eq!(names, vec!["no-console", "no-unused-vars"]);
    assert!(rules[0].config.is_none());
    assert!(rules[1].config.is_none());
}

#[test]
fn document_without_object_shape_resolves_to_nothing() {
    let cat = catalog(vec![("eslint", "no-console")]);
    let rules = resolve(&cat, &JsonValue::Null);
    assert!(rules.is_empty());
    let rules2 = resolve(&cat, &arr(vec![txt("eslint:recommended")]));
    assert!(rules2.is_empty());
}

#[test]
fn empty_catalog_resolves_to_nothing() {
    let cat = catalog(vec![]);
    let doc = obj(vec![
        ("extends", arr(vec![txt("eslint:recommended")])),
        ("rules", obj(vec![("no-console", txt("error"))])),
    ]);
    let rules = resolve(&cat, &doc);
    assert!(rules.is_empty());
}
