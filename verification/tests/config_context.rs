use etch::args::{config_path_for, default_config_path};
use etch::coerce::Coerce;
use etch::config::{from_doc, Engine};
use etch::context::{
    check_command_exit, check_setup_exit, insert_unique, merge_results, CtxCliVar, CtxEnvVar,
    CtxStaticVar,
};
use etch::engine::{check_context_clash, split_call_args, CallArg, FuncRegistry};
use etch::errors::Error;
use etch::patch::{merge, remove_path, update};
use etch::value::Value;

fn s(t: &str) -> Value {
    Value::Str(t.to_string())
}

fn table(entries: Vec<(&str, Value)>) -> Value {
    Value::Table(entries.into_iter().map(|(k, v)| (k.to_string(), v)).collect())
}

#[test]
fn env_missing_without_default_fails() {
    let src = CtxEnvVar { env_name: Some("MY_VAR".to_string()), default: None, coerce: None };
    let err = src.consume("key", None).unwrap_err();
    match &err {
        Error::ContextResolution(_) => {}
        _ => panic!("expected a context-resolution error"),
    }
    assert!(err.message().contains("MY_VAR"));
}

#[test]
fn env_default_is_coerced() {
    let src = CtxEnvVar {
        env_name: None,
        default: Some(s("41")),
        coerce: Some(Coerce::Int),
    };
    match src.consume("key", None) {
        Ok(Value::Int(i)) => assert_eq!(i, 41),
        _ => panic!("expected the coerced default"),
    }
}

#[test]
fn env_found_value_is_coerced() {
    let src = CtxEnvVar { env_name: None, default: None, coerce: Some(Coerce::Int) };
    assert_eq!(src.lookup_name("key"), "key");
    match src.consume("key", Some("42".to_string())) {
        Ok(Value::Int(i)) => assert_eq!(i, 42),
        _ => panic!("expected Int"),
    }
    let named = CtxEnvVar { env_name: Some("OTHER".to_string()), default: None, coerce: None };
    assert_eq!(named.lookup_name("key"), "OTHER");
}

#[test]
fn static_source_coerces() {
    let src = CtxStaticVar { value: s(" 7 "), coerce: Some(Coerce::Int) };
    match src.consume() {
        Ok(Value::Int(i)) => assert_eq!(i, 7),
        _ => panic!("expected Int"),
    }
}

#[test]
fn cli_source_judges_outcomes() {
    assert!(check_command_exit("echo hi", 0).is_ok());
    let err = check_command_exit("false", 3).unwrap_err();
    assert!(err.message().contains("false"));
    assert!(err.message().contains("3"));
    assert!(check_setup_exit("make", 2).is_err());

    let src = CtxCliVar { commands: vec!["echo 5".to_string()], coerce: Some(Coerce::Int) };
    match src.consume("echo 5", "5\n".to_string()) {
        Ok(Value::Int(i)) => assert_eq!(i, 5),
        _ => panic!("expected Int"),
    }
    let silent = CtxCliVar { commands: vec!["true".to_string()], coerce: None };
    let err = silent.consume("true", "  \n".to_string()).unwrap_err();
    assert!(err.message().contains("Implicit None"));
}

#[test]
fn duplicate_context_keys_are_rejected() {
    let mut ctx: Vec<(String, Value)> = Vec::new();
    assert!(insert_unique(&mut ctx, "a".to_string(), Value::Int(1)).is_ok());
    assert!(insert_unique(&mut ctx, "b".to_string(), Value::Int(2)).is_ok());
    let err = insert_unique(&mut ctx, "a".to_string(), Value::Int(3)).unwrap_err();
    assert!(err.message().contains("Duplicate context key"));
    assert_eq!(ctx.len(), 2);
}

fn lookup_int(ctx: &[(String, Value)], key: &str) -> i64 {
    for (k, v) in ctx {
        if k == key {
            if let Value::Int(i) = v {
                return *i;
            }
        }
    }
    panic!("missing {key}");
}

#[test]
fn cli_results_join_in_any_order() {
    let pairs = |order: [usize; 3]| {
        let all = [
            ("one".to_string(), Value::Int(1)),
            ("two".to_string(), Value::Int(2)),
            ("three".to_string(), Value::Int(3)),
        ];
        order
            .iter()
            .map(|&i| (all[i].0.clone(), all[i].1.dup()))
            .collect::<Vec<_>>()
    };
    let mut a: Vec<(String, Value)> = Vec::new();
    merge_results(&mut a, pairs([0, 1, 2])).unwrap();
    let mut b: Vec<(String, Value)> = Vec::new();
    merge_results(&mut b, pairs([2, 0, 1])).unwrap();
    for key in ["one", "two", "three"] {
        assert_eq!(lookup_int(&a, key), lookup_int(&b, key));
    }
}

#[test]
fn engine_defaults() {
    let e = Engine::default();
    assert_eq!(e.block_start, "{%");
    assert_eq!(e.block_end, "%}");
    assert_eq!(e.variable_start, "{{");
    assert_eq!(e.variable_end, "}}");
    assert_eq!(e.comment_start, "{#");
    assert_eq!(e.comment_end, "#}");
    assert!(e.keep_trailing_newline);
    assert!(!e.allow_undefined);
    assert!(e.custom_extensions.is_empty());
}

#[test]
fn empty_document_is_valid_and_default() {
    let conf = from_doc(&table(vec![])).unwrap();
    assert!(conf.exclude.is_empty());
    assert!(conf.ignore_files.is_empty());
    assert!(conf.setup_commands.is_empty());
    assert!(conf.context.stat.is_empty());
    assert_eq!(conf.engine.block_start, "{%");
}

#[test]
fn document_binds_sections() {
    let doc = table(vec![
        ("exclude", Value::List(vec![s("target/")])),
        (
            "engine",
            table(vec![
                ("block_start", s("[%")),
                ("allow_undefined", Value::Bool(true)),
            ]),
        ),
        (
            "context",
            table(vec![
                (
                    "static",
                    table(vec![(
                        "greeting",
                        table(vec![("value", s("hi"))]),
                    )]),
                ),
                (
                    "env",
                    table(vec![(
                        "user",
                        table(vec![("env_name", s("USER")), ("coerce", s("str"))]),
                    )]),
                ),
                (
                    "cli",
                    table(vec![(
                        "now",
                        table(vec![("commands", Value::List(vec![s("date")]))]),
                    )]),
                ),
            ]),
        ),
        ("setup_commands", Value::List(vec![s("mkdir -p out")])),
    ]);
    let conf = from_doc(&doc).unwrap();
    assert_eq!(conf.exclude, vec!["target/".to_string()]);
    assert_eq!(conf.setup_commands, vec!["mkdir -p out".to_string()]);
    assert_eq!(conf.engine.block_start, "[%");
    assert_eq!(conf.engine.block_end, "%}");
    assert!(conf.engine.allow_undefined);
    assert_eq!(conf.context.stat.len(), 1);
    assert_eq!(conf.context.stat[0].0, "greeting");
    assert_eq!(conf.context.env.len(), 1);
    assert!(matches!(conf.context.env[0].1.coerce, Some(Coerce::Str)));
    assert_eq!(conf.context.cli.len(), 1);
    assert_eq!(conf.context.cli[0].1.commands, vec!["date".to_string()]);
}

#[test]
fn document_rejects_bad_shapes() {
    assert!(from_doc(&s("nope")).is_err());
    assert!(from_doc(&table(vec![("unknown", Value::Int(1))])).is_err());
    assert!(from_doc(&table(vec![("exclude", Value::Int(1))])).is_err());
    // An empty commands list is rejected.
    let doc = table(vec![(
        "context",
        table(vec![(
            "cli",
            table(vec![("x", table(vec![("commands", Value::List(vec![]))]))]),
        )]),
    )]);
    assert!(from_doc(&doc).is_err());
    // An unknown coercion name is rejected.
    let doc2 = table(vec![(
        "context",
        table(vec![(
            "static",
            table(vec![(
                "x",
                table(vec![("value", Value::Int(1)), ("coerce", s("number"))]),
            )]),
        )]),
    )]);
    assert!(from_doc(&doc2).is_err());
}

#[test]
fn registry_rejects_double_registration() {
    let mut reg = FuncRegistry::new();
    assert!(reg.register("mod_a", "shout".to_string()).is_ok());
    let err = reg.register("mod_b", "shout".to_string()).unwrap_err();
    assert_eq!(
        err.message(),
        "Failed to register custom function: 'mod_b.shout' as 'shout' is already registered."
    );
    assert_eq!(reg.names.len(), 1);
}

#[test]
fn extension_name_must_not_shadow_context() {
    let ctx = vec![("name".to_string(), s("x"))];
    assert!(check_context_clash(&ctx, "other").is_ok());
    let err = check_context_clash(&ctx, "name").unwrap_err();
    assert_eq!(
        err.message(),
        "Failed to register custom function 'name' as it clashes with a context key."
    );
}

#[test]
fn rejected_join_leaves_the_context_untouched() {
    let mut ctx = vec![("base".to_string(), Value::Int(0))];
    let dup = vec![
        ("x".to_string(), Value::Int(1)),
        ("base".to_string(), Value::Int(2)),
    ];
    let err = merge_results(&mut ctx, dup).unwrap_err();
    assert!(err.message().contains("Duplicate context key"));
    assert_eq!(ctx.len(), 1);
    assert_eq!(ctx[0].0, "base");
    let twice = vec![
        ("y".to_string(), Value::Int(1)),
        ("y".to_string(), Value::Int(2)),
    ];
    assert!(merge_results(&mut ctx, twice).is_err());
    assert_eq!(ctx.len(), 1);
}

#[test]
fn call_args_are_split() {
    let args = vec![
        CallArg::Positional(Value::Int(1)),
        CallArg::Named(vec![("k".to_string(), s("v"))]),
        CallArg::Positional(s("p")),
        CallArg::Named(vec![
            ("a".to_string(), Value::Bool(true)),
            ("b".to_string(), Value::Null),
        ]),
    ];
    let (pos, named) = split_call_args(args);
    assert_eq!(pos.len(), 2);
    assert!(matches!(pos[0], Value::Int(1)));
    assert_eq!(named.len(), 3);
    assert_eq!(named[0].0, "k");
    assert_eq!(named[1].0, "a");
    assert_eq!(named[2].0, "b");
}

fn get<'a>(v: &'a Value, key: &str) -> Option<&'a Value> {
    match v {
        Value::Table(es) => es.iter().find(|e| e.0 == key).map(|e| &e.1),
        _ => None,
    }
}

#[test]
fn merge_patch_overwrites_and_removes() {
    let doc = table(vec![("a", Value::Int(1)), ("b", Value::Int(2))]);
    let patch = table(vec![("b", Value::Null), ("c", s("new"))]);
    let merged = merge(doc, &patch);
    assert!(get(&merged, "a").is_some());
    assert!(get(&merged, "b").is_none());
    assert!(matches!(get(&merged, "c"), Some(Value::Str(t)) if t == "new"));
}

#[test]
fn merge_patch_recurses_into_tables() {
    let doc = table(vec![("sub", table(vec![("keep", Value::Int(1)), ("old", Value::Int(2))]))]);
    let patch = table(vec![("sub", table(vec![("old", Value::Int(3)), ("new", Value::Int(4))]))]);
    let merged = merge(doc, &patch);
    let sub = get(&merged, "sub").unwrap();
    assert!(matches!(get(sub, "keep"), Some(Value::Int(1))));
    assert!(matches!(get(sub, "old"), Some(Value::Int(3))));
    assert!(matches!(get(sub, "new"), Some(Value::Int(4))));
}

#[test]
fn non_table_patch_replaces() {
    let merged = merge(table(vec![("a", Value::Int(1))]), &Value::Int(9));
    assert!(matches!(merged, Value::Int(9)));
}

#[test]
fn remove_paths_prunes_nested_keys() {
    let doc = table(vec![(
        "ctx",
        table(vec![("foo", Value::Int(1)), ("bar", Value::Int(2))]),
    )]);
    let path = vec!["ctx".to_string(), "foo".to_string()];
    let pruned = remove_path(doc, &path, 0);
    let ctx = get(&pruned, "ctx").unwrap();
    assert!(get(ctx, "foo").is_none());
    assert!(get(ctx, "bar").is_some());

    let doc2 = table(vec![("a", Value::Int(1)), ("b", Value::Int(2))]);
    let removed = update(
        doc2,
        Some(&table(vec![("c", Value::Int(3))])),
        Some(&vec![vec!["a".to_string()], vec![]]),
    );
    assert!(get(&removed, "a").is_none());
    assert!(get(&removed, "b").is_some());
    assert!(get(&removed, "c").is_some());
}

#[test]
fn config_paths() {
    assert_eq!(default_config_path(), "./etch.config.toml");
    assert_eq!(config_path_for("/root", "etch.config.toml", true), "/root/etch.config.toml");
    assert_eq!(config_path_for("/root", "/abs/conf.toml", false), "/abs/conf.toml");
    assert_eq!(etch::lockfile_name(), ".etch.lock");
}
