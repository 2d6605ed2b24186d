use teller::blob::{del_blob, put_blob};
use teller::config::{PathMap, ProviderInfo, ProviderKind, KV};
use teller::dotenv::{render, DotEnvOptions, Dotenv, Mode};
use teller::error::Error;
use teller::inmem::Inmem;
use teller::strmap::StrMap;

fn map_of(pairs: &[(&str, &str)]) -> StrMap {
    let mut m = StrMap::new();
    for (k, v) in pairs {
        m.insert(k.to_string(), v.to_string());
    }
    m
}

fn pairs(m: &StrMap) -> Vec<(String, String)> {
    m.pairs().clone()
}

fn kvs_of(pairs: &[(&str, &str)]) -> Vec<KV> {
    pairs.iter().map(|(k, v)| KV::from_kv(k, v)).collect()
}

fn key_values(kvs: &[KV]) -> Vec<(String, String)> {
    kvs.iter().map(|kv| (kv.key.clone(), kv.value.clone())).collect()
}

fn with_keys(path: &str, keys: &[(&str, &str)]) -> PathMap {
    let mut pm = PathMap::from_path(path);
    pm.keys = map_of(keys);
    pm
}

#[test]
fn strmap_keeps_keys_sorted_and_unique() {
    let mut m = map_of(&[("b", "1"), ("a", "2"), ("c", "3"), ("a", "4")]);
    assert_eq!(
        pairs(&m),
        vec![
            ("a".to_string(), "4".to_string()),
            ("b".to_string(), "1".to_string()),
            ("c".to_string(), "3".to_string())
        ]
    );
    m.remove("b");
    assert_eq!(m.get("b"), None);
    assert_eq!(m.get("c").map(|s| s.as_str()), Some("3"));
    assert_eq!(m.len(), 2);
}

#[test]
fn inmem_sanity_test() {
    let mut p = Inmem::new("test", vec![]);
    assert!(p.get(&PathMap::from_path("secret/development/invalid-path")).is_err());
    let tree = vec![
        (
            "secret/development",
            kvs_of(&[
                ("db", "{\"DB_PASS\": \"1234\",\"DB_NAME\": \"FOO\"}"),
                ("log_level", "DEBUG"),
                ("app", "Teller"),
            ]),
        ),
        ("secret/multiple/app-1", kvs_of(&[("log_level", "DEBUG")])),
        ("secret/multiple/app-2", kvs_of(&[("foo", "bar")])),
    ];
    for (path, kvs) in &tree {
        p.put(&PathMap::from_path(path), kvs);
    }
    for (path, kvs) in &tree {
        let got = p.get(&PathMap::from_path(path)).unwrap();
        let mut expected = key_values(kvs);
        expected.sort();
        assert_eq!(key_values(&got), expected);
        for kv in &got {
            assert_eq!(kv.provider.as_ref().unwrap().kind, ProviderKind::Inmem);
            assert_eq!(kv.path.as_ref().unwrap().path, *path);
        }
    }
    p.put(&PathMap::from_path("secret/multiple/app-2"), &kvs_of(&[("foo", "baz")]));
    let got = p.get(&PathMap::from_path("secret/multiple/app-2")).unwrap();
    assert_eq!(key_values(&got), vec![("foo".to_string(), "baz".to_string())]);
    p.del(&PathMap::from_path("secret/multiple/app-2"));
    assert!(matches!(
        p.get(&PathMap::from_path("secret/multiple/app-2")),
        Err(Error::NotFound { .. })
    ));
    p.del(&with_keys("secret/development", &[("db", "db")]));
    let got = p.get(&PathMap::from_path("secret/development")).unwrap();
    assert_eq!(
        key_values(&got),
        vec![
            ("app".to_string(), "Teller".to_string()),
            ("log_level".to_string(), "DEBUG".to_string())
        ]
    );
    assert_eq!(p.get_state().len(), 2);
}

#[test]
fn dotenv_sanity_test() {
    let p = Dotenv::new("dotenv", Some(DotEnvOptions { create_on_put: true })).unwrap();
    assert!(p.get(&PathMap::from_path("tmp/dotenv/secret/development/invalid-path"), "").is_err());
    let pm = PathMap::from_path("tmp/dotenv/secret/development");
    let text = p
        .put(
            &pm,
            "",
            &kvs_of(&[("db", "{\"DB_PASS\":\"1234\",\"DB_NAME\":\"FOO\"}"), ("log_level", "DEBUG"), ("app", "Teller")]),
        )
        .unwrap();
    let got = p.get(&pm, &text).unwrap();
    let keys: Vec<&str> = got.iter().map(|kv| kv.key.as_str()).collect();
    assert_eq!(keys, vec!["app", "db", "log_level"]);
    assert_eq!(got[0].value, "Teller");
    assert_eq!(got[1].value, "{\"DB_PASS\":\"1234\",\"DB_NAME\":\"FOO\"}");
    assert_eq!(got[2].value, "DEBUG");
    let text = p.put(&pm, &text, &kvs_of(&[("app", "Other")])).unwrap();
    let got = p.get(&pm, &text).unwrap();
    assert_eq!(got[0].value, "Other");
    let text = p.del(&with_keys(pm.path.as_str(), &[("db", "db")]), &text).unwrap();
    let got = p.get(&pm, &text).unwrap();
    assert_eq!(got.len(), 2);
    let text = p.del(&pm, &text).unwrap();
    assert_eq!(text, "");
    assert!(matches!(p.get(&pm, &text), Err(Error::NotFound { .. })));
}

#[test]
fn dotenv_round_trip_scenario() {
    let p = Dotenv::new("dot", Some(DotEnvOptions { create_on_put: true })).unwrap();
    let pm = PathMap::from_path("tests/data/a.env");
    let text = p.put(&pm, "", &kvs_of(&[("FOO", "bar"), ("HELLO", "world")])).unwrap();
    assert_eq!(text, "FOO=bar\nHELLO=world\n");
    let got = p.get(&pm, &text).unwrap();
    assert_eq!(got.len(), 2);
    let keys: Vec<&str> = got.iter().map(|kv| kv.key.as_str()).collect();
    assert_eq!(keys, vec!["FOO", "HELLO"]);
}

#[test]
fn dotenv_copy_with_replace_scenario() {
    let a = Dotenv::new("dot_a", None).unwrap();
    let b = Dotenv::new("dot_b", None).unwrap();
    let pm_a = PathMap::from_path("a.env");
    let pm_b = PathMap::from_path("b.env");
    let data = a.get(&pm_a, "A=1\nB=2\n").unwrap();
    let cleared = b.del(&pm_b, "X=9\n").unwrap();
    let text = b.put(&pm_b, &cleared, &data).unwrap();
    assert_eq!(text, "A=1\nB=2\n");
}

#[test]
fn dotenv_quotes_whitespace_and_json_values() {
    let m = map_of(&[("A", "hello world"), ("B", "{\"x\":1}"), ("C", "plain")]);
    assert_eq!(render(&m), "A=\"hello world\"\nB=\"{\\\"x\\\":1}\"\nC=plain\n");
}

#[test]
fn dotenv_load_reports_errors() {
    assert!(matches!(Dotenv::load_text("f.env", "", Mode::Get), Err(Error::NotFound { path, .. }) if path == "\"f.env\""));
    assert!(Dotenv::load_text("f.env", "", Mode::Put).unwrap().is_empty());
    assert!(matches!(Dotenv::load_text("f.env", "A='x", Mode::Get), Err(Error::GetError { .. })));
}

#[test]
fn rename_and_subset_scenario() {
    let mut store = Inmem::new(
        "inmem",
        vec![(
            "secret/dev".to_string(),
            map_of(&[("DB_PASS", "1234"), ("DB_NAME", "FOO"), ("LOG", "DEBUG")]),
        )],
    );
    let pm = with_keys("secret/dev", &[("DB_PASS", "PASSWORD"), ("DB_NAME", "DB_NAME")]);
    let got = store.get(&pm).unwrap();
    let triples: Vec<(String, String, String)> = got
        .iter()
        .map(|kv| (kv.key.clone(), kv.value.clone(), kv.from_key.clone()))
        .collect();
    assert_eq!(
        triples,
        vec![
            ("DB_NAME".to_string(), "FOO".to_string(), "DB_NAME".to_string()),
            ("PASSWORD".to_string(), "1234".to_string(), "DB_PASS".to_string()),
        ]
    );
    store.put(&PathMap::from_path("other"), &kvs_of(&[("X", "1")]));
    assert_eq!(store.get(&pm).unwrap().len(), 2);
}

#[test]
fn blob_put_preserves_siblings_scenario() {
    let existing = map_of(&[("A", "1"), ("B", "2")]);
    let after = put_blob(Ok(existing), &kvs_of(&[("B", "22"), ("C", "3")])).unwrap();
    assert_eq!(
        pairs(&after),
        vec![
            ("A".to_string(), "1".to_string()),
            ("B".to_string(), "22".to_string()),
            ("C".to_string(), "3".to_string())
        ]
    );
    let got = KV::from_data(&after, &PathMap::from_path("secret/foo"), &ProviderInfo { kind: ProviderKind::Hashicorp, name: "v".to_string() });
    assert_eq!(key_values(&got), pairs(&after));
}

#[test]
fn blob_put_over_missing_and_failing_reads() {
    let missing = Err(Error::NotFound { path: "p".to_string(), msg: "not found".to_string() });
    let after = put_blob(missing, &kvs_of(&[("K", "v")])).unwrap();
    assert_eq!(pairs(&after), vec![("K".to_string(), "v".to_string())]);
    let failing = Err(Error::Message("boom".to_string()));
    assert!(matches!(put_blob(failing, &kvs_of(&[("K", "v")])), Err(Error::Message(m)) if m == "boom"));
}

#[test]
fn blob_subset_and_full_delete() {
    let existing = map_of(&[("a", "1"), ("b", "2"), ("c", "3")]);
    let out = del_blob(Ok(existing.clone()), &with_keys("p", &[("b", "b")])).unwrap().unwrap();
    assert_eq!(pairs(&out), vec![("a".to_string(), "1".to_string()), ("c".to_string(), "3".to_string())]);
    assert!(del_blob(Ok(existing), &PathMap::from_path("p")).unwrap().is_none());
}

#[test]
fn round_trip_keeps_last_write_per_key() {
    let mut p = Inmem::new("m", vec![("p".to_string(), map_of(&[("old", "1")]))]);
    let pm = PathMap::from_path("p");
    p.put(&pm, &kvs_of(&[("k", "1"), ("k", "2"), ("j", "3")]));
    let got = key_values(&p.get(&pm).unwrap());
    assert_eq!(
        got,
        vec![
            ("j".to_string(), "3".to_string()),
            ("k".to_string(), "2".to_string()),
            ("old".to_string(), "1".to_string())
        ]
    );
}
