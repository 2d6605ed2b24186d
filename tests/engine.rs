use teller::cli::{hide_chars, parse_key_val, parse_location};
use teller::config::{PathMap, ProviderKind, KV};
use teller::engine::{absorb_optional, apply_eqeq, delete_pathmap, resolve_keys, Config, ProviderCfg, Registry, Teller};
use teller::error::Error;
use teller::exec::{child_env, is_allowed_var, shell_command_argv};
use teller::export::Format;
use teller::paths::{join_path, parse_vault_path, relative_key, vault_error, VaultFailure};
use teller::strmap::StrMap;
use teller::wizard::{pick_providers, AppConfig, Error as WizardError};

fn map_of(pairs: &[(&str, &str)]) -> StrMap {
    let mut m = StrMap::new();
    for (k, v) in pairs {
        m.insert(k.to_string(), v.to_string());
    }
    m
}

fn owned(pairs: &[(&str, &str)]) -> Vec<(String, String)> {
    pairs.iter().map(|(k, v)| (k.to_string(), v.to_string())).collect()
}

fn pm_with_id(id: &str, path: &str) -> PathMap {
    let mut pm = PathMap::from_path(path);
    pm.id = id.to_string();
    pm
}

fn config() -> Config {
    Config {
        providers: vec![
            (
                "dot_a".to_string(),
                ProviderCfg { kind: ProviderKind::Dotenv, name: None, maps: vec![pm_with_id("m", "a.env")] },
            ),
            (
                "dot_b".to_string(),
                ProviderCfg { kind: ProviderKind::Dotenv, name: None, maps: vec![pm_with_id("x", "x.env"), pm_with_id("m", "b.env")] },
            ),
        ],
    }
}

#[test]
fn eqeq_sugar_resolves_to_identity() {
    let sugar = resolve_keys(&map_of(&[("X", "=="), ("Y", "Z")]));
    let plain = resolve_keys(&map_of(&[("X", "X"), ("Y", "Z")]));
    assert_eq!(sugar.pairs(), plain.pairs());
    assert_eq!(sugar.pairs(), &owned(&[("X", "X"), ("Y", "Z")]));
}

#[test]
fn apply_eqeq_rewrites_every_mapping() {
    let mut c = config();
    c.providers[1].1.maps[1].keys = map_of(&[("DB_NAME", "=="), ("DB_PASS", "PASSWORD")]);
    let r = apply_eqeq(&c);
    assert_eq!(r.providers[1].1.maps[1].keys.pairs(), &owned(&[("DB_NAME", "DB_NAME"), ("DB_PASS", "PASSWORD")]));
    assert_eq!(r.providers[0].0, "dot_a");
}

#[test]
fn pathmap_lookup_by_provider_and_id() {
    let t = Teller::new(Registry::new(vec![("dot_b".to_string(), 2u8), ("dot_a".to_string(), 1u8)]), config());
    let (p, pm) = t.get_pathmap_on_provider("m", "dot_b").unwrap();
    assert_eq!(*p, 2);
    assert_eq!(pm.path, "b.env");
    assert!(matches!(
        t.get_pathmap_on_provider("m", "nope"),
        Err(Error::Message(m)) if m == "cannot find provider 'nope' path configuration"
    ));
    assert!(matches!(
        t.get_pathmap_on_provider("zz", "dot_a"),
        Err(Error::Message(m)) if m == "cannot find path id 'zz' in provider 'dot_a'"
    ));
    let t2 = Teller::new(Registry::new(vec![("dot_b".to_string(), 2u8)]), config());
    assert!(matches!(
        t2.get_pathmap_on_provider("m", "dot_a"),
        Err(Error::Message(m)) if m == "cannot get initialized provider 'dot_a'"
    ));
}

#[test]
fn registry_lookup_by_name() {
    let r = Registry::new(vec![("a".to_string(), 1u8), ("b".to_string(), 2u8)]);
    assert_eq!(r.get("b"), Some(&2));
    assert_eq!(r.get("c"), None);
}

#[test]
fn delete_pathmap_selects_given_keys() {
    let pm = pm_with_id("m", "p");
    let d = delete_pathmap(&pm, &["B".to_string(), "A".to_string()]);
    assert_eq!(d.keys.pairs(), &owned(&[("A", "A"), ("B", "B")]));
    assert_eq!(d.path, "p");
    let whole = delete_pathmap(&pm, &[]);
    assert!(whole.keys.is_empty());
}

#[test]
fn optional_mapping_swallows_not_found() {
    let mut pm = PathMap::from_path("p");
    let nf = || Err(Error::NotFound { path: "p".to_string(), msg: "not found".to_string() });
    assert!(absorb_optional(&pm, nf()).is_err());
    pm.optional = true;
    assert_eq!(absorb_optional(&pm, nf()).unwrap().len(), 0);
    assert!(absorb_optional(&pm, Err(Error::Message("x".to_string()))).is_err());
}

#[test]
fn export_env_shell_csv() {
    let kvs = vec![KV::from_kv("A", "1"), KV::from_kv("B", "two words")];
    assert_eq!(Format::ENV.export(&kvs).unwrap(), "A=1\nB=two words\n");
    assert_eq!(Format::Shell.export(&kvs).unwrap(), "#!/bin/sh\nexport A='1'\nexport B='two words'\n");
    assert_eq!(Format::CSV.export(&kvs).unwrap(), "A,1\nB,two words\n");
    let quoted = vec![KV::from_kv("C", "x,y")];
    assert_eq!(Format::CSV.export(&quoted).unwrap(), "C,\"x,y\"\n");
}

#[test]
fn export_json_yaml_sorted_map() {
    let kvs = vec![KV::from_kv("B", "2"), KV::from_kv("A", "1"), KV::from_kv("B", "3")];
    assert_eq!(Format::JSON.export(&kvs).unwrap(), "{\"A\":\"1\",\"B\":\"3\"}");
    assert_eq!(Format::YAML.export(&kvs).unwrap(), "A: '1'\nB: '3'\n");
}

#[test]
fn format_names_round_trip() {
    for f in Format::all() {
        assert_eq!(Format::parse(f.name()), Some(f));
    }
    assert_eq!(Format::parse("xml"), None);
    for k in ProviderKind::all() {
        assert_eq!(ProviderKind::parse(k.tag()), Some(k));
    }
    assert_eq!(ProviderKind::parse("hashicorp"), Some(ProviderKind::Hashicorp));
    assert_eq!(ProviderKind::parse("nope"), None);
}

#[test]
fn env_reset_keeps_allowlist_and_secrets() {
    let parent = owned(&[("USER", "me"), ("GITHUB_TOKEN", "t"), ("PATH", "/bin"), ("MY_VAR", "old")]);
    let secrets = owned(&[("MY_VAR", "shazam")]);
    let reset = child_env(&parent, &secrets, true);
    assert_eq!(reset.pairs(), &owned(&[("MY_VAR", "shazam"), ("PATH", "/bin"), ("USER", "me")]));
    let full = child_env(&parent, &secrets, false);
    assert_eq!(full.get("GITHUB_TOKEN").map(|s| s.as_str()), Some("t"));
    assert_eq!(full.get("MY_VAR").map(|s| s.as_str()), Some("shazam"));
    assert!(is_allowed_var("LC_ALL"));
    assert!(!is_allowed_var("AWS_SECRET"));
}

#[test]
fn shell_argv_defaults_to_bin_sh() {
    assert_eq!(shell_command_argv("echo hi".to_string(), None), vec!["/bin/sh", "-c", "echo hi"]);
    assert_eq!(shell_command_argv("ls".to_string(), Some("/bin/zsh".to_string())), vec!["/bin/zsh", "-c", "ls"]);
}

#[test]
fn key_val_and_location_parsing() {
    assert_eq!(parse_key_val("K=v=w"), Ok(("K".to_string(), "v=w".to_string())));
    assert_eq!(parse_key_val("novalue"), Err("invalid KEY=value: no `=` found in `novalue`".to_string()));
    assert_eq!(parse_location("dot_a/m"), Some(("dot_a".to_string(), "m".to_string())));
    assert_eq!(parse_location("bad"), None);
    assert_eq!(hide_chars("secret"), "se***");
    assert_eq!(hide_chars("x"), "x***");
}

#[test]
fn paths_join_and_relative_keys() {
    assert_eq!(join_path("/dev/app/", "/key"), "/dev/app/key");
    assert_eq!(join_path("a", "b"), "a/b");
    assert_eq!(relative_key("/dev/app", "/dev/app/DB").unwrap(), "DB");
    assert!(matches!(relative_key("/dev/app", "/prod/x"), Err(Error::GetError { .. })));
}

#[test]
fn vault_path_and_errors() {
    let mut pm = PathMap::from_path("secret/foo/bar");
    let (engine, mount, path) = parse_vault_path(&pm).unwrap();
    assert_eq!((engine.as_str(), mount.as_str(), path.as_str()), ("kv2", "secret", "foo/bar"));
    pm.protocol = Some("kv1".to_string());
    assert_eq!(parse_vault_path(&pm).unwrap().0, "kv1");
    assert!(matches!(parse_vault_path(&PathMap::from_path("secret")), Err(Error::Message(_))));
    let f = VaultFailure::Response { code: 404, content: Some("Invalid path for a versioned K/V secrets engine".to_string()) };
    assert!(matches!(vault_error(&pm, f, String::new()), Error::PathError(_, m) if m == "missing or incompatible protocol version"));
    assert!(matches!(vault_error(&pm, VaultFailure::Api { code: 404 }, String::new()), Error::NotFound { .. }));
    assert!(matches!(vault_error(&pm, VaultFailure::Response { code: 500, content: None }, "x".to_string()), Error::Message(m) if m == "x"));
}

#[test]
fn error_texts() {
    let e = Error::NotFound { path: "p".to_string(), msg: "m".to_string() };
    assert_eq!(e.to_string(), "NOT FOUND p: m");
    assert_eq!(Error::PathError("p".to_string(), "r".to_string()).to_string(), "p: r");
    assert_eq!(Error::PutError { path: "p".to_string(), msg: "m".to_string() }.to_string(), "PUT p: m");
}

#[test]
fn wizard_flow_decisions() {
    let mut w = AppConfig::new(false);
    w.with_file_validation(".teller.yml");
    assert!(w.needs_confirmation(true));
    assert_eq!(w.start(true, false, vec![]).unwrap_err(), WizardError::ConfigurationAlreadyExists);
    w.with_providers(vec![ProviderKind::Inmem]);
    assert!(!w.needs_selection());
    assert_eq!(w.start(true, true, vec![]).unwrap().providers, vec![ProviderKind::Inmem]);
    let forced = AppConfig::new(true);
    assert_eq!(forced.start(true, false, vec![ProviderKind::Etcd]).unwrap().providers, vec![ProviderKind::Etcd]);
    let names = ProviderKind::all();
    assert_eq!(pick_providers(&names, &[1, 0]).unwrap(), vec![ProviderKind::Dotenv, ProviderKind::Inmem]);
    assert_eq!(pick_providers(&names, &[99]).unwrap_err(), WizardError::InvalidSelection);
}
