use teller::config::{Mode, PathMap, ProviderInfo, ProviderKind, KV};
use teller::dotenv::Dotenv;
use teller::engine::{lookup_key, template_config, RenderTemplate};
use teller::error::Error;
use teller::external::{External, ExternalOptions};
use teller::paths::{handle_delete, listing_not_found};
use teller::strmap::StrMap;
use teller::tree::{last_segment, listed_values, read_values, secret_read_failure, secret_resource, version_payload, version_resource};

fn gsm() -> ProviderInfo {
    ProviderInfo { kind: ProviderKind::GoogleSecretManager, name: "g".to_string() }
}

fn with_keys(path: &str, keys: &[(&str, &str)]) -> PathMap {
    let mut pm = PathMap::from_path(path);
    let mut m = StrMap::new();
    for (k, v) in keys {
        m.insert(k.to_string(), v.to_string());
    }
    pm.keys = m;
    pm
}

#[test]
fn resource_names() {
    assert_eq!(secret_resource("projects/1", "DSN"), "projects/1/secrets/DSN");
    assert_eq!(version_resource("projects/1/secrets/DSN"), "projects/1/secrets/DSN/versions/latest");
    assert_eq!(version_resource("projects/1/secrets/DSN/versions/3"), "projects/1/secrets/DSN/versions/3");
    assert_eq!(last_segment("projects/123/secrets/FOOBAR"), Some("FOOBAR".to_string()));
    assert_eq!(last_segment("plain"), None);
}

#[test]
fn listing_projects_last_segment() {
    let pm = PathMap::from_path("projects/1");
    let listed = vec![
        ("projects/1/secrets/A".to_string(), "x".to_string()),
        ("noslash".to_string(), "y".to_string()),
        ("projects/1/secrets/B".to_string(), "z".to_string()),
    ];
    let got = listed_values(&pm, &listed, &gsm()).unwrap();
    let pairs: Vec<(String, String)> = got.iter().map(|kv| (kv.key.clone(), kv.value.clone())).collect();
    assert_eq!(pairs, vec![("A".to_string(), "x".to_string()), ("B".to_string(), "z".to_string())]);
    assert!(matches!(listed_values(&pm, &[], &gsm()), Err(Error::NotFound { .. })));
}

#[test]
fn point_reads_keep_found_values() {
    let pm = with_keys("projects/1", &[("A", "ALPHA"), ("B", "B")]);
    let got = read_values(&pm, &[None, Some("2".to_string())], &gsm(), true).unwrap();
    assert_eq!(got.len(), 1);
    assert_eq!((got[0].key.as_str(), got[0].from_key.as_str(), got[0].value.as_str()), ("B", "B", "2"));
    assert!(matches!(read_values(&pm, &[None, None], &gsm(), true), Err(Error::NotFound { .. })));
    assert_eq!(read_values(&pm, &[None, None], &gsm(), false).unwrap().len(), 0);
}

#[test]
fn secret_read_failures() {
    let pm = PathMap::from_path("app/secret");
    assert!(secret_read_failure(&pm, Mode::Put, true, String::new()).is_ok());
    assert!(matches!(secret_read_failure(&pm, Mode::Get, true, String::new()), Err(Error::NotFound { .. })));
    assert!(matches!(
        secret_read_failure(&pm, Mode::Get, false, "secret is marked deleted".to_string()),
        Err(Error::NotFound { .. })
    ));
    assert!(matches!(
        secret_read_failure(&pm, Mode::Del, false, "denied".to_string()),
        Err(Error::GetError { msg, .. }) if msg == "denied"
    ));
    assert!(handle_delete(&pm, true, String::new()).is_ok());
    assert!(matches!(handle_delete(&pm, false, "x".to_string()), Err(Error::DeleteError { .. })));
}

#[test]
fn listing_emptiness_looks_at_first_page() {
    assert!(listing_not_found(&[]));
    assert!(listing_not_found(&[Some(0), Some(3)]));
    assert!(!listing_not_found(&[Some(2), Some(0)]));
    assert!(!listing_not_found(&[None]));
}

#[test]
fn version_payload_checksum() {
    let (data, sum) = version_payload("123456789");
    assert_eq!(data, b"123456789".to_vec());
    assert_eq!(sum, 0xE306_9283);
}

#[test]
fn external_program_and_arguments() {
    let opts = ExternalOptions { extension: Some("vault".to_string()), extra_arguments: Some(vec!["--x".to_string()]) };
    assert_eq!(External::program_name(&opts).unwrap(), "teller-provider-vault");
    assert!(External::new("e", opts.clone(), None).is_err());
    let missing = ExternalOptions { extension: None, extra_arguments: None };
    assert!(matches!(External::program_name(&missing), Err(Error::Message(m)) if m == "option 'extension' is required"));
    let ext = External::new("e", opts, Some("/bin/teller-provider-vault".to_string())).unwrap();
    assert_eq!(ext.prepare_args("get", &["p".to_string(), "k".to_string()]), vec!["get", "p", "k", "--x"]);
    let pm = with_keys("p", &[("k", "K")]);
    let got = ext.values_of(&pm, &["v".to_string()]).unwrap();
    assert_eq!((got[0].key.as_str(), got[0].value.as_str()), ("K", "v"));
    assert!(matches!(ext.values_of(&PathMap::from_path("p"), &[]), Err(Error::NotFound { .. })));
}

#[test]
fn template_config_orders_by_name() {
    let c = template_config(&RenderTemplate { providers: vec![ProviderKind::Inmem, ProviderKind::Dotenv, ProviderKind::Inmem] });
    let names: Vec<&str> = c.providers.iter().map(|(n, _)| n.as_str()).collect();
    assert_eq!(names, vec!["dotenv_1", "inmem_1"]);
    assert_eq!(c.providers[0].1.maps[0].path, "example/dev");
}

#[test]
fn template_key_lookup() {
    let kvs = vec![KV::from_kv("k", "foobaz"), KV::from_kv("k", "later")];
    assert_eq!(lookup_key(&kvs, "k").map(|kv| kv.value.as_str()), Some("foobaz"));
    assert!(lookup_key(&kvs, "missing").is_none());
}

#[test]
fn dotenv_entries_read_modify_write() {
    let d = Dotenv::new("d", None).unwrap();
    let existing = vec![("X".to_string(), "9".to_string()), ("A".to_string(), "0".to_string())];
    let out = d.put_entries(existing.clone(), &[KV::from_kv("A", "1"), KV::from_kv("B", "2")]);
    assert_eq!(out, "A=1\nB=2\nX=9\n");
    let pm = with_keys("f", &[("X", "X")]);
    assert_eq!(d.del_entries(&pm, existing.clone()), "A=0\n");
    assert_eq!(d.del_entries(&PathMap::from_path("f"), existing.clone()), "");
    let got = d.get_entries(&PathMap::from_path("f"), existing);
    assert_eq!(got.len(), 2);
    assert_eq!(got[0].key, "A");
}

#[test]
fn prefix_listing_strips_path() {
    let pm = PathMap::from_path("/app/dev");
    let etcd = ProviderInfo { kind: ProviderKind::Etcd, name: "e".to_string() };
    let fetched = vec![
        ("/app/dev/DB".to_string(), "1".to_string()),
        ("/other/X".to_string(), "2".to_string()),
    ];
    let got = teller::tree::prefix_values(&pm, &fetched, &etcd).unwrap();
    assert_eq!(got[0].key, "DB");
    assert_eq!(got[1].key, "/other/X");
    assert!(matches!(teller::tree::prefix_values(&pm, &[], &etcd), Err(Error::NotFound { .. })));
}

#[test]
fn named_pairs_select_by_last_segment() {
    let consul = ProviderInfo { kind: ProviderKind::HashiCorpConsul, name: "c".to_string() };
    let pm = with_keys("app", &[("B", "B")]);
    let pairs = vec![("app/A".to_string(), Some("1".to_string())), ("app/B".to_string(), Some("2".to_string()))];
    let got = teller::tree::named_values(&pm, &pairs, &consul).unwrap();
    assert_eq!(got.len(), 1);
    assert_eq!((got[0].key.as_str(), got[0].value.as_str()), ("B", "2"));
    let all = teller::tree::named_values(&PathMap::from_path("app"), &pairs, &consul).unwrap();
    assert_eq!(all.len(), 2);
    let broken = vec![("app/A".to_string(), None)];
    assert!(matches!(teller::tree::named_values(&pm, &broken, &consul), Err(Error::NotFound { .. })));
}

#[test]
fn selected_key_paths() {
    let pm = with_keys("app", &[("B", "x"), ("A", "y")]);
    assert_eq!(teller::tree::key_paths(&pm), vec!["app/A", "app/B"]);
    assert_eq!(teller::tree::child_path("app", "K"), "app/K");
}

#[test]
fn missing_secret_is_created_in_its_project() {
    let name = "projects/42/secrets/DSN";
    assert_eq!(
        teller::tree::create_target(name, "status \"NOT_FOUND\" returned"),
        Some(("projects/42".to_string(), "DSN".to_string()))
    );
    assert_eq!(teller::tree::create_target(name, "permission denied"), None);
    assert_eq!(teller::tree::create_target("projects/42/DSN", "\"NOT_FOUND\""), None);
}

#[test]
fn etcd_selected_keys_carry_target_names() {
    let etcd = ProviderInfo { kind: ProviderKind::Etcd, name: "e".to_string() };
    let pm = with_keys("/app", &[("f", "t")]);
    let got = read_values(&pm, &[Some("v".to_string())], &etcd, true).unwrap();
    assert_eq!((got[0].key.as_str(), got[0].from_key.as_str(), got[0].value.as_str()), ("t", "f", "v"));
}

#[test]
fn paged_parameter_listing() {
    let ssm = ProviderInfo { kind: ProviderKind::SSM, name: "s".to_string() };
    let pm = PathMap::from_path("/dev/app");
    let params = vec![("/dev/app/DB".to_string(), "1".to_string()), ("/dev/app/LOG".to_string(), "2".to_string())];
    let got = teller::tree::paged_values(&pm, &[Some(2)], &params, &ssm).unwrap();
    let keys: Vec<&str> = got.iter().map(|kv| kv.key.as_str()).collect();
    assert_eq!(keys, vec!["DB", "LOG"]);
    assert!(matches!(teller::tree::paged_values(&pm, &[Some(0)], &params, &ssm), Err(Error::NotFound { .. })));
    assert!(matches!(teller::tree::paged_values(&pm, &[], &params, &ssm), Err(Error::NotFound { .. })));
    let outside = vec![("/prod/X".to_string(), "1".to_string())];
    assert!(matches!(teller::tree::paged_values(&pm, &[Some(1)], &outside, &ssm), Err(Error::GetError { .. })));
}
