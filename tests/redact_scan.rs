use teller::config::{ProviderInfo, ProviderKind, KV};
use teller::redact::Redactor;
use teller::scan::{get_visual_position, is_binary, matches_from_hits, scan_text, sort_matches};

fn inmem_info() -> ProviderInfo {
    ProviderInfo {
        kind: ProviderKind::Inmem,
        name: "test".to_string(),
    }
}

#[test]
fn redact_none() {
    let data = "foobar\nfoobaz\n";
    let redactor = Redactor {};
    let s = redactor.redact(data, &[]);
    assert_eq!(s, "foobar\nfoobaz\n");
}

#[test]
fn redact_some() {
    let data = "foobar\nfoobaz\n";
    let redactor = Redactor {};
    let s = redactor.redact(
        data,
        &[KV::from_literal("some/path", "k", "foobaz", inmem_info())],
    );
    assert_eq!(s, "foobar\n[REDACTED]\n");
}

#[test]
fn redact_stream_scenario() {
    let kvs = vec![KV::from_kv("TOKEN", "abcdef")];
    let out = Redactor::new().redact("auth: Bearer abcdef ok", &kvs);
    assert_eq!(out, "auth: Bearer [REDACTED] ok\n");
}

#[test]
fn redact_uses_redact_with_and_skips_short_values() {
    let mut kv = KV::from_kv("A", "secret");
    kv.meta = Some(teller::config::MetaInfo {
        sensitivity: teller::config::Sensitivity::High,
        redact_with: Some("<hidden>".to_string()),
        source: None,
        sink: None,
    });
    let short = KV::from_kv("B", "x");
    let r = Redactor::new();
    assert_eq!(r.redact_string("a secret and x", &[kv.clone(), short.clone()]), "a <hidden> and x");
    assert_eq!(r.redact_string("only x here", &[kv, short]), "only x here");
}

#[test]
fn redact_strips_crlf_and_passes_unmatched_lines() {
    let kvs = vec![KV::from_kv("T", "tok")];
    let out = Redactor::new().redact("a tok\r\nplain\nlast", &kvs);
    assert_eq!(out, "a [REDACTED]\nplain\nlast\n");
    assert!(!Redactor::new().has_match("nothing", &kvs));
    assert!(Redactor::new().has_match("has tok", &kvs));
}

#[test]
fn redact_replaces_every_occurrence() {
    let kvs = vec![KV::from_kv("T", "ab")];
    assert_eq!(Redactor::new().redact_string("abab-ab", &kvs), "[REDACTED][REDACTED]-[REDACTED]");
}

#[test]
fn test_position() {
    assert_eq!(get_visual_position(b"", 4), None);
    assert_eq!(get_visual_position(b"", 1), None);
    assert_eq!(get_visual_position(b"", 0), None);
    assert_eq!(get_visual_position(b"a", 1), None);

    assert_eq!(get_visual_position(b"abcde\nfghi", 8), Some((2, 3)));
    assert_eq!(get_visual_position(b"abcde\r\nfghi", 8), Some((2, 2)));

    let text = r#" 100% ❯ j teller-rs
    /Users/jondot/spikes/teller-rs
    (base)
    ~/spikes/teller-rs on  master [!?] via 🦀 v1.73.0-nightly
     100% ❯ code .
    (base)
    ~/spikes/teller-rs on  master [!?] via 🦀 v1.73.0-nightly
     100% ❯ [WARN] - (starship::utils): Executing command "/opt/homebrew/bin/git" timed out.
    (base)
    ~/spikes/teller-rs on  master [!?] via 🦀 v1.73.0-nightly
     100% ❯ open /Users/jondot/Movies
    (base)
    ~/spikes/teller-rs on  master [!?] via 🦀 v1.73.0-nightly
     100% ❯"#;
    let position = get_visual_position(text.as_bytes(), 438);
    assert_eq!(position, Some((11, 19)));
}

#[test]
fn scan_with_position_scenario() {
    let kvs = vec![KV::from_literal("/some/path", "key1", "trooper123", inmem_info())];
    let res = scan_text("fixtures/app.conf", "db=trooper123\n", &kvs).unwrap();
    assert_eq!(res.len(), 1);
    assert_eq!(res[0].position, Some((1, 4)));
    assert_eq!(res[0].offset, 3);
    assert_eq!(res[0].path, "fixtures/app.conf");
    assert_eq!(res[0].query.value, "trooper123");
}

#[test]
fn scan_finds_each_value_in_order() {
    let kvs = vec![
        KV::from_literal("/some/path", "key1", "hashicorp", inmem_info()),
        KV::from_literal("/some/path", "key1", "dont-find-me", inmem_info()),
        KV::from_literal("/some/path", "key1", "trooper123", inmem_info()),
    ];
    let text = "a=trooper123\nb=hashicorp\nc=trooper123";
    let res = scan_text("f", text, &kvs).unwrap();
    let offsets: Vec<usize> = res.iter().map(|m| m.offset).collect();
    assert_eq!(offsets, vec![2, 15, 27]);
    assert_eq!(res[1].query.value, "hashicorp");
    assert_eq!(res[2].position, Some((3, 3)));
}

#[test]
fn scan_results_sorted_by_kind_key_offset() {
    let dot = ProviderInfo {
        kind: ProviderKind::Dotenv,
        name: "d".to_string(),
    };
    let kvs = vec![
        KV::from_literal("p", "zeta", "v1", dot.clone()),
        KV::from_literal("p", "alpha", "v2", dot),
        KV::from_literal("p", "beta", "v3", inmem_info()),
    ];
    let hits = vec![(0usize, 9usize), (1, 5), (2, 7), (1, 1), (0, 3)];
    let content = "xxxxxxxxxxxxxxxxxxxx";
    let ms = matches_from_hits("f", content, &kvs, &hits);
    let sorted = sort_matches(ms);
    let order: Vec<(String, usize)> = sorted.iter().map(|m| (m.query.key.clone(), m.offset)).collect();
    assert_eq!(
        order,
        vec![
            ("beta".to_string(), 7),
            ("alpha".to_string(), 1),
            ("alpha".to_string(), 5),
            ("zeta".to_string(), 3),
            ("zeta".to_string(), 9),
        ]
    );
}

#[test]
fn binary_detection_looks_at_first_kilobyte() {
    assert!(!is_binary(b"plain text"));
    assert!(is_binary(b"ab\0cd"));
    let mut late = vec![b'a'; 2000];
    late[1500] = 0;
    assert!(!is_binary(&late));
}

#[test]
fn visual_position_counts_wide_glyphs() {
    let text = "ab\n\u{1F980}x";
    let pos = get_visual_position(text.as_bytes(), 7);
    assert_eq!(pos, Some((2, 3)));
}
