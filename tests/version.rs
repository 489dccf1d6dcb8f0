use vagga_core::digest::Digest;
use vagga_core::version::{
    config_needs, container_version, Builder, Config, ContainerConfig, HashResult, Source, Sources, SubConfig,
    Version,
};

fn s(x: &str) -> String {
    x.to_string()
}

fn files(entries: Vec<(&str, &[u8])>) -> Sources {
    Sources {
        files: entries
            .into_iter()
            .map(|(k, v)| (s(k), Ok(v.to_vec())))
            .collect(),
        versions: Vec::new(),
        recipes: Vec::new(),
    }
}

fn config(containers: Vec<(&str, Vec<Builder>)>) -> Config {
    Config {
        containers: containers
            .into_iter()
            .map(|(n, setup)| (s(n), ContainerConfig { setup }))
            .collect(),
    }
}

fn hashed_bytes(step: &Builder, cfg: &Config, src: &Sources) -> Vec<u8> {
    let mut d = Digest::new();
    match step.hash(cfg, src, &mut d) {
        HashResult::Hashed => {}
        _ => panic!("step did not hash"),
    }
    d.bytes().to_vec()
}

fn key(v: Version) -> String {
    match v {
        Version::Hashed(h) => h,
        Version::New => panic!("unexpected New"),
        Version::Error(e) => panic!("unexpected error: {}", e),
    }
}

#[test]
fn manifest_comments_and_blank_lines_are_ignored() {
    let cfg = config(vec![]);
    let a = files(vec![("/work/req.txt", b"pkg==1\n# comment\n\n")]);
    let b = files(vec![("/work/req.txt", b"pkg==1\n")]);
    let step = Builder::Py3Requirements(s("req.txt"));
    let ba = hashed_bytes(&step, &cfg, &a);
    let bb = hashed_bytes(&step, &cfg, &b);
    assert_eq!(ba, bb);
    assert_eq!(ba, b"pkg==1".to_vec());
}

#[test]
fn manifest_lines_are_trimmed() {
    let cfg = config(vec![]);
    let src = files(vec![("/work/r.txt", b"  a==1 \r\n\t# note\nb==2")]);
    let step = Builder::Py2Requirements(s("r.txt"));
    assert_eq!(hashed_bytes(&step, &cfg, &src), b"a==1b==2".to_vec());
}

#[test]
fn depends_feeds_raw_contents() {
    let cfg = config(vec![]);
    let src = files(vec![("/work/data", b"# raw\n\nx")]);
    let step = Builder::Depends(s("data"));
    assert_eq!(hashed_bytes(&step, &cfg, &src), b"# raw\n\nx".to_vec());
}

#[test]
fn absolute_file_name_is_used_as_is() {
    let cfg = config(vec![]);
    let src = files(vec![("/etc/x", b"abc")]);
    let step = Builder::Depends(s("/etc/x"));
    assert_eq!(hashed_bytes(&step, &cfg, &src), b"abc".to_vec());
}

#[test]
fn missing_file_is_an_error() {
    let cfg = config(vec![]);
    let src = files(vec![]);
    let mut d = Digest::new();
    match Builder::Depends(s("nope")).hash(&cfg, &src, &mut d) {
        HashResult::Error(e) => assert_eq!(e, "Can't read file: no such file \"/work/nope\""),
        _ => panic!("expected an error"),
    }
}

#[test]
fn unreadable_file_is_an_error() {
    let cfg = config(vec![]);
    let src = Sources {
        files: vec![(s("/work/f"), Err(s("permission denied")))],
        versions: Vec::new(),
        recipes: Vec::new(),
    };
    let mut d = Digest::new();
    match Builder::Depends(s("f")).hash(&cfg, &src, &mut d) {
        HashResult::Error(e) => assert_eq!(e, "Can't read file: permission denied"),
        _ => panic!("expected an error"),
    }
}

#[test]
fn hashing_is_deterministic() {
    let cfg = config(vec![(
        "app",
        vec![
            Builder::Py3Requirements(s("req.txt")),
            Builder::Depends(s("setup.py")),
            Builder::Other(b"{\"Ubuntu\":\"xenial\"}".to_vec()),
        ],
    )]);
    let src = files(vec![("/work/req.txt", b"a\nb\n"), ("/work/setup.py", b"print(1)")]);
    let k1 = key(container_version(&cfg, &src, &s("app")));
    let k2 = key(container_version(&cfg, &src, &s("app")));
    assert_eq!(k1, k2);
    assert_eq!(k1.len(), 64);
}

#[test]
fn swapping_dependencies_changes_the_key() {
    let src = files(vec![("/work/a", b"first"), ("/work/b", b"second")]);
    let c1 = config(vec![("x", vec![Builder::Depends(s("a")), Builder::Depends(s("b"))])]);
    let c2 = config(vec![("x", vec![Builder::Depends(s("b")), Builder::Depends(s("a"))])]);
    let k1 = key(container_version(&c1, &src, &s("x")));
    let k2 = key(container_version(&c2, &src, &s("x")));
    assert_ne!(k1, k2);
}

#[test]
fn new_short_circuits_later_errors() {
    let unversioned = Builder::SubConfig(SubConfig {
        source: Source::Container(s("base")),
        path: s("vagga.yaml"),
        container: s("inner"),
    });
    let cfg = config(vec![
        ("outer", vec![Builder::Container(s("mid")), Builder::Depends(s("missing"))]),
        ("mid", vec![Builder::Other(b"x".to_vec()), unversioned, Builder::Container(s("ghost"))]),
    ]);
    let src = files(vec![]);
    assert!(matches!(container_version(&cfg, &src, &s("outer")), Version::New));
    let mut d = Digest::new();
    assert!(matches!(Builder::Container(s("outer")).hash(&cfg, &src, &mut d), HashResult::New));
    assert_eq!(d.bytes().to_vec(), b"x".to_vec());
}

#[test]
fn failed_version_lookup_is_new() {
    let step = Builder::SubConfig(SubConfig {
        source: Source::Container(s("base")),
        path: s("vagga.yaml"),
        container: s("inner"),
    });
    let src = Sources {
        files: Vec::new(),
        versions: vec![(s("base"), Err(s("not built")))],
        recipes: Vec::new(),
    };
    let mut d = Digest::new();
    assert!(matches!(step.hash(&config(vec![]), &src, &mut d), HashResult::New));
}

#[test]
fn missing_container_is_an_error_qualified_by_name() {
    let cfg = config(vec![("app", vec![Builder::Container(s("ghost"))])]);
    match container_version(&cfg, &files(vec![]), &s("app")) {
        Version::Error(e) => assert_eq!(e, "\"app\": Container \"ghost\" not found"),
        _ => panic!("expected an error"),
    }
    match container_version(&cfg, &files(vec![]), &s("nope")) {
        Version::Error(e) => assert_eq!(e, "Container \"nope\" not found"),
        _ => panic!("expected an error"),
    }
}

#[test]
fn git_source_is_unsupported() {
    let step = Builder::SubConfig(SubConfig {
        source: Source::Git(s("https://example.org/repo")),
        path: s("vagga.yaml"),
        container: s("inner"),
    });
    let mut d = Digest::new();
    match step.hash(&config(vec![]), &files(vec![]), &mut d) {
        HashResult::Error(e) => assert_eq!(e, "Version-control sources are not supported"),
        _ => panic!("expected an error"),
    }
}

#[test]
fn sub_recipe_from_built_container_root() {
    let sub = config(vec![("inner", vec![Builder::Depends(s("f"))])]);
    let src = Sources {
        files: vec![(s("/work/f"), Ok(b"data".to_vec()))],
        versions: vec![(s("base"), Ok(s("base.1234")))],
        recipes: vec![(s("/vagga/base/.roots/base.1234/root/sub/vagga.yaml"), Ok(sub))],
    };
    let step = Builder::SubConfig(SubConfig {
        source: Source::Container(s("base")),
        path: s("sub/vagga.yaml"),
        container: s("inner"),
    });
    assert_eq!(hashed_bytes(&step, &config(vec![]), &src), b"data".to_vec());
}

#[test]
fn sub_recipe_errors() {
    let sub = config(vec![("other", vec![])]);
    let src = Sources {
        files: Vec::new(),
        versions: Vec::new(),
        recipes: vec![(s("/work/sub.yaml"), Ok(sub)), (s("/work/bad.yaml"), Err(s("parse error")))],
    };
    let missing = Builder::SubConfig(SubConfig {
        source: Source::Directory,
        path: s("sub.yaml"),
        container: s("inner"),
    });
    let mut d = Digest::new();
    match missing.hash(&config(vec![]), &src, &mut d) {
        HashResult::Error(e) => assert_eq!(e, "Container \"inner\" not found in \"sub.yaml\""),
        _ => panic!("expected an error"),
    }
    let bad = Builder::SubConfig(SubConfig {
        source: Source::Directory,
        path: s("bad.yaml"),
        container: s("inner"),
    });
    match bad.hash(&config(vec![]), &src, &mut d) {
        HashResult::Error(e) => assert_eq!(e, "parse error"),
        _ => panic!("expected an error"),
    }
    let absent = Builder::SubConfig(SubConfig {
        source: Source::Directory,
        path: s("none.yaml"),
        container: s("inner"),
    });
    match absent.hash(&config(vec![]), &src, &mut d) {
        HashResult::Error(e) => assert_eq!(e, "Can't read config: no such file \"/work/none.yaml\""),
        _ => panic!("expected an error"),
    }
}

#[test]
fn self_reference_stops_at_depth_limit() {
    let cfg = config(vec![("loop", vec![Builder::Container(s("loop"))])]);
    match container_version(&cfg, &files(vec![]), &s("loop")) {
        Version::Error(e) => assert!(e.ends_with("Container references nest too deeply")),
        _ => panic!("expected an error"),
    }
}

#[test]
fn key_value_entries_are_hashed_in_key_order() {
    let cfg = config(vec![]);
    let src = files(vec![]);
    let a = Builder::CacheDirs(vec![(s("/var/b"), s("two")), (s("/var/a"), s("one"))]);
    let b = Builder::CacheDirs(vec![(s("/var/a"), s("one")), (s("/var/b"), s("two"))]);
    let expected = b"/var/a\0one\0/var/b\0two\0".to_vec();
    assert_eq!(hashed_bytes(&a, &cfg, &src), expected);
    assert_eq!(hashed_bytes(&b, &cfg, &src), expected);
    let t = Builder::Text(vec![(s("/etc/z"), s("zz")), (s("/etc/hosts"), s("h"))]);
    assert_eq!(hashed_bytes(&t, &cfg, &src), b"/etc/hosts\0h\0/etc/z\0zz\0".to_vec());
}

#[test]
fn manifest_lines_lose_unicode_whitespace() {
    let cfg = config(vec![]);
    let src = files(vec![(
        "/work/r.txt",
        "\u{a0}a==1\u{3000}\n\u{2003}#c\u{85}\n".as_bytes(),
    )]);
    let step = Builder::Py3Requirements(s("r.txt"));
    assert_eq!(hashed_bytes(&step, &cfg, &src), b"a==1".to_vec());
}

#[test]
fn manifest_that_is_not_text_is_an_error() {
    let cfg = config(vec![]);
    let src = files(vec![("/work/r.txt", b"a==1\n\xff\n")]);
    let mut d = Digest::new();
    match Builder::Py2Requirements(s("r.txt")).hash(&cfg, &src, &mut d) {
        HashResult::Error(e) => assert_eq!(e, "Can't read file: stream did not contain valid UTF-8"),
        _ => panic!("expected an error"),
    }
}

#[test]
fn needs_list_files_versions_and_recipes() {
    let cfg = config(vec![
        ("a", vec![Builder::Depends(s("x")), Builder::Py2Requirements(s("/abs/req"))]),
        (
            "b",
            vec![
                Builder::SubConfig(SubConfig {
                    source: Source::Container(s("base")),
                    path: s("v.yaml"),
                    container: s("c"),
                }),
                Builder::SubConfig(SubConfig {
                    source: Source::Directory,
                    path: s("sub.yaml"),
                    container: s("c"),
                }),
                Builder::Other(vec![1]),
            ],
        ),
    ]);
    let n = config_needs(&cfg, &files(vec![]));
    assert_eq!(n.files, vec![s("/work/x"), s("/abs/req")]);
    assert_eq!(n.versions, vec![s("base")]);
    assert_eq!(n.recipes, vec![s("/work/sub.yaml")]);
    let src = Sources {
        files: Vec::new(),
        versions: vec![(s("base"), Ok(s("base.1")))],
        recipes: Vec::new(),
    };
    let n = config_needs(&cfg, &src);
    assert_eq!(
        n.recipes,
        vec![s("/vagga/base/.roots/base.1/root/v.yaml"), s("/work/sub.yaml")]
    );
}
