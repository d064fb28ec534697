use npm_resolver::copies::{assign_copies, peer_resolution, Use};
use npm_resolver::error::ResolveError;
use npm_resolver::exports::{conditions_for, resolve_imports, Branch, Exports, ResolutionMode};
use npm_resolver::flight::{download_line, initialize_line};
use npm_resolver::layout::{cache_folder, folder_name, local_folder, place_all, place_package, registry_folder};
use npm_resolver::package::{PackageId, PackageReq};
use npm_resolver::policy::{
    check_integrity, forget_decisions, info_source, reload_setting, InfoSource, Reload,
};
use npm_resolver::proxy::{
    alpn_protocols, is_connect, proxy_url, server_setup, server_url, serves_http2, tunnel_granted, KeyForm,
};
use npm_resolver::snapshot::{hydrate, update_entries, Lockfile, LockfilePackage};

fn id(text: &str) -> PackageId {
    PackageId::parse(text).unwrap()
}

#[test]
fn folders_of_packages() {
    assert_eq!(folder_name(&id("chalk@5.0.1"), 0), "chalk@5.0.1");
    assert_eq!(folder_name(&id("@denotest/esm-basic@1.0.0"), 0), "@denotest+esm-basic@1.0.0");
    assert_eq!(folder_name(&id("@denotest/esm-basic@1.0.0"), 12), "@denotest+esm-basic@1.0.0_12");
    assert_eq!(local_folder(&id("chalk@5.0.1"), 0), "node_modules/.deno/chalk@5.0.1/node_modules/chalk");
    assert_eq!(local_folder(&id("@a/b@1.2.3"), 2), "node_modules/.deno/@a+b@1.2.3_2/node_modules/@a/b");
    assert_eq!(cache_folder(&id("chalk@5.0.1"), 0), "chalk/5.0.1");
    assert_eq!(cache_folder(&id("@a/b@1.2.3"), 1), "@a/b/1.2.3_1");
}

#[test]
fn folders_of_registries() {
    assert_eq!(registry_folder("http://localhost:4545/npm/registry"), "localhost_4545/npm/registry");
    assert_eq!(registry_folder("http://localhost:4545/npm/registry/"), "localhost_4545/npm/registry");
    assert_eq!(registry_folder("https://registry.npmjs.org/"), "registry.npmjs.org");
    assert_eq!(registry_folder("https://registry.npmjs.org"), "registry.npmjs.org");
    assert_eq!(registry_folder("registry.example:8080/x"), "registry.example_8080/x");
    assert_eq!(registry_folder(""), "");
    assert_eq!(registry_folder("http://"), "");
    assert_eq!(registry_folder("http:/"), "http_");
    assert_eq!(registry_folder("a:/b/"), "a_/b");
    assert_eq!(registry_folder("a://b"), "b");
}

fn lock_package(id: &str, dependencies: &[(&str, &str)]) -> LockfilePackage {
    LockfilePackage {
        id: id.to_string(),
        integrity: format!("sha512-{id}"),
        dependencies: dependencies.iter().map(|(a, b)| (a.to_string(), b.to_string())).collect(),
    }
}

fn sample() -> Lockfile {
    Lockfile {
        specifiers: vec![("a@^1".to_string(), "a@1.0.0".to_string()), ("b".to_string(), "b@2.0.0".to_string())],
        packages: vec![
            lock_package("a@1.0.0", &[("b", "b@2.0.0"), ("@s/c", "@s/c@3.0.0")]),
            lock_package("b@2.0.0", &[]),
            lock_package("@s/c@3.0.0", &[]),
        ],
    }
}

#[test]
fn one_directory_for_each_package_and_one_link_for_each_dependency() {
    let snapshot = hydrate(&sample()).ok().unwrap();
    let placements = place_all(&snapshot);
    let folders: Vec<&str> = placements.iter().map(|p| p.folder.as_str()).collect();
    assert_eq!(
        folders,
        [
            "node_modules/.deno/a@1.0.0/node_modules/a",
            "node_modules/.deno/b@2.0.0/node_modules/b",
            "node_modules/.deno/@s+c@3.0.0/node_modules/@s/c",
        ]
    );
    let links: Vec<(&str, &str)> = placements[0].links.iter().map(|l| (l.name.as_str(), l.target.as_str())).collect();
    assert_eq!(
        links,
        [("b", "node_modules/.deno/b@2.0.0/node_modules/b"), ("@s/c", "node_modules/.deno/@s+c@3.0.0/node_modules/@s/c")]
    );
    assert!(placements[1].links.is_empty());
    assert_eq!(place_package(&snapshot.packages[2]).folder, folders[2]);
}

#[test]
fn copies_are_shared_by_uses_with_the_same_peers() {
    let u = |id_text: &str, peers: &[&str]| Use { id: id(id_text), peers: peers.iter().map(|p| id(p)).collect() };
    let uses = vec![
        u("a@1.0.0", &["p@1.0.0"]),
        u("b@1.0.0", &["p@2.0.0"]),
        u("a@1.0.0", &["p@2.0.0"]),
        u("a@1.0.0", &["p@1.0.0"]),
        u("b@1.0.0", &["p@1.0.0"]),
        u("a@1.0.0", &["p@3.0.0"]),
        u("a@1.0.0", &["p@2.0.0"]),
        u("a@2.0.0", &["p@3.0.0"]),
        u("a@1.0.0", &[]),
        u("a@1.0.0", &["p@1.0.0", "q@1.0.0"]),
    ];
    assert_eq!(assign_copies(&uses), [0, 0, 1, 0, 1, 2, 1, 0, 3, 4]);
    assert!(assign_copies(&vec![]).is_empty());
}

#[test]
fn what_a_run_tells() {
    assert_eq!(
        download_line("http://localhost:4545/npm/registry/@denotest/esm-basic"),
        "Download http://localhost:4545/npm/registry/@denotest/esm-basic"
    );
    assert_eq!(initialize_line(&id("@denotest/esm-basic@1.0.0")), "Initialize @denotest/esm-basic@1.0.0");
}

#[test]
fn where_information_comes_from() {
    assert_eq!(info_source(true, false, false), InfoSource::Cache);
    assert_eq!(info_source(true, true, false), InfoSource::Registry);
    assert_eq!(info_source(false, false, false), InfoSource::Registry);
    assert_eq!(info_source(false, true, false), InfoSource::Registry);
    assert_eq!(info_source(true, false, true), InfoSource::Cache);
    assert_eq!(info_source(true, true, true), InfoSource::Cache);
    assert_eq!(info_source(false, false, true), InfoSource::Nowhere);
    assert_eq!(info_source(false, true, true), InfoSource::Nowhere);
}

#[test]
fn what_the_reload_flag_asks_for() {
    let values = |v: &[&str]| v.iter().map(|s| s.to_string()).collect::<Vec<String>>();
    assert!(matches!(reload_setting(None), Reload::Nothing));
    assert!(matches!(reload_setting(Some(&values(&[]))), Reload::Everything));
    assert!(matches!(reload_setting(Some(&values(&["npm:"]))), Reload::Everything));
    assert!(matches!(reload_setting(Some(&values(&["npm:chalk", "npm:"]))), Reload::Everything));
    match reload_setting(Some(&values(&["npm:chalk", "https://deno.land/std", "npm:@denotest/esm-basic@1/sub", "npm:@bad"]))) {
        Reload::Packages(names) => assert_eq!(names, ["chalk", "@denotest/esm-basic"]),
        _ => panic!("expected names"),
    }
    let chalk = reload_setting(Some(&values(&["npm:chalk"])));
    assert!(chalk.applies_to("chalk"));
    assert!(!chalk.applies_to("foobar"));
    assert!(!Reload::Nothing.applies_to("chalk"));
    assert!(Reload::Everything.applies_to("chalk"));
}

#[test]
fn decisions_for_reloaded_packages_are_forgotten() {
    let snapshot = hydrate(&sample()).ok().unwrap();
    let kept = forget_decisions(snapshot, &Reload::Packages(vec!["a".to_string()]));
    assert_eq!(kept.specifiers.len(), 1);
    assert_eq!(kept.specifiers[0].0.to_text(), "b");
    assert_eq!(kept.packages.len(), 3);
    assert!(kept.first_dangling().is_none());
    let none = forget_decisions(kept, &Reload::Everything);
    assert!(none.specifiers.is_empty());
    let all = forget_decisions(hydrate(&sample()).ok().unwrap(), &Reload::Nothing);
    assert_eq!(all.specifiers.len(), 2);
}

#[test]
fn integrity_is_the_same_hash() {
    assert!(check_integrity(&id("a@1.0.0"), "sha512-x", "sha512-x").is_ok());
    assert!(check_integrity(&id("a@1.0.0"), "", "").is_ok());
    assert!(matches!(
        check_integrity(&id("a@1.0.0"), "sha512-x", "sha512-y"),
        Err(ResolveError::IntegrityMismatch { id }) if id == "a@1.0.0"
    ));
}

#[test]
fn an_update_leaves_other_entries_as_they_are() {
    let pair = |a: &str, b: &str| (a.to_string(), b.to_string());
    let existing = vec![pair("a", "a@1.0.0"), pair("b", "b@1.0.0"), pair("c", "c@1.0.0")];
    let update = vec![pair("d", "d@1.0.0"), pair("b", "b@2.0.0"), pair("e", "e@1.0.0")];
    assert_eq!(
        update_entries(&existing, &update),
        [pair("a", "a@1.0.0"), pair("b", "b@2.0.0"), pair("c", "c@1.0.0"), pair("d", "d@1.0.0"), pair("e", "e@1.0.0")]
    );
    assert_eq!(update_entries(&existing, &existing), existing);
    assert_eq!(update_entries(&existing, &vec![]), existing);
    assert_eq!(update_entries(&vec![], &update), update);

    let mut newer = sample();
    newer.specifiers = vec![pair("cowsay@1.5.0", "cowsay@1.5.0")];
    newer.packages = vec![lock_package("cowsay@1.5.0", &[]), lock_package("b@2.0.0", &[("x", "x@1.0.0")])];
    let merged = sample().updated_with(&newer);
    assert_eq!(merged.specifiers, [pair("a@^1", "a@1.0.0"), pair("b", "b@2.0.0"), pair("cowsay@1.5.0", "cowsay@1.5.0")]);
    let ids: Vec<&str> = merged.packages.iter().map(|p| p.id.as_str()).collect();
    assert_eq!(ids, ["a@1.0.0", "b@2.0.0", "@s/c@3.0.0", "cowsay@1.5.0"]);
    assert_eq!(merged.packages[1].dependencies, [pair("x", "x@1.0.0")]);
    assert_eq!(merged.packages[0].dependencies, sample().packages[0].dependencies);
    assert_eq!(merged.packages[0].integrity, "sha512-a@1.0.0");
    let same = sample().updated_with(&sample());
    assert_eq!(same.specifiers, sample().specifiers);
    assert_eq!(same.packages.len(), 3);
}

#[test]
fn every_error_has_its_text() {
    let s = |t: &str| t.to_string();
    let cases: Vec<(ResolveError, &str)> = vec![
        (ResolveError::PackageNotFound { name: s("@denotest/non-existent") }, "npm package '@denotest/non-existent' does not exist."),
        (
            ResolveError::VersionNotFound { name: s("@denotest/esm-basic"), req: s("=99.99.99") },
            "Could not find npm package '@denotest/esm-basic' matching '=99.99.99'.",
        ),
        (ResolveError::IntegrityMismatch { id: s("a@1.0.0") }, "Integrity check failed for npm package: \"a@1.0.0\"."),
        (ResolveError::LockfileCorrupt { missing: s("cowsay@1.5.0") }, "Could not find 'cowsay@1.5.0' in the list of packages."),
        (ResolveError::LockfileInvalid { text: s("x@") }, "Could not read 'x@' in the lockfile."),
        (ResolveError::LockfileInconsistent { req: s("a@^2") }, "The lockfile resolves 'a@^2' to a package that does not answer it."),
        (
            ResolveError::SubpathNotExported { package_path: s("/p"), subpath: s("./test") },
            "[ERR_PACKAGE_PATH_NOT_EXPORTED] Package subpath './test' is not defined by \"exports\" in '/p'",
        ),
        (
            ResolveError::InvalidExportsTarget { package_path: s("/p"), target: s("../x") },
            "[ERR_INVALID_PACKAGE_TARGET] Invalid \"exports\" target '../x' defined in the package config of '/p'",
        ),
        (
            ResolveError::ImportNotDefined { package_path: s("/p"), alias: s("#dep") },
            "[ERR_PACKAGE_IMPORT_NOT_DEFINED] Package import specifier \"#dep\" is not defined in package '/p'",
        ),
        (ResolveError::ModuleNotFound { path: s("/p/x") }, "[ERR_MODULE_NOT_FOUND] Cannot find module '/p/x'"),
        (
            ResolveError::DirectoryNoIndex { path: s("/p/d") },
            "[ERR_UNSUPPORTED_DIR_IMPORT] Directory import '/p/d' is not supported: the directory holds no index file",
        ),
        (
            ResolveError::PackageJsonMissingDependency { name: s("chalk") },
            "Could not resolve \"chalk\", but found it in a package.json. Deno expects the node_modules/ directory to be up to date. Did you forget to run `npm install`?",
        ),
        (
            ResolveError::NoMatchingPackage { specifier: s("npm:chalk@5"), package_json: s("/p/package.json") },
            "Could not find a matching package for 'npm:chalk@5' in '/p/package.json'. You must specify this as a package.json dependency when the node_modules folder is not managed by Deno.",
        ),
        (ResolveError::NoNpmAllowed, "npm specifiers were requested; but --no-npm is specified"),
    ];
    for (error, text) in cases {
        assert_eq!(error.message(), text);
        assert_eq!(error.causes().last().unwrap(), text);
        let code = if matches!(error, ResolveError::IntegrityMismatch { .. }) { 10 } else { 1 };
        assert_eq!(error.exit_code(), code);
    }
    assert_eq!(ResolveError::LockfileCorrupt { missing: s("x@1.0.0") }.causes().len(), 2);
}

fn imports() -> Exports {
    let b = |key: &str, node: Exports| Branch { key: key.to_string(), node };
    Exports::Subpaths(vec![
        b("#dep", Exports::Conditional(vec![
            b("node", Exports::Direct("dep-node-native".to_string())),
            b("default", Exports::Direct("./dep-polyfill.js".to_string())),
        ])),
        b("#internal/*", Exports::Direct("./src/internal/*.js".to_string())),
    ])
}

#[test]
fn aliases_of_a_package() {
    let import = conditions_for(ResolutionMode::Import);
    assert_eq!(import, ["deno", "node", "import"]);
    assert_eq!(conditions_for(ResolutionMode::Require), ["require", "node"]);
    assert_eq!(resolve_imports("/p", &imports(), "#dep", &import).ok().unwrap(), "dep-node-native");
    assert_eq!(resolve_imports("/p", &imports(), "#dep", &vec![]).ok().unwrap(), "./dep-polyfill.js");
    assert_eq!(resolve_imports("/p", &imports(), "#internal/a/b", &import).ok().unwrap(), "./src/internal/a/b.js");
    assert!(matches!(
        resolve_imports("/p", &imports(), "#other", &import),
        Err(ResolveError::ImportNotDefined { package_path, alias }) if package_path == "/p" && alias == "#other"
    ));
    assert!(matches!(resolve_imports("/p", &imports(), "dep", &import), Err(ResolveError::ImportNotDefined { .. })));
    assert!(matches!(
        resolve_imports("/p", &Exports::Direct("./x.js".to_string()), "#dep", &import),
        Err(ResolveError::ImportNotDefined { .. })
    ));
}

#[test]
fn what_proxy_and_server_decide() {
    assert_eq!(alpn_protocols(true), [b"h2".to_vec(), b"http/1.1".to_vec()]);
    assert_eq!(alpn_protocols(false), [b"http/1.1".to_vec()]);
    assert!(serves_http2(Some(b"h2")));
    assert!(!serves_http2(Some(b"http/1.1")));
    assert!(!serves_http2(Some(b"h2c")));
    assert!(!serves_http2(Some(b"h")));
    assert!(!serves_http2(None));
    assert!(is_connect(b"CONNECT 127.0.0.1:4545 HTTP/1.1\r\n\r\n"));
    assert!(is_connect(b"CONNECT"));
    assert!(!is_connect(b"CONNEC"));
    assert!(!is_connect(b"GET / HTTP/1.1\r\n"));
    assert!(!is_connect(b""));
    assert_eq!(tunnel_granted().as_bytes(), b"HTTP/1.1 200 OK\r\n\r\n");
    assert_eq!(proxy_url(false, "127.0.0.1:8080"), "http://127.0.0.1:8080");
    assert_eq!(proxy_url(true, "127.0.0.1:8080"), "https://127.0.0.1:8080");
    assert_eq!(server_url("127.0.0.1:4545", "/foo"), "https://127.0.0.1:4545/foo");
}

#[test]
fn requests_keep_their_text_through_a_lockfile() {
    for text in ["a", "a@^1", "@s/c@latest", "@s/c@>=1.2.3", "a@~0.0", "a@*", "a@1.x".strip_suffix(".x").unwrap()] {
        assert_eq!(PackageReq::parse(text).unwrap().to_text(), text);
    }
}

#[test]
fn a_server_is_set_up_with_a_key_of_a_known_form() {
    let pkcs8 = [0x30u8, 0x82, 0x01, 0x00, 0x02, 0x01, 0x00, 0x30, 0x0d, 0x06, 0x09];
    let pkcs1 = [0x30u8, 0x82, 0x04, 0xa4, 0x02, 0x01, 0x00, 0x02, 0x82, 0x01, 0x01];
    let sec1 = [0x30u8, 0x77, 0x02, 0x01, 0x01, 0x04, 0x20, 0x11];
    let short_pkcs8 = [0x30u8, 0x04, 0x02, 0x01, 0x07, 0x30];
    for (key, form) in [
        (&pkcs8[..], KeyForm::Pkcs8),
        (&pkcs1[..], KeyForm::Pkcs1),
        (&sec1[..], KeyForm::Sec1),
        (&short_pkcs8[..], KeyForm::Pkcs8),
    ] {
        let setup = server_setup(key, true).unwrap();
        assert_eq!(setup.key_form, form);
        assert_eq!(setup.protocols, [b"h2".to_vec(), b"http/1.1".to_vec()]);
    }
    assert_eq!(server_setup(&sec1, false).unwrap().protocols, [b"http/1.1".to_vec()]);
    let unknown: [&[u8]; 8] = [
        &[],
        &[0x30],
        &[0x30, 0x03, 0x02, 0x01],
        &[0x30, 0x03, 0x02, 0x01, 0x02],
        &[0x31, 0x03, 0x02, 0x01, 0x00],
        &[0x30, 0x85, 0x02, 0x01, 0x00],
        &[0x30, 0x82, 0x01, 0x00, 0x02, 0x02, 0x00, 0x30],
        &[0x02, 0x01, 0x00],
    ];
    for key in unknown {
        assert!(server_setup(key, true).is_none(), "{key:?}");
    }
}

#[test]
fn a_peer_resolves_to_what_the_nearest_dependent_depends_on() {
    let snapshot = hydrate(&Lockfile {
        specifiers: vec![],
        packages: vec![
            lock_package("root@1.0.0", &[("peer", "peer@1.0.0"), ("child", "child@1.0.0")]),
            lock_package("child@1.0.0", &[("peer", "peer@2.0.0"), ("grandchild", "grandchild@1.0.0")]),
            lock_package("grandchild@1.0.0", &[("other", "peer@1.0.0")]),
            lock_package("peer@1.0.0", &[]),
            lock_package("peer@2.0.0", &[]),
        ],
    })
    .ok()
    .unwrap();
    let at = |chain: &[usize], name: &str| peer_resolution(&snapshot, &chain.to_vec(), name).map(|id| id.to_text());
    assert_eq!(at(&[0, 1, 2], "peer").as_deref(), Some("peer@2.0.0"));
    assert_eq!(at(&[0, 1], "peer").as_deref(), Some("peer@2.0.0"));
    assert_eq!(at(&[0, 2], "peer").as_deref(), Some("peer@1.0.0"));
    assert_eq!(at(&[0], "peer").as_deref(), Some("peer@1.0.0"));
    assert_eq!(at(&[2], "peer"), None);
    assert_eq!(at(&[2], "other").as_deref(), Some("peer@1.0.0"));
    assert_eq!(at(&[], "peer"), None);
    assert_eq!(at(&[0, 99], "peer").as_deref(), Some("peer@1.0.0"));
    assert_eq!(at(&[0, 1, 2], "absent"), None);
}
