use npm_resolver::error::ResolveError;
use npm_resolver::exports::{
    condition_active, find_entry, find_pattern, resolve_exports, substitute_text, Branch, Exports, Target,
};
use npm_resolver::specifier::{classify, parse_bare, parse_npm, SpecifierKind};

fn direct(path: &str) -> Exports {
    Exports::Direct(path.to_string())
}

fn branch(key: &str, node: Exports) -> Branch {
    Branch { key: key.to_string(), node }
}

fn conditions(names: &[&str]) -> Vec<String> {
    names.iter().map(|n| n.to_string()).collect()
}

fn strict() -> Exports {
    Exports::Subpaths(vec![
        branch(
            ".",
            Exports::Conditional(vec![
                branch("types", direct("./types.d.ts")),
                branch("require", direct("./require.cjs")),
                branch("import", direct("./import.mjs")),
                branch("default", direct("./default.js")),
            ]),
        ),
        branch("./client", Exports::Conditional(vec![
            branch("node", Exports::Conditional(vec![
                branch("import", direct("./client/node-import.mjs")),
                branch("require", direct("./client/node-require.cjs")),
            ])),
            branch("browser", direct("./client/browser.js")),
        ])),
        branch("./features/*", direct("./src/features/*.js")),
        branch("./features/internal/*", Exports::Excluded),
        branch("./features/*.json", direct("./data/*.json")),
        branch("./escape", direct("../outside.js")),
    ])
}

fn resolve(exports: &Exports, subpath: &str, conds: &[&str]) -> Result<String, ResolveError> {
    resolve_exports("/node_modules/pkg", exports, subpath, &conditions(conds))
}

#[test]
fn the_same_package_leads_import_and_require_to_different_files() {
    assert_eq!(resolve(&strict(), ".", &["node", "import"]).ok().unwrap(), "./import.mjs");
    assert_eq!(resolve(&strict(), ".", &["node", "require"]).ok().unwrap(), "./require.cjs");
    assert_eq!(resolve(&strict(), ".", &["node"]).ok().unwrap(), "./default.js");
    assert_eq!(resolve(&strict(), ".", &["types", "import"]).ok().unwrap(), "./types.d.ts");
}

#[test]
fn conditions_nest_and_fall_through() {
    assert_eq!(resolve(&strict(), "./client", &["node", "require"]).ok().unwrap(), "./client/node-require.cjs");
    assert_eq!(resolve(&strict(), "./client", &["browser", "import"]).ok().unwrap(), "./client/browser.js");
    assert_eq!(resolve(&strict(), "./client", &["node", "browser"]).ok().unwrap(), "./client/browser.js");
    assert!(matches!(
        resolve(&strict(), "./client", &["node"]),
        Err(ResolveError::SubpathNotExported { package_path, subpath })
            if package_path == "/node_modules/pkg" && subpath == "./client"
    ));
}

#[test]
fn a_subpath_that_exports_does_not_list_is_not_exported() {
    match resolve(&strict(), "./test", &["node", "import"]) {
        Err(ResolveError::SubpathNotExported { package_path, subpath }) => {
            assert_eq!(package_path, "/node_modules/pkg");
            assert_eq!(subpath, "./test");
        }
        _ => panic!("expected that the subpath is not exported"),
    }
    assert!(matches!(resolve(&strict(), "./features", &[]), Err(ResolveError::SubpathNotExported { .. })));
    assert!(matches!(resolve(&strict(), "./features/", &[]), Err(ResolveError::SubpathNotExported { .. })));
}

#[test]
fn patterns_match_and_the_closest_one_counts() {
    assert_eq!(resolve(&strict(), "./features/a", &[]).ok().unwrap(), "./src/features/a.js");
    assert_eq!(resolve(&strict(), "./features/a/b", &[]).ok().unwrap(), "./src/features/a/b.js");
    assert_eq!(resolve(&strict(), "./features/x.json", &[]).ok().unwrap(), "./data/x.json");
    assert!(matches!(
        resolve(&strict(), "./features/internal/secret", &[]),
        Err(ResolveError::SubpathNotExported { subpath, .. }) if subpath == "./features/internal/secret"
    ));
    let branches = match strict() {
        Exports::Subpaths(b) => b,
        _ => unreachable!(),
    };
    assert_eq!(find_pattern(&branches, "./features/a"), Some(2));
    assert_eq!(find_pattern(&branches, "./features/internal/a"), Some(3));
    assert_eq!(find_pattern(&branches, "./features/a.json"), Some(4));
    assert_eq!(find_pattern(&branches, "./other"), None);
    assert_eq!(find_entry(&branches, &"./client".to_string()), Some(1));
    assert_eq!(find_entry(&branches, &"./nope".to_string()), None);
}

#[test]
fn a_target_outside_the_package_is_refused() {
    assert!(matches!(
        resolve(&strict(), "./escape", &[]),
        Err(ResolveError::InvalidExportsTarget { package_path, target })
            if package_path == "/node_modules/pkg" && target == "../outside.js"
    ));
}

#[test]
fn exports_that_is_no_map_speaks_of_the_package_alone() {
    assert_eq!(resolve(&direct("./index.js"), ".", &[]).ok().unwrap(), "./index.js");
    assert!(matches!(resolve(&direct("./index.js"), "./test", &[]), Err(ResolveError::SubpathNotExported { .. })));
    let dual = Exports::Conditional(vec![
        branch("import", direct("./main.mjs")),
        branch("require", direct("./main.cjs")),
    ]);
    assert_eq!(resolve(&dual, ".", &["import"]).ok().unwrap(), "./main.mjs");
    assert_eq!(resolve(&dual, ".", &["require"]).ok().unwrap(), "./main.cjs");
    assert!(matches!(resolve(&dual, ".", &[]), Err(ResolveError::SubpathNotExported { .. })));
    assert!(matches!(resolve(&Exports::Excluded, ".", &[]), Err(ResolveError::SubpathNotExported { .. })));
}

#[test]
fn an_exclusion_stops_the_search() {
    let node = Exports::Conditional(vec![
        branch("node", Exports::Excluded),
        branch("default", direct("./fallback.js")),
    ]);
    assert!(matches!(node.target(&conditions(&["node"]), ""), Target::Excluded));
    assert!(matches!(node.target(&conditions(&[]), ""), Target::Path(p) if p == "./fallback.js"));
    let nested = Exports::Conditional(vec![branch("node", Exports::Subpaths(vec![])), branch("default", direct("./d.js"))]);
    assert!(matches!(nested.target(&conditions(&["node"]), ""), Target::Path(p) if p == "./d.js"));
    assert!(matches!(Exports::Conditional(vec![]).target(&conditions(&["node"]), ""), Target::NoMatch));
}

#[test]
fn substitution_replaces_every_star() {
    assert_eq!(substitute_text("./src/*.js", "a/b"), "./src/a/b.js");
    assert_eq!(substitute_text("./*/*.js", "x"), "./x/x.js");
    assert_eq!(substitute_text("./plain.js", "x"), "./plain.js");
    assert_eq!(substitute_text("", "x"), "");
    assert!(condition_active(&conditions(&["import"]), &"default".to_string()));
    assert!(condition_active(&conditions(&["import"]), &"import".to_string()));
    assert!(!condition_active(&conditions(&["import"]), &"require".to_string()));
}

#[test]
fn kinds_of_specifier() {
    for s in ["./a", "../a", ".", "..", "./", "../"] {
        assert_eq!(classify(s), SpecifierKind::Relative, "{s:?}");
    }
    assert_eq!(classify("/a/b"), SpecifierKind::Absolute);
    assert_eq!(classify("#dep"), SpecifierKind::Imports);
    assert_eq!(classify("npm:chalk@5"), SpecifierKind::Npm);
    assert_eq!(classify("node:fs"), SpecifierKind::Builtin);
    assert_eq!(classify("file:///a/main.ts"), SpecifierKind::Url);
    assert_eq!(classify("https://deno.land/x"), SpecifierKind::Url);
    assert_eq!(classify("jsr:@std/path"), SpecifierKind::Url);
    for s in ["chalk", "@denotest/esm-basic", "chalk/index.js", ".hidden", "...", "", ":x", "a1:b", "my-package"] {
        assert_eq!(classify(s), SpecifierKind::Bare, "{s:?}");
    }
}

#[test]
fn bare_specifiers_name_a_package_and_a_subpath() {
    let b = parse_bare("chalk").unwrap();
    assert_eq!((b.name.as_str(), b.subpath.as_str()), ("chalk", "."));
    let b = parse_bare("@denotest/conditional-exports-strict/test").unwrap();
    assert_eq!((b.name.as_str(), b.subpath.as_str()), ("@denotest/conditional-exports-strict", "./test"));
    let b = parse_bare("data-package/folder/x.json").unwrap();
    assert_eq!((b.name.as_str(), b.subpath.as_str()), ("data-package", "./folder/x.json"));
    let b = parse_bare("@a/b").unwrap();
    assert_eq!((b.name.as_str(), b.subpath.as_str()), ("@a/b", "."));
    let b = parse_bare("pkg/").unwrap();
    assert_eq!((b.name.as_str(), b.subpath.as_str()), ("pkg", "./"));
    for bad in ["", "@scope", "@scope/", "/x", "pkg@1/x", "@/x"] {
        assert!(parse_bare(bad).is_none(), "{bad:?}");
    }
}

#[test]
fn npm_specifiers_name_a_request_and_a_subpath() {
    let r = parse_npm("npm:chalk@5").unwrap();
    assert_eq!((r.req.to_text().as_str(), r.subpath.as_str()), ("chalk@5", "."));
    let r = parse_npm("npm:mkdirp@1.0.4").unwrap();
    assert_eq!((r.req.name.as_str(), r.req.req.text(), r.subpath.as_str()), ("mkdirp", "1.0.4", "."));
    let r = parse_npm("npm:@denotest/bin/cli-esm").unwrap();
    assert_eq!((r.req.to_text().as_str(), r.subpath.as_str()), ("@denotest/bin", "./cli-esm"));
    let r = parse_npm("npm:@denotest/conditional-exports-strict@^1.0/test/deep").unwrap();
    assert_eq!((r.req.to_text().as_str(), r.subpath.as_str()), ("@denotest/conditional-exports-strict@^1.0", "./test/deep"));
    let r = parse_npm("npm:/chalk@5.0.1").unwrap();
    assert_eq!((r.req.to_text().as_str(), r.subpath.as_str()), ("chalk@5.0.1", "."));
    let r = parse_npm("npm:cowsay").unwrap();
    assert_eq!((r.req.to_text().as_str(), r.subpath.as_str()), ("cowsay", "."));
    for bad in ["chalk@5", "npm:", "npm:/", "npm:@scope", "npm:chalk@", "npm://chalk", "npm:chalk@5@6", "node:fs"] {
        assert!(parse_npm(bad).is_none(), "{bad:?}");
    }
    let late = parse_npm("npm:chalk/sub@1.0.0").unwrap();
    assert_eq!((late.req.to_text().as_str(), late.subpath.as_str()), ("chalk", "./sub@1.0.0"));
}
