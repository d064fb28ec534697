use npm_resolver::error::ResolveError;
use npm_resolver::exports::{conditions_for, resolve_exports, Branch, Exports, ResolutionMode};
use npm_resolver::specifier::parse_npm;
use npm_resolver::lookup::{
    choose_imported, choose_required, find_declared, lookup_dirs, probe_places,
    resolve_external_package, resolve_external_request, Declared, Entry, Probes,
};
use npm_resolver::package::PackageReq;
use npm_resolver::version::Version;

#[test]
fn packages_are_looked_for_from_the_directory_up_to_the_root() {
    assert_eq!(
        lookup_dirs("/home/user/project/src", "chalk"),
        [
            "/home/user/project/src/node_modules/chalk",
            "/home/user/project/node_modules/chalk",
            "/home/user/node_modules/chalk",
            "/home/node_modules/chalk",
            "/node_modules/chalk",
        ]
    );
    assert_eq!(lookup_dirs("/", "@denotest/esm-basic"), ["/node_modules/@denotest/esm-basic"]);
    assert_eq!(lookup_dirs("", "a"), ["/node_modules/a"]);
    assert_eq!(lookup_dirs("/a", "b"), ["/a/node_modules/b", "/node_modules/b"]);
}

#[test]
fn a_directory_called_node_modules_is_passed_over() {
    assert_eq!(
        lookup_dirs("/p/node_modules/my-package/lib", "dep"),
        [
            "/p/node_modules/my-package/lib/node_modules/dep",
            "/p/node_modules/my-package/node_modules/dep",
            "/p/node_modules/dep",
            "/node_modules/dep",
        ]
    );
    assert_eq!(lookup_dirs("/p/node_modules", "dep"), ["/p/node_modules/dep", "/node_modules/dep"]);
    assert_eq!(lookup_dirs("/node_modules", "dep"), ["/node_modules/dep"]);
}

const NOTHING: Probes = Probes {
    itself: Entry::Missing,
    js: Entry::Missing,
    json: Entry::Missing,
    node: Entry::Missing,
    index_js: Entry::Missing,
    index_json: Entry::Missing,
    index_node: Entry::Missing,
};

#[test]
fn seven_places_are_probed() {
    assert_eq!(
        probe_places("/p/data"),
        ["/p/data", "/p/data.js", "/p/data.json", "/p/data.node", "/p/data/index.js", "/p/data/index.json", "/p/data/index.node"]
    );
}

#[test]
fn require_tries_the_file_then_extensions_then_the_index() {
    let at = |p: Probes| choose_required("/p/data", &p);
    assert_eq!(at(Probes { itself: Entry::File, js: Entry::File, ..NOTHING }).ok().unwrap(), "/p/data");
    assert_eq!(at(Probes { js: Entry::File, json: Entry::File, ..NOTHING }).ok().unwrap(), "/p/data.js");
    assert_eq!(at(Probes { json: Entry::File, node: Entry::File, ..NOTHING }).ok().unwrap(), "/p/data.json");
    assert_eq!(at(Probes { node: Entry::File, index_js: Entry::File, ..NOTHING }).ok().unwrap(), "/p/data.node");
    assert_eq!(at(Probes { itself: Entry::Directory, json: Entry::File, index_js: Entry::File, ..NOTHING }).ok().unwrap(), "/p/data.json");
    assert_eq!(at(Probes { itself: Entry::Directory, index_js: Entry::File, index_json: Entry::File, ..NOTHING }).ok().unwrap(), "/p/data/index.js");
    assert_eq!(at(Probes { itself: Entry::Directory, index_json: Entry::File, ..NOTHING }).ok().unwrap(), "/p/data/index.json");
    assert_eq!(at(Probes { itself: Entry::Directory, index_node: Entry::File, ..NOTHING }).ok().unwrap(), "/p/data/index.node");
    assert_eq!(at(Probes { itself: Entry::Directory, js: Entry::Directory, ..NOTHING }).err().map(|e| matches!(e, ResolveError::DirectoryNoIndex { path } if path == "/p/data")), Some(true));
    assert!(matches!(at(Probes { index_js: Entry::File, ..NOTHING }), Err(ResolveError::ModuleNotFound { path }) if path == "/p/data"));
    assert!(matches!(at(NOTHING), Err(ResolveError::ModuleNotFound { .. })));
}

#[test]
fn import_tries_no_extension() {
    let at = |p: Probes| choose_imported("/p/data", &p);
    assert_eq!(at(Probes { itself: Entry::File, ..NOTHING }).ok().unwrap(), "/p/data");
    assert!(matches!(at(Probes { js: Entry::File, ..NOTHING }), Err(ResolveError::ModuleNotFound { path }) if path == "/p/data"));
    assert_eq!(at(Probes { itself: Entry::Directory, index_js: Entry::File, ..NOTHING }).ok().unwrap(), "/p/data/index.js");
    assert!(matches!(at(Probes { itself: Entry::Directory, js: Entry::File, ..NOTHING }), Err(ResolveError::DirectoryNoIndex { path }) if path == "/p/data"));
}

fn declared(entries: &[(&str, Option<&str>)]) -> Vec<Declared> {
    entries
        .iter()
        .map(|(name, v)| Declared { name: name.to_string(), installed: v.map(|v| Version::parse(v).unwrap()) })
        .collect()
}

#[test]
fn a_declared_package_that_is_not_installed_asks_for_an_install() {
    let project = declared(&[("chalk", None), ("@denotest/conditional-exports-strict", None)]);
    assert!(matches!(
        resolve_external_package("chalk", None, &project),
        Err(ResolveError::PackageJsonMissingDependency { name }) if name == "chalk"
    ));
    let installed = declared(&[("chalk", Some("4.1.2"))]);
    assert_eq!(
        resolve_external_package("chalk", Some("/p/node_modules/chalk".to_string()), &installed).ok().unwrap(),
        "/p/node_modules/chalk"
    );
    assert!(matches!(
        resolve_external_package("other", None, &project),
        Err(ResolveError::ModuleNotFound { path }) if path == "other"
    ));
    assert_eq!(
        resolve_external_package("undeclared", Some("/p/node_modules/undeclared".to_string()), &project).ok().unwrap(),
        "/p/node_modules/undeclared"
    );
    assert_eq!(find_declared(&project, &"chalk".to_string()), Some(0));
    assert_eq!(find_declared(&project, &"none".to_string()), None);
}

fn request(specifier: &str, req: &str, project: &[(&str, Option<&str>)]) -> Result<String, ResolveError> {
    resolve_external_request(specifier, "/p/package.json", &PackageReq::parse(req).unwrap(), &declared(project))
}

#[test]
fn byonm_cjs_esm_packages() {
    let project = [("chalk", Some("4.1.2")), ("chai", Some("4.3.7"))];
    assert_eq!(request("npm:chalk@4", "chalk@4", &project).ok().unwrap(), "chalk");
    assert_eq!(request("npm:chalk", "chalk", &project).ok().unwrap(), "chalk");
    assert_eq!(request("npm:chalk@latest", "chalk@latest", &project).ok().unwrap(), "chalk");
    match request("npm:chalk@5", "chalk@5", &project) {
        Err(ResolveError::NoMatchingPackage { specifier, package_json }) => {
            assert_eq!(specifier, "npm:chalk@5");
            assert_eq!(package_json, "/p/package.json");
        }
        _ => panic!("expected a mismatch"),
    }
    assert!(matches!(request("npm:cowsay", "cowsay", &project), Err(ResolveError::NoMatchingPackage { .. })));
}

#[test]
fn byonm_package_npm_specifier_not_installed_and_invalid_subpath() {
    let project = [("chalk", None), ("@denotest/conditional-exports-strict", None)];
    assert!(matches!(
        request("npm:chalk", "chalk", &project),
        Err(ResolveError::PackageJsonMissingDependency { name }) if name == "chalk"
    ));
    let installed = [("chalk", Some("4.1.2")), ("@denotest/conditional-exports-strict", Some("1.0.0"))];
    let reference = parse_npm("npm:@denotest/conditional-exports-strict/test").unwrap();
    let name = resolve_external_request(
        "npm:@denotest/conditional-exports-strict/test",
        "/p/package.json",
        &reference.req,
        &declared(&installed),
    )
    .ok()
    .unwrap();
    assert_eq!(name, "@denotest/conditional-exports-strict");
    let branch = |key: &str, node: Exports| Branch { key: key.to_string(), node };
    let exports = Exports::Subpaths(vec![
        branch(
            ".",
            Exports::Conditional(vec![
                branch("import", Exports::Direct("./esm/index.js".to_string())),
                branch("require", Exports::Direct("./cjs/index.js".to_string())),
            ]),
        ),
        branch("./client", Exports::Direct("./esm/client/index.js".to_string())),
    ]);
    let dir = "/p/node_modules/@denotest/conditional-exports-strict";
    let error = resolve_exports(dir, &exports, &reference.subpath, &conditions_for(ResolutionMode::Import))
        .err()
        .unwrap();
    assert!(matches!(
        &error,
        ResolveError::SubpathNotExported { package_path, subpath } if package_path == dir && subpath == "./test"
    ));
    assert_eq!(error.exit_code(), 1);
    assert_eq!(
        error.report(Some("/p/main.ts"), Some("file:///p/main.ts:1:8")),
        [
            "error: [ERR_PACKAGE_PATH_NOT_EXPORTED] Package subpath './test' is not defined by \"exports\" in '/p/node_modules/@denotest/conditional-exports-strict' imported from '/p/main.ts'\n",
            "    at file:///p/main.ts:1:8\n",
        ]
        .concat()
    );
}
