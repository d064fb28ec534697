use npm_resolver::error::ResolveError;
use npm_resolver::package::{PackageId, PackageReq};
use npm_resolver::platform::{Constraints, Platform};
use npm_resolver::registry::{find_info, package_url, tarball_url, Dependency, PackageInfo, VersionInfo};
use npm_resolver::req::VersionReq;
use npm_resolver::resolver::{Resolver, Step};
use npm_resolver::snapshot::{hydrate, Lockfile, LockfilePackage, Snapshot};
use npm_resolver::version::Version;

fn v(text: &str) -> Version {
    Version::parse(text).unwrap()
}

fn anywhere() -> Constraints {
    Constraints { os: vec![], cpu: vec![] }
}

fn only_os(os: &str) -> Constraints {
    Constraints { os: vec![os.to_string()], cpu: vec![] }
}

fn dep(text: &str) -> Dependency {
    Dependency { req: PackageReq::parse(text).unwrap(), optional: false }
}

fn optional(text: &str) -> Dependency {
    Dependency { req: PackageReq::parse(text).unwrap(), optional: true }
}

fn version(text: &str, dependencies: Vec<Dependency>, constraints: Constraints) -> VersionInfo {
    VersionInfo {
        version: v(text),
        integrity: format!("sha512-{text}"),
        dependencies,
        constraints,
    }
}

fn info(name: &str, versions: Vec<VersionInfo>, tags: &[(&str, &str)]) -> PackageInfo {
    PackageInfo {
        name: name.to_string(),
        versions,
        dist_tags: tags.iter().map(|(t, ver)| (t.to_string(), v(ver))).collect(),
    }
}

fn chalk() -> PackageInfo {
    info(
        "chalk",
        vec![
            version("4.1.2", vec![dep("ansi-styles@^4.1.0")], anywhere()),
            version("5.0.1", vec![], anywhere()),
            version("4.0.0", vec![dep("ansi-styles@^4.1.0")], anywhere()),
            version("5.0.0", vec![], anywhere()),
        ],
        &[("latest", "5.0.1"), ("legacy", "4.1.2"), ("gone", "9.9.9")],
    )
}

fn linux() -> Platform {
    Platform { os: "linux".to_string(), cpu: "x64".to_string() }
}

fn best(info: &PackageInfo, req: &str) -> Option<String> {
    info.best_match(&VersionReq::parse(req).unwrap()).map(|i| info.versions[i].version.to_text())
}

#[test]
fn best_match_is_the_highest_that_answers() {
    let chalk = chalk();
    assert_eq!(best(&chalk, "^4").as_deref(), Some("4.1.2"));
    assert_eq!(best(&chalk, "4").as_deref(), Some("4.1.2"));
    assert_eq!(best(&chalk, "5").as_deref(), Some("5.0.1"));
    assert_eq!(best(&chalk, "~5.0.0").as_deref(), Some("5.0.1"));
    assert_eq!(best(&chalk, "4.0.0").as_deref(), Some("4.0.0"));
    assert_eq!(best(&chalk, "").as_deref(), Some("5.0.1"));
    assert_eq!(best(&chalk, "*").as_deref(), Some("5.0.1"));
    assert_eq!(best(&chalk, "<5").as_deref(), Some("4.1.2"));
    assert_eq!(best(&chalk, "=99.99.99"), None);
    assert_eq!(best(&chalk, "^6"), None);
}

#[test]
fn best_match_takes_the_first_entry_of_a_version_listed_twice() {
    let twice = info(
        "twice",
        vec![version("1.0.0", vec![], anywhere()), version("2.0.0", vec![], anywhere()), version("2.0.0", vec![], anywhere())],
        &[],
    );
    assert_eq!(twice.best_match(&VersionReq::parse("*").unwrap()), Some(1));
}

#[test]
fn tags_resolve_through_the_registry() {
    let chalk = chalk();
    assert_eq!(chalk.tagged("latest"), Some(v("5.0.1")));
    assert_eq!(chalk.tagged("legacy"), Some(v("4.1.2")));
    assert_eq!(chalk.tagged("next"), None);
    assert_eq!(best(&chalk, "latest").as_deref(), Some("5.0.1"));
    assert_eq!(best(&chalk, "legacy").as_deref(), Some("4.1.2"));
    assert_eq!(best(&chalk, "next"), None);
    assert_eq!(best(&chalk, "gone"), None);
    assert!(chalk.is_answer(&VersionReq::parse("latest").unwrap(), &v("5.0.1")));
    assert!(!chalk.is_answer(&VersionReq::parse("latest").unwrap(), &v("5.0.0")));
    assert!(chalk.is_answer(&VersionReq::parse("^5").unwrap(), &v("5.0.0")));
}

#[test]
fn registry_addresses() {
    assert_eq!(
        package_url("http://localhost:4545/npm/registry", "@denotest/esm-basic"),
        "http://localhost:4545/npm/registry/@denotest/esm-basic"
    );
    let id = PackageId::new("@denotest/esm-basic", v("1.0.0"));
    assert_eq!(
        tarball_url("http://localhost:4545/npm/registry", &id),
        "http://localhost:4545/npm/registry/@denotest/esm-basic/1.0.0.tgz"
    );
    assert!(chalk().id_at(1).unwrap().same(&PackageId::new("chalk", v("5.0.1"))));
    assert!(chalk().id_at(4).is_none());
}

#[test]
fn find_info_takes_the_first_of_a_name() {
    let infos = vec![chalk(), info("cowsay", vec![], &[]), chalk()];
    assert_eq!(find_info(&infos, &"chalk".to_string()), Some(0));
    assert_eq!(find_info(&infos, &"cowsay".to_string()), Some(1));
    assert_eq!(find_info(&infos, &"other".to_string()), None);
}

fn fresh(step: Step) -> String {
    match step {
        Step::NeedFresh(name) => name,
        _ => panic!("expected a question for fresh information"),
    }
}

fn need(step: Step) -> String {
    match step {
        Step::NeedInfo(name) => name,
        _ => panic!("expected a question for a package"),
    }
}

fn packages(snapshot: &Snapshot) -> Vec<String> {
    snapshot.packages.iter().map(|p| p.id.to_text()).collect()
}

#[test]
fn resolution_asks_for_what_it_does_not_know_and_enters_dependencies() {
    let mut r = Resolver::new(Snapshot::new(), linux());
    r.request(PackageReq::parse("chalk@^4").unwrap());
    assert_eq!(r.pending_len(), 1);
    assert_eq!(need(r.step()), "chalk");
    assert_eq!(need(r.step()), "chalk");
    r.provide(chalk(), true);
    assert_eq!(need(r.step()), "ansi-styles");
    assert!(r.snapshot().packages.is_empty());
    r.provide(info(
        "ansi-styles",
        vec![version("4.3.0", vec![dep("color-convert@^2.0.1")], anywhere()), version("5.0.0", vec![], anywhere())],
        &[],
    ), true);
    assert!(matches!(r.step(), Step::Advanced));
    assert_eq!(packages(r.snapshot()), ["chalk@4.1.2"]);
    assert_eq!(r.snapshot().packages[0].integrity, "sha512-4.1.2");
    assert_eq!(r.snapshot().packages[0].dependencies[0].0, "ansi-styles");
    assert_eq!(r.snapshot().packages[0].dependencies[0].1.to_text(), "ansi-styles@4.3.0");
    assert_eq!(r.snapshot().specifiers[0].0.to_text(), "chalk@^4");
    assert_eq!(r.snapshot().specifiers[0].1.to_text(), "chalk@4.1.2");
    assert!(r.snapshot().first_dangling().is_some());
    assert_eq!(need(r.step()), "color-convert");
    r.provide(info("color-convert", vec![version("2.0.1", vec![], anywhere())], &[]), true);
    assert!(matches!(r.step(), Step::Advanced));
    assert!(matches!(r.step(), Step::Advanced));
    assert!(matches!(r.step(), Step::Done));
    assert!(matches!(r.step(), Step::Done));
    let snapshot = r.into_snapshot();
    assert_eq!(packages(&snapshot), ["chalk@4.1.2", "ansi-styles@4.3.0", "color-convert@2.0.1"]);
    assert_eq!(snapshot.specifiers.len(), 1);
    assert!(snapshot.first_dangling().is_none());
    assert!(hydrate(&snapshot.to_lockfile()).is_ok());
}

#[test]
fn many_requests_for_one_package_enter_it_once() {
    let mut r = Resolver::new(Snapshot::new(), linux());
    r.provide(chalk(), true);
    r.request(PackageReq::parse("chalk@5").unwrap());
    r.request(PackageReq::parse("chalk@^5.0.0").unwrap());
    r.request(PackageReq::parse("chalk@latest").unwrap());
    for _ in 0..3 {
        assert!(matches!(r.step(), Step::Advanced));
    }
    assert!(matches!(r.step(), Step::Done));
    let snapshot = r.into_snapshot();
    assert_eq!(packages(&snapshot), ["chalk@5.0.1"]);
    assert_eq!(snapshot.specifiers.len(), 3);
}

#[test]
fn what_the_cache_holds_is_taken_only_where_nothing_is_known() {
    let mut r = Resolver::new(Snapshot::new(), linux());
    r.provide(chalk(), false);
    r.provide(info("chalk", vec![version("6.0.0", vec![], anywhere())], &[]), false);
    r.request(PackageReq::parse("chalk").unwrap());
    assert!(matches!(r.step(), Step::Advanced));
    assert_eq!(packages(r.snapshot()), ["chalk@5.0.1"]);
}

#[test]
fn what_the_registry_holds_takes_the_place_of_what_was_known() {
    let mut r = Resolver::new(Snapshot::new(), linux());
    r.provide(chalk(), false);
    r.request(PackageReq::parse("chalk@^6").unwrap());
    assert_eq!(fresh(r.step()), "chalk");
    assert_eq!(fresh(r.step()), "chalk");
    r.provide(info("chalk", vec![version("6.0.0", vec![], anywhere())], &[]), true);
    assert!(matches!(r.step(), Step::Advanced));
    assert_eq!(packages(r.snapshot()), ["chalk@6.0.0"]);
}

#[test]
fn fresh_information_that_does_not_answer_fails() {
    let mut r = Resolver::new(Snapshot::new(), linux());
    r.provide(chalk(), false);
    r.request(PackageReq::parse("chalk@^6").unwrap());
    assert_eq!(fresh(r.step()), "chalk");
    r.provide(chalk(), true);
    assert!(matches!(
        r.step(),
        Step::Failed(ResolveError::VersionNotFound { name, req }) if name == "chalk" && req == "^6"
    ));
}

#[test]
fn without_the_network_a_stale_cache_fails_and_names_the_request() {
    let mut r = Resolver::new(Snapshot::new(), linux());
    r.provide(info("a", vec![version("1.0.0", vec![dep("b@^1.0.0")], anywhere())], &[]), false);
    r.provide(info("b", vec![], &[]), false);
    r.request(PackageReq::parse("a@1.0.0").unwrap());
    assert_eq!(fresh(r.step()), "b");
    r.mark_offline("b".to_string());
    assert!(matches!(
        r.step(),
        Step::Failed(ResolveError::VersionNotFound { name, req }) if name == "b" && req == "^1.0.0"
    ));
    let mut r = Resolver::new(Snapshot::new(), linux());
    r.request(PackageReq::parse("ansi-styles").unwrap());
    assert_eq!(need(r.step()), "ansi-styles");
    r.mark_offline("ansi-styles".to_string());
    assert!(matches!(
        r.step(),
        Step::Failed(ResolveError::VersionNotFound { name, req }) if name == "ansi-styles" && req.is_empty()
    ));
}

#[test]
fn a_resolution_that_starts_over_asks_the_registry_for_everything() {
    let mut r = Resolver::new(Snapshot::new(), linux());
    r.provide(info("a", vec![version("1.0.0", vec![], anywhere())], &[]), false);
    r.provide(info("b", vec![], &[]), false);
    r.request(PackageReq::parse("b@1.0.0").unwrap());
    r.request(PackageReq::parse("a@1.0.0").unwrap());
    assert!(matches!(r.step(), Step::Advanced));
    assert_eq!(packages(r.snapshot()), ["a@1.0.0"]);
    assert_eq!(fresh(r.step()), "b");
    r.start_over();
    assert!(r.snapshot().packages.is_empty());
    assert_eq!(r.pending_len(), 2);
    assert_eq!(fresh(r.step()), "a");
    r.provide(info("a", vec![version("1.0.0", vec![], anywhere())], &[]), false);
    assert_eq!(fresh(r.step()), "a");
    r.provide(info("a", vec![version("1.0.0", vec![], anywhere())], &[]), true);
    assert!(matches!(r.step(), Step::Advanced));
    assert_eq!(fresh(r.step()), "b");
    r.provide(info("b", vec![version("1.0.0", vec![], anywhere())], &[]), true);
    assert!(matches!(r.step(), Step::Advanced));
    assert!(matches!(r.step(), Step::Done));
    assert_eq!(packages(r.snapshot()), ["a@1.0.0", "b@1.0.0"]);
}

#[test]
fn a_package_is_entered_at_the_version_its_dependent_resolved_it_to() {
    let mut r = Resolver::new(Snapshot::new(), linux());
    r.provide(info("a", vec![version("1.0.0", vec![dep("b@^1")], anywhere())], &[]), true);
    r.provide(info("b", vec![version("1.0.0", vec![], anywhere())], &[]), false);
    r.request(PackageReq::parse("a").unwrap());
    assert!(matches!(r.step(), Step::Advanced));
    r.provide(
        info("b", vec![version("1.5.0", vec![], anywhere()), version("1.0.0", vec![dep("c")], anywhere())], &[]),
        true,
    );
    assert_eq!(need(r.step()), "c");
    r.provide(info("c", vec![version("3.0.0", vec![], anywhere())], &[]), true);
    assert!(matches!(r.step(), Step::Advanced));
    assert!(matches!(r.step(), Step::Advanced));
    assert!(matches!(r.step(), Step::Done));
    let snapshot = r.into_snapshot();
    assert_eq!(packages(&snapshot), ["a@1.0.0", "b@1.0.0", "c@3.0.0"]);
    assert!(snapshot.first_dangling().is_none());
}

#[test]
fn a_version_that_the_registry_removed_fails_by_name_and_version() {
    let mut r = Resolver::new(Snapshot::new(), linux());
    r.provide(info("a", vec![version("1.0.0", vec![dep("b@^1")], anywhere())], &[]), true);
    r.provide(info("b", vec![version("1.0.0", vec![], anywhere())], &[]), false);
    r.request(PackageReq::parse("a").unwrap());
    assert!(matches!(r.step(), Step::Advanced));
    r.provide(info("b", vec![version("2.0.0", vec![], anywhere())], &[]), true);
    assert!(matches!(
        r.step(),
        Step::Failed(ResolveError::VersionNotFound { name, req }) if name == "b" && req == "1.0.0"
    ));
}

#[test]
fn no_version_that_answers_fails_and_names_the_request() {
    let mut r = Resolver::new(Snapshot::new(), linux());
    r.provide(info("@denotest/esm-basic", vec![version("1.0.0", vec![], anywhere())], &[]), true);
    r.request(PackageReq::parse("@denotest/esm-basic@=99.99.99").unwrap());
    match r.step() {
        Step::Failed(ResolveError::VersionNotFound { name, req }) => {
            assert_eq!(name, "@denotest/esm-basic");
            assert_eq!(req, "=99.99.99");
        }
        _ => panic!("expected a failure"),
    }
    assert_eq!(r.pending_len(), 1);
    assert!(r.snapshot().packages.is_empty());
}

#[test]
fn a_package_that_cannot_be_had_fails_by_name() {
    let mut r = Resolver::new(Snapshot::new(), linux());
    r.request(PackageReq::parse("@denotest/non-existent").unwrap());
    assert_eq!(need(r.step()), "@denotest/non-existent");
    r.mark_missing("@denotest/non-existent".to_string());
    match r.step() {
        Step::Failed(ResolveError::PackageNotFound { name }) => assert_eq!(name, "@denotest/non-existent"),
        _ => panic!("expected a failure"),
    }
}

#[test]
fn a_dependency_that_cannot_be_resolved_fails_the_request() {
    let mut r = Resolver::new(Snapshot::new(), linux());
    r.provide(info("a", vec![version("1.0.0", vec![dep("b@^2"), dep("c")], anywhere())], &[]), true);
    r.provide(info("b", vec![version("1.0.0", vec![], anywhere())], &[]), true);
    r.request(PackageReq::parse("a").unwrap());
    match r.step() {
        Step::Failed(ResolveError::VersionNotFound { name, req }) => {
            assert_eq!(name, "b");
            assert_eq!(req, "^2");
        }
        _ => panic!("expected a failure"),
    }
    assert!(r.snapshot().packages.is_empty());
}

#[test]
fn a_request_with_an_improper_name_fails() {
    let mut r = Resolver::new(Snapshot::new(), linux());
    let mut req = PackageReq::parse("chalk").unwrap();
    req.name = "not/a/name".to_string();
    r.request(req);
    assert!(matches!(r.step(), Step::Failed(ResolveError::PackageNotFound { name }) if name == "not/a/name"));
}

fn binary_package() -> Vec<PackageInfo> {
    vec![
        info(
            "@denotest/binary-package",
            vec![version(
                "1.0.0",
                vec![
                    optional("@denotest/binary-package-linux@1.0.0"),
                    optional("@denotest/binary-package-mac@1.0.0"),
                    optional("@denotest/binary-package-windows@1.0.0"),
                ],
                anywhere(),
            )],
            &[],
        ),
        info("@denotest/binary-package-linux", vec![version("1.0.0", vec![], only_os("linux"))], &[]),
        info("@denotest/binary-package-mac", vec![version("1.0.0", vec![], only_os("darwin"))], &[]),
        info("@denotest/binary-package-windows", vec![version("1.0.0", vec![], only_os("win32"))], &[]),
    ]
}

fn resolve_binary_package(os: &str) -> Snapshot {
    let mut r = Resolver::new(Snapshot::new(), Platform { os: os.to_string(), cpu: "x64".to_string() });
    for i in binary_package() {
        r.provide(i, true);
    }
    r.request(PackageReq::parse("@denotest/binary-package").unwrap());
    loop {
        match r.step() {
            Step::Advanced => {}
            Step::Done => break,
            _ => panic!("resolution is blocked"),
        }
    }
    r.into_snapshot()
}

#[test]
fn only_the_variant_for_the_machine_is_entered() {
    for (os, variant) in [("linux", "linux"), ("darwin", "mac"), ("win32", "windows")] {
        let snapshot = resolve_binary_package(os);
        let wanted = format!("@denotest/binary-package-{variant}@1.0.0");
        assert_eq!(packages(&snapshot), ["@denotest/binary-package@1.0.0".to_string(), wanted.clone()]);
        let links: Vec<String> = snapshot.packages[0].dependencies.iter().map(|d| d.1.to_text()).collect();
        assert_eq!(links, [wanted]);
        assert!(snapshot.first_dangling().is_none());
    }
}

#[test]
fn on_a_machine_that_no_variant_is_for_none_is_entered() {
    let snapshot = resolve_binary_package("freebsd");
    assert_eq!(packages(&snapshot), ["@denotest/binary-package@1.0.0"]);
    assert!(snapshot.packages[0].dependencies.is_empty());
}

#[test]
fn optional_dependencies_that_cannot_be_had_are_left_out() {
    let mut r = Resolver::new(Snapshot::new(), linux());
    r.provide(info("a", vec![version("1.0.0", vec![optional("gone"), optional("b@^2"), dep("b@^1")], anywhere())], &[]), true);
    r.provide(info("b", vec![version("1.0.0", vec![], anywhere())], &[]), true);
    r.request(PackageReq::parse("a").unwrap());
    assert_eq!(need(r.step()), "gone");
    r.mark_missing("gone".to_string());
    assert!(matches!(r.step(), Step::Advanced));
    assert_eq!(packages(r.snapshot()), ["a@1.0.0"]);
    let links: Vec<String> = r.snapshot().packages[0].dependencies.iter().map(|d| d.1.to_text()).collect();
    assert_eq!(links, ["b@1.0.0"]);
}

fn locked() -> Snapshot {
    hydrate(&Lockfile {
        specifiers: vec![("chalk@^4".to_string(), "chalk@4.0.0".to_string())],
        packages: vec![LockfilePackage {
            id: "chalk@4.0.0".to_string(),
            integrity: "sha512-locked".to_string(),
            dependencies: vec![],
        }],
    })
    .ok()
    .unwrap()
}

#[test]
fn a_request_that_the_lockfile_records_resolves_without_the_registry() {
    let mut r = Resolver::new(locked(), linux());
    r.request(PackageReq::parse("chalk@^4").unwrap());
    assert!(matches!(r.step(), Step::Advanced));
    assert!(matches!(r.step(), Step::Done));
    let snapshot = r.into_snapshot();
    assert_eq!(packages(&snapshot), ["chalk@4.0.0"]);
    assert_eq!(snapshot.specifiers.len(), 1);
    assert_eq!(snapshot.to_lockfile().specifiers, locked().to_lockfile().specifiers);
}

#[test]
fn a_request_that_the_lockfile_does_not_record_goes_to_the_registry() {
    let mut r = Resolver::new(locked(), linux());
    r.request(PackageReq::parse("chalk@^4.0.0").unwrap());
    assert_eq!(need(r.step()), "chalk");
    r.provide(chalk(), true);
    assert_eq!(need(r.step()), "ansi-styles");
}
