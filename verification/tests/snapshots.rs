use npm_resolver::package::{PackageId, PackageReq};
use npm_resolver::snapshot::{hydrate, HydrateError, Lockfile, LockfilePackage, Snapshot, SnapshotPackage};
use npm_resolver::version::Version;

fn pair(a: &str, b: &str) -> (String, String) {
    (a.to_string(), b.to_string())
}

fn package(id: &str, integrity: &str, dependencies: &[(&str, &str)]) -> LockfilePackage {
    LockfilePackage {
        id: id.to_string(),
        integrity: integrity.to_string(),
        dependencies: dependencies.iter().map(|(a, b)| pair(a, b)).collect(),
    }
}

fn sample() -> Lockfile {
    Lockfile {
        specifiers: vec![pair("cowsay@1.5.0", "cowsay@1.5.0"), pair("chalk", "chalk@5.0.1")],
        packages: vec![
            package("ansi-regex@3.0.1", "sha512-a", &[]),
            package("chalk@5.0.1", "sha512-b", &[]),
            package("cowsay@1.5.0", "sha512-c", &[("strip-ansi", "strip-ansi@4.0.0")]),
            package("strip-ansi@4.0.0", "sha512-d", &[("ansi-regex", "ansi-regex@3.0.1")]),
        ],
    }
}

fn same_lockfile(a: &Lockfile, b: &Lockfile) -> bool {
    a.specifiers == b.specifiers
        && a.packages.len() == b.packages.len()
        && a.packages.iter().zip(b.packages.iter()).all(|(x, y)| {
            x.id == y.id && x.integrity == y.integrity && x.dependencies == y.dependencies
        })
}

#[test]
fn hydrate_reads_entries_in_order() {
    let snapshot = hydrate(&sample()).ok().unwrap();
    assert_eq!(snapshot.specifiers.len(), 2);
    assert_eq!(snapshot.specifiers[0].0.to_text(), "cowsay@1.5.0");
    assert_eq!(snapshot.specifiers[0].1.to_text(), "cowsay@1.5.0");
    assert_eq!(snapshot.specifiers[1].0.to_text(), "chalk");
    assert_eq!(snapshot.packages.len(), 4);
    assert_eq!(snapshot.packages[2].id.to_text(), "cowsay@1.5.0");
    assert_eq!(snapshot.packages[2].integrity, "sha512-c");
    assert_eq!(snapshot.packages[2].dependencies[0].0, "strip-ansi");
    assert_eq!(snapshot.packages[2].dependencies[0].1.to_text(), "strip-ansi@4.0.0");
}

#[test]
fn written_lockfile_hydrates_to_the_same_snapshot() {
    let snapshot = hydrate(&sample()).ok().unwrap();
    let written = snapshot.to_lockfile();
    assert!(same_lockfile(&written, &sample()));
    let again = hydrate(&written).ok().unwrap();
    assert!(same_lockfile(&again.to_lockfile(), &written));
    let req = PackageReq::parse("cowsay@1.5.0").unwrap();
    assert!(again.resolution(&req).unwrap().same(snapshot.resolution(&req).unwrap()));
}

#[test]
fn snapshot_built_by_hand_round_trips() {
    let id = PackageId::new("@denotest/esm-basic", Version::new(1, 0, 0));
    let snapshot = Snapshot {
        specifiers: vec![(PackageReq::parse("@denotest/esm-basic@^1.0").unwrap(), id.clone())],
        packages: vec![SnapshotPackage {
            id: id.clone(),
            integrity: "sha512-x".to_string(),
            dependencies: vec![],
        }],
    };
    assert!(snapshot.first_dangling().is_none());
    let written = snapshot.to_lockfile();
    assert_eq!(written.specifiers, vec![pair("@denotest/esm-basic@^1.0", "@denotest/esm-basic@1.0.0")]);
    assert_eq!(written.packages[0].id, "@denotest/esm-basic@1.0.0");
    let back = hydrate(&written).ok().unwrap();
    assert!(back.packages[0].id.same(&id));
    assert!(back.specifiers[0].0.same(&snapshot.specifiers[0].0));
    assert_eq!(back.packages[0].integrity, "sha512-x");
}

#[test]
fn lockfile_without_the_package_of_a_specifier_is_corrupt() {
    let mut lockfile = sample();
    lockfile.specifiers = vec![pair("cowsay", "cowsay@1.5.0")];
    lockfile.packages.remove(2);
    match hydrate(&lockfile) {
        Err(HydrateError::MissingPackage(id)) => assert_eq!(id.to_text(), "cowsay@1.5.0"),
        _ => panic!("expected a corrupt lockfile"),
    }
}

#[test]
fn lockfile_without_the_package_of_a_dependency_is_corrupt() {
    let mut lockfile = sample();
    lockfile.packages.remove(0);
    match hydrate(&lockfile) {
        Err(HydrateError::MissingPackage(id)) => assert_eq!(id.to_text(), "ansi-regex@3.0.1"),
        _ => panic!("expected a corrupt lockfile"),
    }
}

#[test]
fn the_first_missing_package_is_named() {
    let lockfile = Lockfile {
        specifiers: vec![pair("a", "a@1.0.0"), pair("b", "b@1.0.0")],
        packages: vec![package("a@1.0.0", "", &[("c", "c@1.0.0"), ("d", "d@1.0.0")])],
    };
    match hydrate(&lockfile) {
        Err(HydrateError::MissingPackage(id)) => assert_eq!(id.to_text(), "b@1.0.0"),
        _ => panic!("expected a corrupt lockfile"),
    }
    let lockfile = Lockfile {
        specifiers: vec![pair("a", "a@1.0.0")],
        packages: vec![package("a@1.0.0", "", &[("c", "c@1.0.0"), ("d", "d@1.0.0")])],
    };
    match hydrate(&lockfile) {
        Err(HydrateError::MissingPackage(id)) => assert_eq!(id.to_text(), "c@1.0.0"),
        _ => panic!("expected a corrupt lockfile"),
    }
}

#[test]
fn unreadable_text_is_named() {
    let mut lockfile = sample();
    lockfile.specifiers.push(pair("cowsay@", "cowsay@1.5.0"));
    assert!(matches!(hydrate(&lockfile), Err(HydrateError::InvalidEntry(t)) if t == "cowsay@"));
    let mut lockfile = sample();
    lockfile.specifiers.push(pair("cowsay", "cowsay"));
    assert!(matches!(hydrate(&lockfile), Err(HydrateError::InvalidEntry(t)) if t == "cowsay"));
    let mut lockfile = sample();
    lockfile.packages[1].id = "chalk@5".to_string();
    assert!(matches!(hydrate(&lockfile), Err(HydrateError::InvalidEntry(t)) if t == "chalk@5"));
    let mut lockfile = sample();
    lockfile.packages[3].dependencies[0].1 = "ansi-regex@x".to_string();
    assert!(matches!(hydrate(&lockfile), Err(HydrateError::InvalidEntry(t)) if t == "ansi-regex@x"));
}

#[test]
fn unreadable_text_comes_before_missing_package() {
    let lockfile = Lockfile {
        specifiers: vec![pair("a", "a@1.0.0")],
        packages: vec![package("b@1", "", &[])],
    };
    assert!(matches!(hydrate(&lockfile), Err(HydrateError::InvalidEntry(t)) if t == "b@1"));
}

#[test]
fn empty_lockfile_is_the_empty_snapshot() {
    let snapshot = hydrate(&Lockfile { specifiers: vec![], packages: vec![] }).ok().unwrap();
    assert!(snapshot.specifiers.is_empty() && snapshot.packages.is_empty());
    let fresh = Snapshot::new();
    assert!(fresh.to_lockfile().specifiers.is_empty());
    assert!(fresh.first_dangling().is_none());
}

#[test]
fn snapshot_lookups() {
    let snapshot = hydrate(&sample()).ok().unwrap();
    let chalk = PackageId::new("chalk", Version::new(5, 0, 1));
    assert_eq!(snapshot.position(&chalk), Some(1));
    assert!(snapshot.contains(&chalk));
    assert!(!snapshot.contains(&PackageId::new("chalk", Version::new(4, 0, 0))));
    assert!(snapshot.resolution(&PackageReq::parse("chalk").unwrap()).unwrap().same(&chalk));
    assert!(snapshot.resolution(&PackageReq::parse("chalk@5").unwrap()).is_none());
}

#[test]
fn a_request_that_its_package_does_not_answer_is_named() {
    let lockfile = Lockfile {
        specifiers: vec![pair("a@^1", "a@1.2.0"), pair("a@^2", "a@1.2.0"), pair("b", "a@1.2.0")],
        packages: vec![package("a@1.2.0", "", &[])],
    };
    match hydrate(&lockfile) {
        Err(HydrateError::Inconsistent(q)) => assert_eq!(q.to_text(), "a@^2"),
        _ => panic!("expected an inconsistent lockfile"),
    }
    let lockfile = Lockfile {
        specifiers: vec![pair("a@latest", "a@1.2.0"), pair("b", "a@1.2.0")],
        packages: vec![],
    };
    match hydrate(&lockfile) {
        Err(e @ HydrateError::Inconsistent(_)) => assert_eq!(
            e.into_resolve_error().message(),
            "The lockfile resolves 'b' to a package that does not answer it."
        ),
        _ => panic!("expected an inconsistent lockfile"),
    }
    let answered = Lockfile {
        specifiers: vec![pair("a@1 || 2", "a@2.0.0"), pair("a@latest", "a@2.0.0"), pair("a", "a@2.0.0")],
        packages: vec![package("a@2.0.0", "", &[])],
    };
    let snapshot = hydrate(&answered).ok().unwrap();
    assert!(snapshot.first_unanswered().is_none());
}

#[test]
fn errors_of_a_lockfile_as_errors_of_resolution() {
    let unreadable = Lockfile { specifiers: vec![pair("a@", "a@1.0.0")], packages: vec![] };
    let error = hydrate(&unreadable).err().unwrap().into_resolve_error();
    assert_eq!(error.message(), "Could not read 'a@' in the lockfile.");
    let corrupt = Lockfile { specifiers: vec![pair("a", "a@1.0.0")], packages: vec![] };
    let error = hydrate(&corrupt).err().unwrap().into_resolve_error();
    assert_eq!(
        error.causes(),
        [
            "The lockfile is corrupt. You can recreate it with --lock-write",
            "Could not find 'a@1.0.0' in the list of packages."
        ]
    );
}
