use npm_resolver::copies::{assign_copies, Use};
use npm_resolver::error::ResolveError;
use npm_resolver::exports::{conditions_for, resolve_exports, Branch, Exports, ResolutionMode};
use npm_resolver::flight::{Circumstances, Claim, Flights};
use npm_resolver::layout::{
    cache_folder, folder_name, local_folder, local_setup, place_all, registry_folder, setup_lines, LocalSetup,
};
use npm_resolver::lookup::{lookup_dirs, resolve_external_package, Declared};
use npm_resolver::module::{module_kind, ModuleKind};
use npm_resolver::package::{PackageId, PackageReq};
use npm_resolver::platform::{Constraints, Platform};
use npm_resolver::policy::{
    answer, check_allowed, check_integrity, check_locked, fresh_answer, node_modules_dir, reload_setting,
    Answer,
};
use npm_resolver::registry::{package_url, tarball_url, Dependency, PackageInfo, VersionInfo};
use npm_resolver::resolver::{Resolver, Step};
use npm_resolver::run::{asks_for_node_modules, eval_source, should_npm_install};
use npm_resolver::snapshot::{hydrate, HydrateError, Lockfile, LockfilePackage, Snapshot};
use npm_resolver::specifier::{classify, parse_bare, parse_npm};
use npm_resolver::version::Version;
use npm_resolver::cjs::{analyze_cjs, Item};
use npm_resolver::proxy::{is_connect, proxy_url, server_setup, server_url, serves_http2, tunnel_granted};

const REGISTRY: &str = "http://localhost:4545/npm/registry";

fn v(text: &str) -> Version {
    Version::parse(text).unwrap()
}

fn id(text: &str) -> PackageId {
    PackageId::parse(text).unwrap()
}

fn simple(name: &str, version: &str, dependencies: &[&str]) -> PackageInfo {
    PackageInfo {
        name: name.to_string(),
        versions: vec![VersionInfo {
            version: v(version),
            integrity: String::new(),
            dependencies: dependencies
                .iter()
                .map(|d| Dependency { req: PackageReq::parse(d).unwrap(), optional: false })
                .collect(),
            constraints: Constraints { os: vec![], cpu: vec![] },
        }],
        dist_tags: vec![("latest".to_string(), v(version))],
    }
}

/// Drives a resolution as a program would. What the resolver asks for is
/// taken from the cache, else from the registry where the network may be
/// used. Where the cache turns out stale and the network may be used, the
/// resolution starts over with what the registry holds. Hands back the
/// snapshot and what was downloaded.
fn drive_from(
    locked: Snapshot,
    requests: &[&str],
    cache: &mut Vec<PackageInfo>,
    registry: &[PackageInfo],
    reload: Option<Vec<String>>,
    cached_only: bool,
) -> Result<(Snapshot, Vec<String>), ResolveError> {
    let reload = reload_setting(reload.as_ref());
    let mut downloads = Vec::new();
    let mut fetch = |name: &str, cache: &mut Vec<PackageInfo>, r: &mut Resolver| {
        match registry.iter().find(|i| i.name == name) {
            Some(info) => {
                downloads.push(package_url(REGISTRY, name));
                cache.retain(|i| i.name != name);
                cache.push(copy(info));
                r.provide(copy(info), true);
            }
            None => r.mark_missing(name.to_string()),
        }
    };
    let mut r = Resolver::new(locked, Platform { os: "linux".into(), cpu: "x64".into() });
    for q in requests.iter().rev() {
        r.request(PackageReq::parse(q).unwrap());
    }
    for name in check_locked(r.snapshot(), cache, cached_only)? {
        fetch(&name, cache, &mut r);
    }
    loop {
        match r.step() {
            Step::Advanced => {}
            Step::Done => break,
            Step::Failed(e) => return Err(e),
            Step::NeedInfo(name) => {
                let cached = cache.iter().position(|i| i.name == name);
                match answer(cached.is_some(), reload.applies_to(&name), cached_only) {
                    Answer::FromCache => r.provide(copy(&cache[cached.unwrap()]), false),
                    Answer::FromRegistry => fetch(&name, cache, &mut r),
                    Answer::Offline => r.mark_offline(name),
                    Answer::StartOver => unreachable!(),
                }
            }
            Step::NeedFresh(name) => match fresh_answer(r.started_over(), cached_only) {
                Answer::FromRegistry => fetch(&name, cache, &mut r),
                Answer::StartOver => r.start_over(),
                Answer::Offline => r.mark_offline(name),
                Answer::FromCache => unreachable!(),
            },
        }
    }
    drop(fetch);
    Ok((r.into_snapshot(), downloads))
}

fn drive(
    requests: &[&str],
    cache: &mut Vec<PackageInfo>,
    registry: &[PackageInfo],
    reload: Option<Vec<String>>,
    cached_only: bool,
) -> Result<(Snapshot, Vec<String>), ResolveError> {
    drive_from(Snapshot::new(), requests, cache, registry, reload, cached_only)
}

fn copy(info: &PackageInfo) -> PackageInfo {
    PackageInfo {
        name: info.name.clone(),
        versions: info
            .versions
            .iter()
            .map(|ver| VersionInfo {
                version: ver.version,
                integrity: ver.integrity.clone(),
                dependencies: ver
                    .dependencies
                    .iter()
                    .map(|d| Dependency { req: d.req.clone(), optional: d.optional })
                    .collect(),
                constraints: Constraints { os: ver.constraints.os.clone(), cpu: ver.constraints.cpu.clone() },
            })
            .collect(),
        dist_tags: info.dist_tags.clone(),
    }
}

fn chalk_registry() -> Vec<PackageInfo> {
    vec![simple("chalk", "5.0.1", &[])]
}

#[test]
fn parallel_downloading() {
    let registry = vec![
        simple("@denotest/cjs-with-deps", "1.0.0", &["chalk@^4.1.2", "chai@^4.3.6", "shared@1"]),
        simple("chalk", "4.1.2", &["shared@1"]),
        simple("chai", "4.3.6", &["shared@1"]),
        simple("shared", "1.0.0", &[]),
    ];
    let (snapshot, downloads) = drive(&["@denotest/cjs-with-deps"], &mut vec![], &registry, None, false).ok().unwrap();
    assert_eq!(snapshot.packages.len(), 4);
    assert_eq!(downloads.iter().filter(|d| d.ends_with("/shared")).count(), 1);
    let mut flights = Flights::new();
    let absent = Circumstances { on_disk: false, reload: false, cached_only: false };
    let mut fetched = Vec::new();
    for p in snapshot.packages.iter().chain(snapshot.packages.iter()) {
        if flights.claim(&p.id, absent) == Claim::Fetch {
            fetched.push(tarball_url(REGISTRY, &p.id));
        }
    }
    fetched.sort();
    assert_eq!(
        fetched,
        [
            "http://localhost:4545/npm/registry/@denotest/cjs-with-deps/1.0.0.tgz",
            "http://localhost:4545/npm/registry/chai/4.3.6.tgz",
            "http://localhost:4545/npm/registry/chalk/4.1.2.tgz",
            "http://localhost:4545/npm/registry/shared/1.0.0.tgz",
        ]
    );
}

#[test]
fn cached_only_after_first_run() {
    let registry = vec![simple("chalk", "5.0.1", &[]), simple("ansi-styles", "6.1.0", &[])];
    let mut cache = vec![];
    let (first, downloads) = drive(&["chalk@5"], &mut cache, &registry, None, false).ok().unwrap();
    assert!(!downloads.is_empty());
    assert_eq!(first.packages[0].id.to_text(), "chalk@5.0.1");

    let known_before = cache.len();
    let error = drive(&["ansi-styles"], &mut cache, &registry, None, true).err().unwrap();
    assert!(matches!(&error, ResolveError::VersionNotFound { name, .. } if name == "ansi-styles"));
    assert_eq!(error.exit_code(), 1);
    assert_eq!(cache.len(), known_before);

    let (second, downloads) = drive(&["chalk@5"], &mut cache, &registry, None, true).ok().unwrap();
    assert!(downloads.is_empty());
    assert_eq!(second.packages[0].id.to_text(), "chalk@5.0.1");
    let mut flights = Flights::new();
    let chalk = id("chalk@5.0.1");
    assert_eq!(flights.claim(&chalk, Circumstances { on_disk: true, reload: false, cached_only: true }), Claim::Ready);
}

#[test]
fn reload_flag() {
    let mut cache = vec![];
    let run = |cache: &mut Vec<PackageInfo>, reload: Option<Vec<&str>>| {
        let reload = reload.map(|v| v.into_iter().map(String::from).collect());
        drive(&["chalk@5"], cache, &chalk_registry(), reload, false).ok().unwrap().1
    };
    assert!(!run(&mut cache, None).is_empty());
    assert!(run(&mut cache, None).is_empty());
    assert!(!run(&mut cache, Some(vec![])).is_empty());
    assert!(!run(&mut cache, Some(vec!["npm:"])).is_empty());
    assert!(!run(&mut cache, Some(vec!["npm:chalk"])).is_empty());
    assert!(run(&mut cache, Some(vec!["npm:foobar"])).is_empty());
    assert!(run(&mut cache, Some(vec!["https://deno.land/", "npm:foobar@1"])).is_empty());
    assert!(!run(&mut cache, Some(vec!["npm:foobar", "npm:chalk@5"])).is_empty());
}

#[test]
fn no_npm_after_first_run() {
    let kind = classify("npm:chalk@5");
    let refused = check_allowed(kind, true).err().unwrap();
    assert!(refused
        .report(None, Some("file:///project/main.ts:1:19"))
        .starts_with("error: npm specifiers were requested; but --no-npm is specified\n    at file:///"));
    assert_eq!(refused.exit_code(), 1);
    assert!(check_allowed(kind, false).is_ok());
    assert!(check_allowed(classify("./local.ts"), true).is_ok());
    assert!(check_allowed(classify("chalk"), true).is_ok());
}

#[test]
fn deno_run_cjs_module() {
    let reference = parse_npm("npm:mkdirp@1.0.4").unwrap();
    assert_eq!(reference.req.name, "mkdirp");
    assert_eq!(reference.subpath, ".");
    let registry = vec![simple("mkdirp", "1.0.4", &[])];
    let (snapshot, _) = drive(&["mkdirp@1.0.4"], &mut vec![], &registry, None, false).ok().unwrap();
    assert_eq!(snapshot.packages[0].id.to_text(), "mkdirp@1.0.4");
}

#[test]
fn deno_run_bin_lockfile() {
    let reference = parse_npm("npm:@denotest/bin/cli-esm").unwrap();
    assert_eq!(reference.req.to_text(), "@denotest/bin");
    assert_eq!(reference.subpath, "./cli-esm");
    let registry = vec![simple("@denotest/bin", "1.0.0", &[])];
    let (snapshot, _) = drive(&["@denotest/bin"], &mut vec![], &registry, None, false).ok().unwrap();
    let lockfile = snapshot.to_lockfile();
    assert_eq!(lockfile.specifiers, [("@denotest/bin".to_string(), "@denotest/bin@1.0.0".to_string())]);
    assert!(hydrate(&lockfile).is_ok());
}

#[test]
fn node_modules_dir_cache() {
    let package = id("@denotest/dual-cjs-esm@1.0.0");
    assert_eq!(
        local_folder(&package, 0),
        "node_modules/.deno/@denotest+dual-cjs-esm@1.0.0/node_modules/@denotest/dual-cjs-esm"
    );
    assert_eq!(
        format!("npm/{}/{}", registry_folder(REGISTRY), cache_folder(&package, 0)),
        "npm/localhost_4545/npm/registry/@denotest/dual-cjs-esm/1.0.0"
    );
    let mut flights = Flights::new();
    let settled = Circumstances { on_disk: true, reload: false, cached_only: false };
    assert_eq!(flights.claim(&package, settled), Claim::Ready);
    // with the package gone from the cache, what the project holds stands
    let gone = Circumstances { on_disk: false, reload: false, cached_only: false };
    assert_eq!(local_setup(true, gone), LocalSetup::Nothing);
    assert_eq!(local_setup(false, gone), LocalSetup::FetchThenInitialize);
}

fn lock_package(id: &str, integrity: &str, dependencies: &[(&str, &str)]) -> LockfilePackage {
    LockfilePackage {
        id: id.to_string(),
        integrity: integrity.to_string(),
        dependencies: dependencies.iter().map(|(a, b)| (a.to_string(), b.to_string())).collect(),
    }
}

#[test]
fn lock_file_missing_top_level_package() {
    let lockfile = Lockfile {
        specifiers: vec![("cowsay".to_string(), "cowsay@1.5.0".to_string())],
        packages: vec![
            lock_package("ansi-regex@3.0.1", "sha512-+O9Jct8wf++lXxxFc4hc8LsjaSq0HFzzL7cVsw8pRDIPdjKD2mT4ytDZlLuSBZ4cLKZFXIrMGO7DbQCtMJJMKw==", &[]),
            lock_package("ansi-regex@5.0.1", "sha512-quJQXlTSUGL2LH9SUXo8VwsY4soanhgo6LNSm84E1LBcE8s3O0wpdiRzyR9z/ZZJMlMWv37qOOb9pdJlMUEKFQ==", &[]),
            lock_package("ansi-styles@4.3.0", "sha512-zbB9rCJAT1rbjiVDb2hqKFHNYLxgtk8NURxZ3IZwD3F6NtxbXZQCnnSi1Lkx+IDohdPlFp222wVALIheZJQSEg==", &[("color-convert", "color-convert@2.0.1")]),
            lock_package("camelcase@5.3.1", "sha512-L28STB170nwWS63UjtlEOE3dldQApaJXZkOI1uMFfzf3rRuPegHaHesyee+YxQ+W6SvRDQV6UrdOdRiR153wJg==", &[]),
            lock_package("cliui@6.0.0", "sha512-t6wbgtoCXvAzst7QgXxJYqPt0usEfbgQdftEPbLL/cvv6HPE5VgvqCuAIDR0NgU52ds6rFwqrgakNLrHEjCbrQ==", &[("string-width", "string-width@4.2.3"), ("strip-ansi", "strip-ansi@6.0.1"), ("wrap-ansi", "wrap-ansi@6.2.0")]),
            lock_package("color-convert@2.0.1", "sha512-RRECPsj7iu/xb5oKYcsFHSppFNnsj/52OVTRKb4zP5onXwVF3zVmmToNcOfGC+CRDpfK/U584fMg38ZHCaElKQ==", &[("color-name", "color-name@1.1.4")]),
            lock_package("color-name@1.1.4", "sha512-dOy+3AuW3a2wNbZHIuMZpTcgjGuLU/uBL/ubcZF9OXbDo8ff4O8yVp5Bf0efS8uEoYo5q4Fx7dY9OgQGXgAsQA==", &[]),
            lock_package("decamelize@1.2.0", "sha512-z2S+W9X73hAUUki+N+9Za2lBlun89zigOyGrsax+KUQ6wKW4ZoWpEYBkGhQjwAjjDCkWxhY0VKEhk8wzY7F5cA==", &[]),
            lock_package("emoji-regex@8.0.0", "sha512-MSjYzcWNOA0ewAHpz0MxpYFvwg6yjy1NG3xteoqz644VCo/RPgnr1/GGt+ic3iJTzQ8Eu3TdM14SawnVUmGE6A==", &[]),
            lock_package("find-up@4.1.0", "sha512-PpOwAdQ/YlXQ2vj8a3h8IipDuYRi3wceVQQGYWxNINccq40Anw7BlsEXCMbt1Zt+OLA6Fq9suIpIWD0OsnISlw==", &[("locate-path", "locate-path@5.0.0"), ("path-exists", "path-exists@4.0.0")]),
            lock_package("get-caller-file@2.0.5", "sha512-DyFP3BM/3YHTQOCUL/w0OZHR0lpKeGrxotcHWcqNEdnltqFwXVfhEBQ94eIo34AfQpo0rGki4cyIiftY06h2Fg==", &[]),
            lock_package("get-stdin@8.0.0", "sha512-sY22aA6xchAzprjyqmSEQv4UbAAzRN0L2dQB0NlN5acTTK9Don6nhoc3eAbUnpZiCANAMfd/+40kVdKfFygohg==", &[]),
            lock_package("is-fullwidth-code-point@2.0.0", "sha512-VHskAKYM8RfSFXwee5t5cbN5PZeq1Wrh6qd5bkyiXIf6UQcN6w/A0eXM9r6t8d+GYOh+o6ZhiEnb88LN/Y8m2w==", &[]),
            lock_package("is-fullwidth-code-point@3.0.0", "sha512-zymm5+u+sCsSWyD9qNaejV3DFvhCKclKdizYaJUuHA83RLjb7nSuGnddCHGv0hk+KY7BMAlsWeK4Ueg6EV6XQg==", &[]),
            lock_package("locate-path@5.0.0", "sha512-t7hw9pI+WvuwNJXwk5zVHpyhIqzg2qTlklJOf0mVxGSbe3Fp2VieZcduNYjaLDoy6p9uGpQEGWG87WpMKlNq8g==", &[("p-locate", "p-locate@4.1.0")]),
            lock_package("p-limit@2.3.0", "sha512-//88mFWSJx8lxCzwdAABTJL2MyWB12+eIY7MDL2SqLmAkeKU9qxRvWuSyTjm3FUmpBEMuFfckAIqEaVGUDxb6w==", &[("p-try", "p-try@2.2.0")]),
            lock_package("p-locate@4.1.0", "sha512-R79ZZ/0wAxKGu3oYMlz8jy/kbhsNrS7SKZ7PxEHBgJ5+F2mtFW2fK2cOtBh1cHYkQsbzFV7I+EoRKe6Yt0oK7A==", &[("p-limit", "p-limit@2.3.0")]),
            lock_package("p-try@2.2.0", "sha512-R4nPAVTAU0B9D35/Gk3uJf/7XYbQcyohSKdvAxIRSNghFl4e71hVoGnBNQz9cWaXxO2I10KTC+3jMdvvoKw6dQ==", &[]),
            lock_package("path-exists@4.0.0", "sha512-ak9Qy5Q7jYb2Wwcey5Fpvg2KoAc/ZIhLSLOSBmRmygPsGwkVVt0fZa0qrtMz+m6tJTAHfZQ8FnmB4MG4LWy7/w==", &[]),
            lock_package("require-directory@2.1.1", "sha512-fGxEI7+wsG9xrvdjsrlmL22OMTTiHRwAMroiEeMgq8gzoLC/PQr7RsRDSTLUg/bZAZtF+TVIkHc6/4RIKrui+Q==", &[]),
            lock_package("require-main-filename@2.0.0", "sha512-NKN5kMDylKuldxYLSUfrbo5Tuzh4hd+2E8NPPX02mZtn1VuREQToYe/ZdlJy+J3uCpfaiGF05e7B8W0iXbQHmg==", &[]),
            lock_package("set-blocking@2.0.0", "sha512-KiKBS8AnWGEyLzofFfmvKwpdPzqiy16LvQfK3yv/fVH7Bj13/wl3JSR1J+rfgRE9q7xUJK4qvgS8raSOeLUehw==", &[]),
            lock_package("string-width@2.1.1", "sha512-nOqH59deCq9SRHlxq1Aw85Jnt4w6KvLKqWVik6oA9ZklXLNIOlqg4F2yrT1MVaTjAqvVwdfeZ7w7aCvJD7ugkw==", &[("is-fullwidth-code-point", "is-fullwidth-code-point@2.0.0"), ("strip-ansi", "strip-ansi@4.0.0")]),
            lock_package("string-width@4.2.3", "sha512-wKyQRQpjJ0sIp62ErSZdGsjMJWsap5oRNihHhu6G7JVO/9jIB6UyevL+tXuOqrng8j/cxKTWyWUwvSTriiZz/g==", &[("emoji-regex", "emoji-regex@8.0.0"), ("is-fullwidth-code-point", "is-fullwidth-code-point@3.0.0"), ("strip-ansi", "strip-ansi@6.0.1")]),
            lock_package("strip-ansi@4.0.0", "sha512-4XaJ2zQdCzROZDivEVIDPkcQn8LMFSa8kj8Gxb/Lnwzv9A8VctNZ+lfivC/sV3ivW8ElJTERXZoPBRrZKkNKow==", &[("ansi-regex", "ansi-regex@3.0.1")]),
            lock_package("strip-ansi@6.0.1", "sha512-Y38VPSHcqkFrCpFnQ9vuSXmquuv5oXOKpGeT6aGrr3o3Gc9AlVa6JBfUSOCnbxGGZF+/0ooI7KrPuUSztUdU5A==", &[("ansi-regex", "ansi-regex@5.0.1")]),
            lock_package("strip-final-newline@2.0.0", "sha512-BrpvfNAE3dcvq7ll3xVumzjKjZQ5tI1sEUIKr3Uoks0XUl45St3FlatVqef9prk4jRDzhW6WZg+3bk93y6pLjA==", &[]),
            lock_package("which-module@2.0.0", "sha512-B+enWhmw6cjfVC7kS8Pj9pCrKSc5txArRyaYGe088shv/FGWH+0Rjx/xPgtsWfsUtS27FkP697E4DDhgrgoc0Q==", &[]),
            lock_package("wrap-ansi@6.2.0", "sha512-r6lPcBGxZXlIcymEu7InxDMhdW0KDxpLgoFLcguasxCaJ/SOIZwINatK9KY/tf+ZrlywOKU0UDj3ATXUBfxJXA==", &[("ansi-styles", "ansi-styles@4.3.0"), ("string-width", "string-width@4.2.3"), ("strip-ansi", "strip-ansi@6.0.1")]),
            lock_package("y18n@4.0.3", "sha512-JKhqTOwSrqNA1NY5lSztJ1GrBiUodLMmIZuLiDaMRJ+itFd+ABVE8XBjOvIWL+rSqNDC74LCSFmlb/U4UZ4hJQ==", &[]),
            lock_package("yargs-parser@18.1.3", "sha512-o50j0JeToy/4K6OZcaQmW6lyXXKhq7csREXcDwk2omFPJEwUNOVtJKvmDr9EI1fAJZUyZcRF7kxGBWmRXudrCQ==", &[("camelcase", "camelcase@5.3.1"), ("decamelize", "decamelize@1.2.0")]),
            lock_package("yargs@15.4.1", "sha512-aePbxDmcYW++PaqBsJ+HYUFwCdv4LVvdnhBy78E57PIor8/OVvhMrADFFEDh8DHDFRv/O9i3lPhsENjO7QX0+A==", &[
                ("cliui", "cliui@6.0.0"),
                ("decamelize", "decamelize@1.2.0"),
                ("find-up", "find-up@4.1.0"),
                ("get-caller-file", "get-caller-file@2.0.5"),
                ("require-directory", "require-directory@2.1.1"),
                ("require-main-filename", "require-main-filename@2.0.0"),
                ("set-blocking", "set-blocking@2.0.0"),
                ("string-width", "string-width@4.2.3"),
                ("which-module", "which-module@2.0.0"),
                ("y18n", "y18n@4.0.3"),
                ("yargs-parser", "yargs-parser@18.1.3"),
            ]),
        ],
    };
    let error = match hydrate(&lockfile) {
        Err(e @ HydrateError::MissingPackage(_)) => e.into_resolve_error(),
        _ => panic!("expected a corrupt lockfile"),
    };
    let stderr = error.lockfile_report("deno.lock");
    assert_eq!(
        stderr,
        [
            "error: failed reading lockfile 'deno.lock'\n",
            "\n",
            "Caused by:\n",
            "    0: The lockfile is corrupt. You can recreate it with --lock-write\n",
            "    1: Could not find 'cowsay@1.5.0' in the list of packages.\n"
        ]
        .concat()
    );
}

#[test]
fn auto_discover_lock_file() {
    let lockfile = Lockfile {
        specifiers: vec![("@denotest/bin".to_string(), "@denotest/bin@1.0.0".to_string())],
        packages: vec![lock_package("@denotest/bin@1.0.0", "sha512-foobar", &[])],
    };
    let snapshot = hydrate(&lockfile).ok().unwrap();
    let reference = parse_npm("npm:@denotest/bin/cli-esm").unwrap();
    let locked = snapshot.resolution(&reference.req).unwrap();
    let entry = &snapshot.packages[snapshot.position(locked).unwrap()];
    let error = check_integrity(&entry.id, &entry.integrity, "sha512-what-the-registry-serves").err().unwrap();
    assert_eq!(error.exit_code(), 10);
    assert!(error.message().contains("Integrity check failed for npm package: \"@denotest/bin@1.0.0\""));
    assert!(check_integrity(&entry.id, "sha512-foobar", "sha512-foobar").is_ok());
}

#[test]
fn peer_deps_with_copied_folders_and_lockfile() {
    let grandchild = id("@denotest/peer-dep-test-grandchild@1.0.0");
    let peer1 = id("@denotest/peer-dep-test-peer@1.0.0");
    let peer2 = id("@denotest/peer-dep-test-peer@2.0.0");
    let uses = vec![
        Use { id: grandchild.clone(), peers: vec![peer1.clone()] },
        Use { id: peer1.clone(), peers: vec![] },
        Use { id: grandchild.clone(), peers: vec![peer2.clone()] },
        Use { id: peer2.clone(), peers: vec![] },
        Use { id: grandchild.clone(), peers: vec![peer1.clone()] },
        Use { id: grandchild.clone(), peers: vec![peer2.clone()] },
    ];
    let copies = assign_copies(&uses);
    assert_eq!(copies, [0, 0, 1, 0, 0, 1]);
    let folders: Vec<String> = [0usize, 2].iter().map(|&i| cache_folder(&uses[i].id, copies[i])).collect();
    assert_eq!(folders, ["@denotest/peer-dep-test-grandchild/1.0.0", "@denotest/peer-dep-test-grandchild/1.0.0_1"]);
    assert_eq!(folder_name(&grandchild, copies[0]), "@denotest+peer-dep-test-grandchild@1.0.0");
    assert_eq!(folder_name(&grandchild, copies[2]), "@denotest+peer-dep-test-grandchild@1.0.0_1");
    assert_eq!(
        format!("npm/{}/{}", registry_folder(REGISTRY), cache_folder(&grandchild, 1)),
        "npm/localhost_4545/npm/registry/@denotest/peer-dep-test-grandchild/1.0.0_1"
    );
}

#[test]
fn reload_info_not_found_cache_but_exists_remote() {
    fn remove_version_for_package(cache: &mut Vec<PackageInfo>, package: &str, version: &str) {
        let info = cache.iter_mut().find(|i| i.name == package).unwrap();
        let version = Version::parse(version).unwrap();
        info.versions.retain(|v| v.version != version);
        info.dist_tags.retain(|(tag, _)| tag != "latest");
    }
    fn sorted(mut lines: Vec<String>) -> Vec<String> {
        lines.sort();
        lines
    }
    fn initialized(snapshot: &Snapshot, node_modules: &mut Vec<String>) -> Vec<String> {
        let on_disk = Circumstances { on_disk: true, reload: false, cached_only: false };
        let mut lines = Vec::new();
        for p in &snapshot.packages {
            let here = node_modules.contains(&p.id.to_text());
            let setup = local_setup(here, on_disk);
            lines.extend(setup_lines(setup, REGISTRY, &p.id));
            if setup == LocalSetup::Initialize {
                node_modules.push(p.id.to_text());
            }
        }
        sorted(lines)
    }
    let registry = vec![
        simple("@denotest/esm-import-cjs-default", "1.0.0", &["@denotest/cjs-default-export@^1.0.0"]),
        simple("@denotest/cjs-default-export", "1.0.0", &[]),
        simple("@denotest/esm-basic", "1.0.0", &[]),
    ];
    let main = ["@denotest/esm-import-cjs-default@1.0.0"];
    let info_of = |name: &str| format!("http://localhost:4545/npm/registry/{name}");

    // cache successfully
    let mut cache = vec![];
    let (snapshot, downloads) =
        drive(&["@denotest/esm-import-cjs-default@1.0.0", "@denotest/esm-basic@1.0.0"], &mut cache, &registry, None, false)
            .ok()
            .unwrap();
    let mut flights = Flights::new();
    let absent = Circumstances { on_disk: false, reload: false, cached_only: false };
    let mut lines = downloads;
    for p in &snapshot.packages {
        assert_eq!(flights.claim(&p.id, absent), Claim::Fetch);
        lines.push(tarball_url(REGISTRY, &p.id));
    }
    assert_eq!(
        sorted(lines),
        [
            "http://localhost:4545/npm/registry/@denotest/cjs-default-export",
            "http://localhost:4545/npm/registry/@denotest/cjs-default-export/1.0.0.tgz",
            "http://localhost:4545/npm/registry/@denotest/esm-basic",
            "http://localhost:4545/npm/registry/@denotest/esm-basic/1.0.0.tgz",
            "http://localhost:4545/npm/registry/@denotest/esm-import-cjs-default",
            "http://localhost:4545/npm/registry/@denotest/esm-import-cjs-default/1.0.0.tgz",
        ]
    );

    // test in dependency
    {
        remove_version_for_package(&mut cache, "@denotest/cjs-default-export", "1.0.0");
        let error = drive(&main, &mut cache, &registry, None, true).err().unwrap();
        assert_eq!(error.exit_code(), 1);
        assert_eq!(
            error.report(None, None),
            "error: Could not find npm package '@denotest/cjs-default-export' matching '^1.0.0'.\n"
        );
        let (snapshot, downloads) = drive(&main, &mut cache, &registry, None, false).ok().unwrap();
        assert_eq!(
            sorted(downloads),
            [info_of("@denotest/cjs-default-export"), info_of("@denotest/esm-import-cjs-default")]
        );
        assert_eq!(snapshot.packages.len(), 2);
    }

    // test in npm specifier
    {
        remove_version_for_package(&mut cache, "@denotest/esm-import-cjs-default", "1.0.0");
        let error = drive(&main, &mut cache, &registry, None, true).err().unwrap();
        assert_eq!(
            error.report(None, Some("file:///project/main.ts:1:8")),
            [
                "error: Could not find npm package '@denotest/esm-import-cjs-default' matching '1.0.0'.\n",
                "    at file:///project/main.ts:1:8\n",
            ]
            .concat()
        );
        assert_eq!(error.exit_code(), 1);
        let (_, downloads) = drive(&main, &mut cache, &registry, None, false).ok().unwrap();
        assert_eq!(
            sorted(downloads),
            [info_of("@denotest/cjs-default-export"), info_of("@denotest/esm-import-cjs-default")]
        );
    }

    // test matched specifier in package.json
    let mut node_modules = Vec::new();
    {
        remove_version_for_package(&mut cache, "@denotest/esm-import-cjs-default", "1.0.0");
        let error = drive(&main, &mut cache, &registry, None, true).err().unwrap();
        assert_eq!(
            error.report(None, None),
            "error: Could not find npm package '@denotest/esm-import-cjs-default' matching '1.0.0'.\n"
        );
        assert_eq!(error.exit_code(), 1);
        let (snapshot, downloads) = drive(&main, &mut cache, &registry, None, false).ok().unwrap();
        assert_eq!(
            sorted(downloads),
            [info_of("@denotest/cjs-default-export"), info_of("@denotest/esm-import-cjs-default")]
        );
        assert_eq!(
            initialized(&snapshot, &mut node_modules),
            ["Initialize @denotest/cjs-default-export@1.0.0", "Initialize @denotest/esm-import-cjs-default@1.0.0"]
        );
    }

    // temp other dependency in package.json
    let both = ["@denotest/esm-import-cjs-default@1.0.0", "@denotest/esm-basic@1.0.0"];
    {
        remove_version_for_package(&mut cache, "@denotest/esm-basic", "1.0.0");
        let error = drive(&both, &mut cache, &registry, None, true).err().unwrap();
        assert_eq!(
            error.report(None, None),
            "error: Could not find npm package '@denotest/esm-basic' matching '1.0.0'.\n"
        );
        assert_eq!(error.exit_code(), 1);
        let (snapshot, downloads) = drive(&both, &mut cache, &registry, None, false).ok().unwrap();
        assert_eq!(
            sorted(downloads),
            [
                info_of("@denotest/cjs-default-export"),
                info_of("@denotest/esm-basic"),
                info_of("@denotest/esm-import-cjs-default"),
            ]
        );
        assert_eq!(initialized(&snapshot, &mut node_modules), ["Initialize @denotest/esm-basic@1.0.0"]);
    }

    // now try using a lockfile
    {
        let (snapshot, _) = drive(&both, &mut cache, &registry, None, false).ok().unwrap();
        let lockfile = snapshot.to_lockfile();
        remove_version_for_package(&mut cache, "@denotest/esm-basic", "1.0.0");

        let locked = hydrate(&lockfile).ok().unwrap();
        let error = drive_from(locked, &both, &mut cache, &registry, None, true).err().unwrap();
        assert!(matches!(
            &error,
            ResolveError::VersionNotFound { name, req } if name == "@denotest/esm-basic" && req == "1.0.0"
        ));
        assert_eq!(error.exit_code(), 1);

        let locked = hydrate(&lockfile).ok().unwrap();
        let (again, downloads) = drive_from(locked, &both, &mut cache, &registry, None, false).ok().unwrap();
        assert_eq!(
            sorted(downloads),
            [
                info_of("@denotest/cjs-default-export"),
                info_of("@denotest/esm-basic"),
                info_of("@denotest/esm-import-cjs-default"),
            ]
        );
        assert_eq!(again.to_lockfile().specifiers, lockfile.specifiers);
        assert_eq!(again.packages.len(), 3);
    }
}

#[test]
fn binary_package_with_optional_dependencies() {
    let variant = |name: &str, os: &str| PackageInfo {
        name: name.to_string(),
        versions: vec![VersionInfo {
            version: v("1.0.0"),
            integrity: String::new(),
            dependencies: vec![],
            constraints: Constraints { os: vec![os.to_string()], cpu: vec![] },
        }],
        dist_tags: vec![],
    };
    let wrapper = PackageInfo {
        name: "@denotest/binary-package".to_string(),
        versions: vec![VersionInfo {
            version: v("1.0.0"),
            integrity: String::new(),
            dependencies: ["linux", "mac", "windows"]
                .iter()
                .map(|s| Dependency {
                    req: PackageReq::parse(&format!("@denotest/binary-package-{s}@1.0.0")).unwrap(),
                    optional: true,
                })
                .collect(),
            constraints: Constraints { os: vec![], cpu: vec![] },
        }],
        dist_tags: vec![],
    };
    for (os, present) in [("win32", "windows"), ("darwin", "mac"), ("linux", "linux")] {
        for _ in 0..2 {
            let mut r = Resolver::new(Snapshot::new(), Platform { os: os.to_string(), cpu: "x64".to_string() });
            r.provide(copy(&wrapper), true);
            r.provide(variant("@denotest/binary-package-windows", "win32"), true);
            r.provide(variant("@denotest/binary-package-linux", "linux"), true);
            r.provide(variant("@denotest/binary-package-mac", "darwin"), true);
            r.request(PackageReq::parse("@denotest/binary-package").unwrap());
            while !matches!(r.step(), Step::Done) {}
            let placements = place_all(&r.into_snapshot());
            let exists = |path: &str| {
                placements.iter().any(|p| format!("{}/", p.folder).starts_with(&format!("{path}/")))
                    || placements.iter().any(|p| {
                        let own = p.folder.rsplit_once("/node_modules/").unwrap().0;
                        p.links.iter().any(|l| format!("{own}/node_modules/{}", l.name) == path)
                    })
            };
            for name in ["windows", "linux", "mac"] {
                assert_eq!(exists(&format!("node_modules/.deno/@denotest+binary-package-{name}@1.0.0")), name == present);
                assert_eq!(
                    exists(&format!(
                        "node_modules/.deno/@denotest+binary-package@1.0.0/node_modules/@denotest/binary-package-{name}"
                    )),
                    name == present
                );
            }
        }
    }
}

#[test]
fn node_modules_dir_config_file() {
    assert_eq!(node_modules_dir(None, Some(true), None, None), Some(true));
    assert_eq!(node_modules_dir(None, None, None, Some(true)), Some(true));
    assert_eq!(node_modules_dir(None, Some(false), None, None), Some(false));
    assert_eq!(node_modules_dir(Some(true), Some(false), None, None), Some(true));
    assert_eq!(node_modules_dir(Some(false), Some(false), Some(true), None), Some(false));
    assert_eq!(node_modules_dir(None, None, None, None), None);
    assert_eq!(node_modules_dir(None, None, Some(false), Some(true)), None);
    assert_eq!(node_modules_dir(None, None, Some(true), Some(false)), Some(true));
}

#[test]
fn top_level_install_package_json_explicit_opt_in() {
    let enabled = node_modules_dir(None, Some(true), None, None);
    assert!(asks_for_node_modules(enabled));
    assert!(should_npm_install(enabled, true));
    let registry = vec![simple("@denotest/esm-basic", "1.0.0", &[])];
    let mut cache = vec![];
    let mut in_cache: Vec<String> = Vec::new();
    let mut run = |cache: &mut Vec<PackageInfo>, in_cache: &mut Vec<String>| {
        let (snapshot, downloads) = drive(&["@denotest/esm-basic@1.0"], cache, &registry, None, false).ok().unwrap();
        let mut lines: Vec<String> = downloads.iter().map(|url| format!("Download {url}\n")).collect();
        for p in &snapshot.packages {
            let c = Circumstances { on_disk: in_cache.contains(&p.id.to_text()), reload: false, cached_only: false };
            let setup = local_setup(false, c);
            for line in setup_lines(setup, REGISTRY, &p.id) {
                lines.push(format!("{line}\n"));
            }
            in_cache.push(p.id.to_text());
        }
        lines.concat()
    };

    // the first run downloads and sets up
    assert_eq!(
        run(&mut cache, &mut in_cache),
        concat(&[
            "Download http://localhost:4545/npm/registry/@denotest/esm-basic\n",
            "Download http://localhost:4545/npm/registry/@denotest/esm-basic/1.0.0.tgz\n",
            "Initialize @denotest/esm-basic@1.0.0\n",
        ])
    );

    // with `node_modules` removed, `eval` sets up from the cache
    let source = eval_source("console.log(5)", false);
    assert_eq!(source, "console.log(5)");
    assert_eq!(run(&mut cache, &mut in_cache), "Initialize @denotest/esm-basic@1.0.0\n");

    // and so does a run of what standard input holds
    let stdin_text = "console.log(5)";
    assert_eq!(eval_source(stdin_text, false), stdin_text);
    assert_eq!(run(&mut cache, &mut in_cache), "Initialize @denotest/esm-basic@1.0.0\n");

    assert!(!asks_for_node_modules(node_modules_dir(None, None, None, None)));
    assert!(!should_npm_install(node_modules_dir(None, None, None, None), true));
    assert!(!should_npm_install(enabled, false));
}

fn concat(lines: &[&str]) -> String {
    lines.concat()
}

fn conditional_exports_strict() -> Exports {
    let b = |key: &str, node: Exports| Branch { key: key.to_string(), node };
    Exports::Subpaths(vec![
        b(".", Exports::Conditional(vec![
            b("import", Exports::Direct("./esm/index.js".to_string())),
            b("require", Exports::Direct("./cjs/index.js".to_string())),
        ])),
        b("./client", Exports::Direct("./esm/client/index.js".to_string())),
    ])
}

#[test]
fn byonm_package_specifier_not_installed_and_invalid_subpath() {
    let declared = vec![
        Declared { name: "chalk".to_string(), installed: None },
        Declared { name: "@denotest/conditional-exports-strict".to_string(), installed: None },
    ];
    let bare = parse_bare("chalk").unwrap();
    let error = resolve_external_package(&bare.name, None, &declared).err().unwrap();
    assert_eq!(
        error.report(None, Some("file:///project/main.ts:1:19")),
        [
            "error: Could not resolve \"chalk\", but found it in a package.json. Deno expects the node_modules/ directory to be up to date. Did you forget to run `npm install`?\n",
            "    at file:///project/main.ts:1:19\n",
        ]
        .concat()
    );
    assert_eq!(error.exit_code(), 1);

    let bare = parse_bare("@denotest/conditional-exports-strict/test").unwrap();
    let dir = "/project/node_modules/@denotest/conditional-exports-strict";
    let found = resolve_external_package(&bare.name, Some(dir.to_string()), &declared).ok().unwrap();
    let error = resolve_exports(&found, &conditional_exports_strict(), &bare.subpath, &conditions_for(ResolutionMode::Import))
        .err()
        .unwrap();
    assert_eq!(
        error.report(Some("/project/main.ts"), Some("file:///project/main.ts:1:8")),
        [
            "error: [ERR_PACKAGE_PATH_NOT_EXPORTED] Package subpath './test' is not defined by \"exports\" in '/project/node_modules/@denotest/conditional-exports-strict' imported from '/project/main.ts'\n",
            "    at file:///project/main.ts:1:8\n",
        ]
        .concat()
    );
    assert_eq!(error.exit_code(), 1);
    assert!(matches!(error, ResolveError::SubpathNotExported { .. }));
    let ok = resolve_exports(&found, &conditional_exports_strict(), ".", &conditions_for(ResolutionMode::Import));
    assert_eq!(ok.ok().unwrap(), "./esm/index.js");
    let ok = resolve_exports(&found, &conditional_exports_strict(), ".", &conditions_for(ResolutionMode::Require));
    assert_eq!(ok.ok().unwrap(), "./cjs/index.js");
}

#[test]
fn byonm_npm_workspaces() {
    let places = lookup_dirs("/workspace/project-b", "chai");
    assert_eq!(
        places,
        ["/workspace/project-b/node_modules/chai", "/workspace/node_modules/chai", "/node_modules/chai"]
    );
    let places = lookup_dirs("/workspace/project-b", "project-a");
    assert_eq!(places[1], "/workspace/node_modules/project-a");
    assert_eq!(module_kind("/workspace/project-a/index.js", true), ModuleKind::Esm);
    let declared = vec![Declared { name: "@denotest/esm-basic".to_string(), installed: Some(v("1.0.0")) }];
    let found = Some("/workspace/node_modules/@denotest/esm-basic".to_string());
    assert!(resolve_external_package("@denotest/esm-basic", found, &declared).is_ok());
}

#[test]
fn cjs_rexport_analysis_json() {
    let items = analyze_cjs(
        "module.exports = {
  data1: require('./data'),
  data2: require('data-package'),
  data3: require('data-package/data'),
  data4: require('data-package/folder'),
};",
    );
    let names: Vec<&str> = items
        .iter()
        .map(|i| match i {
            Item::Export(n) => n.as_str(),
            Item::Reexport(_) => panic!("a value is no re-export"),
        })
        .collect();
    assert_eq!(names, ["data1", "data2", "data3", "data4"]);
    assert_eq!(module_kind("/node_modules/data-package/index.json", false), ModuleKind::Json);
    assert_eq!(module_kind("/node_modules/data-package/data.json", false), ModuleKind::Json);
    assert_eq!(module_kind("/node_modules/data-package/folder/index.json", false), ModuleKind::Json);
    let folder = parse_bare("data-package/folder").unwrap();
    assert_eq!((folder.name.as_str(), folder.subpath.as_str()), ("data-package", "./folder"));
}

#[test]
fn different_nested_dep_byonm() {
    let places = lookup_dirs("/project/node_modules/@denotest/different-nested-dep", "@denotest/different-nested-dep-child");
    assert_eq!(
        places,
        [
            "/project/node_modules/@denotest/different-nested-dep/node_modules/@denotest/different-nested-dep-child",
            "/project/node_modules/@denotest/node_modules/@denotest/different-nested-dep-child",
            "/project/node_modules/@denotest/different-nested-dep-child",
            "/node_modules/@denotest/different-nested-dep-child",
        ]
    );
    let from_project = lookup_dirs("/project", "@denotest/different-nested-dep-child");
    assert_eq!(from_project[0], "/project/node_modules/@denotest/different-nested-dep-child");
}

#[test]
fn run_cjs_in_node_modules_folder() {
    assert_eq!(module_kind("node_modules/package/main.js", false), ModuleKind::Cjs);
    let items = analyze_cjs("console.log('hi'); module.exports = 'hi';");
    assert!(items.is_empty());
}

const COWSAY_LOCK: &[(&str, &str, &[(&str, &str)])] = &[
        ("ansi-regex@3.0.1", "sha512-+O9Jct8wf++lXxxFc4hc8LsjaSq0HFzzL7cVsw8pRDIPdjKD2mT4ytDZlLuSBZ4cLKZFXIrMGO7DbQCtMJJMKw==", &[]),
        ("ansi-regex@5.0.1", "sha512-quJQXlTSUGL2LH9SUXo8VwsY4soanhgo6LNSm84E1LBcE8s3O0wpdiRzyR9z/ZZJMlMWv37qOOb9pdJlMUEKFQ==", &[]),
        ("ansi-styles@4.3.0", "sha512-zbB9rCJAT1rbjiVDb2hqKFHNYLxgtk8NURxZ3IZwD3F6NtxbXZQCnnSi1Lkx+IDohdPlFp222wVALIheZJQSEg==", &[("color-convert", "color-convert@2.0.1")]),
        ("camelcase@5.3.1", "sha512-L28STB170nwWS63UjtlEOE3dldQApaJXZkOI1uMFfzf3rRuPegHaHesyee+YxQ+W6SvRDQV6UrdOdRiR153wJg==", &[]),
        ("cliui@6.0.0", "sha512-t6wbgtoCXvAzst7QgXxJYqPt0usEfbgQdftEPbLL/cvv6HPE5VgvqCuAIDR0NgU52ds6rFwqrgakNLrHEjCbrQ==", &[("string-width", "string-width@4.2.3"), ("strip-ansi", "strip-ansi@6.0.1"), ("wrap-ansi", "wrap-ansi@6.2.0")]),
        ("color-convert@2.0.1", "sha512-RRECPsj7iu/xb5oKYcsFHSppFNnsj/52OVTRKb4zP5onXwVF3zVmmToNcOfGC+CRDpfK/U584fMg38ZHCaElKQ==", &[("color-name", "color-name@1.1.4")]),
        ("color-name@1.1.4", "sha512-dOy+3AuW3a2wNbZHIuMZpTcgjGuLU/uBL/ubcZF9OXbDo8ff4O8yVp5Bf0efS8uEoYo5q4Fx7dY9OgQGXgAsQA==", &[]),
        ("cowsay@1.5.0", "sha512-8Ipzr54Z8zROr/62C8f0PdhQcDusS05gKTS87xxdji8VbWefWly0k8BwGK7+VqamOrkv3eGsCkPtvlHzrhWsCA==", &[("get-stdin", "get-stdin@8.0.0"), ("string-width", "string-width@2.1.1"), ("strip-final-newline", "strip-final-newline@2.0.0"), ("yargs", "yargs@15.4.1")]),
        ("decamelize@1.2.0", "sha512-z2S+W9X73hAUUki+N+9Za2lBlun89zigOyGrsax+KUQ6wKW4ZoWpEYBkGhQjwAjjDCkWxhY0VKEhk8wzY7F5cA==", &[]),
        ("emoji-regex@8.0.0", "sha512-MSjYzcWNOA0ewAHpz0MxpYFvwg6yjy1NG3xteoqz644VCo/RPgnr1/GGt+ic3iJTzQ8Eu3TdM14SawnVUmGE6A==", &[]),
        ("find-up@4.1.0", "sha512-PpOwAdQ/YlXQ2vj8a3h8IipDuYRi3wceVQQGYWxNINccq40Anw7BlsEXCMbt1Zt+OLA6Fq9suIpIWD0OsnISlw==", &[("locate-path", "locate-path@5.0.0"), ("path-exists", "path-exists@4.0.0")]),
        ("get-caller-file@2.0.5", "sha512-DyFP3BM/3YHTQOCUL/w0OZHR0lpKeGrxotcHWcqNEdnltqFwXVfhEBQ94eIo34AfQpo0rGki4cyIiftY06h2Fg==", &[]),
        ("get-stdin@8.0.0", "sha512-sY22aA6xchAzprjyqmSEQv4UbAAzRN0L2dQB0NlN5acTTK9Don6nhoc3eAbUnpZiCANAMfd/+40kVdKfFygohg==", &[]),
        ("is-fullwidth-code-point@2.0.0", "sha512-VHskAKYM8RfSFXwee5t5cbN5PZeq1Wrh6qd5bkyiXIf6UQcN6w/A0eXM9r6t8d+GYOh+o6ZhiEnb88LN/Y8m2w==", &[]),
        ("is-fullwidth-code-point@3.0.0", "sha512-zymm5+u+sCsSWyD9qNaejV3DFvhCKclKdizYaJUuHA83RLjb7nSuGnddCHGv0hk+KY7BMAlsWeK4Ueg6EV6XQg==", &[]),
        ("locate-path@5.0.0", "sha512-t7hw9pI+WvuwNJXwk5zVHpyhIqzg2qTlklJOf0mVxGSbe3Fp2VieZcduNYjaLDoy6p9uGpQEGWG87WpMKlNq8g==", &[("p-locate", "p-locate@4.1.0")]),
        ("p-limit@2.3.0", "sha512-//88mFWSJx8lxCzwdAABTJL2MyWB12+eIY7MDL2SqLmAkeKU9qxRvWuSyTjm3FUmpBEMuFfckAIqEaVGUDxb6w==", &[("p-try", "p-try@2.2.0")]),
        ("p-locate@4.1.0", "sha512-R79ZZ/0wAxKGu3oYMlz8jy/kbhsNrS7SKZ7PxEHBgJ5+F2mtFW2fK2cOtBh1cHYkQsbzFV7I+EoRKe6Yt0oK7A==", &[("p-limit", "p-limit@2.3.0")]),
        ("p-try@2.2.0", "sha512-R4nPAVTAU0B9D35/Gk3uJf/7XYbQcyohSKdvAxIRSNghFl4e71hVoGnBNQz9cWaXxO2I10KTC+3jMdvvoKw6dQ==", &[]),
        ("path-exists@4.0.0", "sha512-ak9Qy5Q7jYb2Wwcey5Fpvg2KoAc/ZIhLSLOSBmRmygPsGwkVVt0fZa0qrtMz+m6tJTAHfZQ8FnmB4MG4LWy7/w==", &[]),
        ("require-directory@2.1.1", "sha512-fGxEI7+wsG9xrvdjsrlmL22OMTTiHRwAMroiEeMgq8gzoLC/PQr7RsRDSTLUg/bZAZtF+TVIkHc6/4RIKrui+Q==", &[]),
        ("require-main-filename@2.0.0", "sha512-NKN5kMDylKuldxYLSUfrbo5Tuzh4hd+2E8NPPX02mZtn1VuREQToYe/ZdlJy+J3uCpfaiGF05e7B8W0iXbQHmg==", &[]),
        ("set-blocking@2.0.0", "sha512-KiKBS8AnWGEyLzofFfmvKwpdPzqiy16LvQfK3yv/fVH7Bj13/wl3JSR1J+rfgRE9q7xUJK4qvgS8raSOeLUehw==", &[]),
        ("string-width@2.1.1", "sha512-nOqH59deCq9SRHlxq1Aw85Jnt4w6KvLKqWVik6oA9ZklXLNIOlqg4F2yrT1MVaTjAqvVwdfeZ7w7aCvJD7ugkw==", &[("is-fullwidth-code-point", "is-fullwidth-code-point@2.0.0"), ("strip-ansi", "strip-ansi@4.0.0")]),
        ("string-width@4.2.3", "sha512-wKyQRQpjJ0sIp62ErSZdGsjMJWsap5oRNihHhu6G7JVO/9jIB6UyevL+tXuOqrng8j/cxKTWyWUwvSTriiZz/g==", &[("emoji-regex", "emoji-regex@8.0.0"), ("is-fullwidth-code-point", "is-fullwidth-code-point@3.0.0"), ("strip-ansi", "strip-ansi@6.0.1")]),
        ("strip-ansi@4.0.0", "sha512-4XaJ2zQdCzROZDivEVIDPkcQn8LMFSa8kj8Gxb/Lnwzv9A8VctNZ+lfivC/sV3ivW8ElJTERXZoPBRrZKkNKow==", &[("ansi-regex", "ansi-regex@3.0.1")]),
        ("strip-ansi@6.0.1", "sha512-Y38VPSHcqkFrCpFnQ9vuSXmquuv5oXOKpGeT6aGrr3o3Gc9AlVa6JBfUSOCnbxGGZF+/0ooI7KrPuUSztUdU5A==", &[("ansi-regex", "ansi-regex@5.0.1")]),
        ("strip-final-newline@2.0.0", "sha512-BrpvfNAE3dcvq7ll3xVumzjKjZQ5tI1sEUIKr3Uoks0XUl45St3FlatVqef9prk4jRDzhW6WZg+3bk93y6pLjA==", &[]),
        ("which-module@2.0.0", "sha512-B+enWhmw6cjfVC7kS8Pj9pCrKSc5txArRyaYGe088shv/FGWH+0Rjx/xPgtsWfsUtS27FkP697E4DDhgrgoc0Q==", &[]),
        ("wrap-ansi@6.2.0", "sha512-r6lPcBGxZXlIcymEu7InxDMhdW0KDxpLgoFLcguasxCaJ/SOIZwINatK9KY/tf+ZrlywOKU0UDj3ATXUBfxJXA==", &[("ansi-styles", "ansi-styles@4.3.0"), ("string-width", "string-width@4.2.3"), ("strip-ansi", "strip-ansi@6.0.1")]),
        ("y18n@4.0.3", "sha512-JKhqTOwSrqNA1NY5lSztJ1GrBiUodLMmIZuLiDaMRJ+itFd+ABVE8XBjOvIWL+rSqNDC74LCSFmlb/U4UZ4hJQ==", &[]),
        ("yargs-parser@18.1.3", "sha512-o50j0JeToy/4K6OZcaQmW6lyXXKhq7csREXcDwk2omFPJEwUNOVtJKvmDr9EI1fAJZUyZcRF7kxGBWmRXudrCQ==", &[("camelcase", "camelcase@5.3.1"), ("decamelize", "decamelize@1.2.0")]),
        ("yargs@15.4.1", "sha512-aePbxDmcYW++PaqBsJ+HYUFwCdv4LVvdnhBy78E57PIor8/OVvhMrADFFEDh8DHDFRv/O9i3lPhsENjO7QX0+A==", &[("cliui", "cliui@6.0.0"), ("decamelize", "decamelize@1.2.0"), ("find-up", "find-up@4.1.0"), ("get-caller-file", "get-caller-file@2.0.5"), ("require-directory", "require-directory@2.1.1"), ("require-main-filename", "require-main-filename@2.0.0"), ("set-blocking", "set-blocking@2.0.0"), ("string-width", "string-width@4.2.3"), ("which-module", "which-module@2.0.0"), ("y18n", "y18n@4.0.3"), ("yargs-parser", "yargs-parser@18.1.3")]),
];

#[test]
fn lock_file_lock_write() {
    let lock_file_content = Lockfile {
        specifiers: vec![("cowsay@1.5.0".to_string(), "cowsay@1.5.0".to_string())],
        packages: COWSAY_LOCK.iter().map(|(id, integrity, deps)| lock_package(id, integrity, deps)).collect(),
    };
    let locked = hydrate(&lock_file_content).ok().unwrap();
    let reference = parse_npm("npm:cowsay@1.5.0").unwrap();
    let mut r = Resolver::new(locked, Platform { os: "linux".into(), cpu: "x64".into() });
    r.request(reference.req);
    assert!(matches!(r.step(), Step::Advanced));
    assert!(matches!(r.step(), Step::Done));
    let written = lock_file_content.updated_with(&r.into_snapshot().to_lockfile());
    assert_eq!(written.specifiers, lock_file_content.specifiers);
    assert_eq!(written.packages.len(), lock_file_content.packages.len());
    for (after, before) in written.packages.iter().zip(lock_file_content.packages.iter()) {
        assert_eq!(after.id, before.id);
        assert_eq!(after.integrity, before.integrity);
        assert_eq!(after.dependencies, before.dependencies);
    }
}

fn negotiated(server: &[Vec<u8>], client: &[&[u8]]) -> Option<Vec<u8>> {
    server.iter().find(|p| client.contains(&p.as_slice())).cloned()
}

fn protocol_through_proxy(allow_h2: bool, https_proxy: bool) -> (http::Version, String, String) {
    let offered = server_setup(&[0x30, 0x03, 0x02, 0x01, 0x00], allow_h2).unwrap().protocols;
    let connect = b"CONNECT 127.0.0.1:4545 HTTP/1.1\r\nHost: 127.0.0.1:4545\r\n\r\n";
    assert!(is_connect(&connect[..7]));
    assert_eq!(tunnel_granted(), "HTTP/1.1 200 OK\r\n\r\n");
    let chosen = negotiated(&offered, &[b"h2", b"http/1.1"]);
    let version = if serves_http2(chosen.as_deref()) { http::Version::HTTP_2 } else { http::Version::HTTP_11 };
    (version, proxy_url(https_proxy, "127.0.0.1:8080"), server_url("127.0.0.1:4545", "/foo"))
}

#[test]
fn test_https_proxy_http11() {
    let (version, proxy, uri) = protocol_through_proxy(false, false);
    assert_eq!(version, http::Version::HTTP_11);
    assert_eq!(proxy, "http://127.0.0.1:8080");
    assert_eq!(uri, "https://127.0.0.1:4545/foo");
}

#[test]
fn test_https_proxy_h2() {
    let (version, proxy, uri) = protocol_through_proxy(true, false);
    assert_eq!(version, http::Version::HTTP_2);
    assert_eq!(proxy, "http://127.0.0.1:8080");
    assert_eq!(uri, "https://127.0.0.1:4545/foo");
}

#[test]
fn test_https_proxy_https_h2() {
    let (version, proxy, uri) = protocol_through_proxy(true, true);
    assert_eq!(version, http::Version::HTTP_2);
    assert_eq!(proxy, "https://127.0.0.1:8080");
    assert_eq!(uri, "https://127.0.0.1:4545/foo");
}
