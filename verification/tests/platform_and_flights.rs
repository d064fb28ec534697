use npm_resolver::error::ResolveError;
use npm_resolver::flight::{unavailable, Circumstances, Claim, Flights};
use npm_resolver::package::PackageId;
use npm_resolver::platform::{list_allows_value, select_variants, Constraints, Platform};
use npm_resolver::version::Version;

fn list(entries: &[&str]) -> Vec<String> {
    entries.iter().map(|e| e.to_string()).collect()
}

fn allows(entries: &[&str], value: &str) -> bool {
    list_allows_value(&list(entries), &value.to_string())
}

#[test]
fn lists_allow_what_they_name_and_refuse_what_they_exclude() {
    assert!(allows(&[], "linux"));
    assert!(allows(&["linux"], "linux"));
    assert!(allows(&["darwin", "linux"], "linux"));
    assert!(!allows(&["darwin", "win32"], "linux"));
    assert!(allows(&["!win32"], "linux"));
    assert!(!allows(&["!win32"], "win32"));
    assert!(!allows(&["linux", "!linux"], "linux"));
    assert!(!allows(&["!win32", "darwin"], "linux"));
    assert!(allows(&["!win32", "linux"], "linux"));
    assert!(!allows(&[""], "linux"));
}

fn machine(os: &str, cpu: &str) -> Platform {
    Platform { os: os.to_string(), cpu: cpu.to_string() }
}

#[test]
fn both_lists_must_allow_the_machine() {
    let c = Constraints { os: list(&["linux"]), cpu: list(&["x64", "arm64"]) };
    assert!(c.allow(&machine("linux", "arm64")));
    assert!(!c.allow(&machine("linux", "ia32")));
    assert!(!c.allow(&machine("darwin", "x64")));
}

#[test]
fn exactly_the_variants_for_the_machine_are_selected() {
    let variants = vec![
        Constraints { os: list(&["win32"]), cpu: vec![] },
        Constraints { os: list(&["linux"]), cpu: vec![] },
        Constraints { os: list(&["darwin"]), cpu: vec![] },
    ];
    assert_eq!(select_variants(&variants, &machine("win32", "x64")), [0]);
    assert_eq!(select_variants(&variants, &machine("linux", "x64")), [1]);
    assert_eq!(select_variants(&variants, &machine("darwin", "x64")), [2]);
    assert!(select_variants(&variants, &machine("freebsd", "x64")).is_empty());
    let overlapping = vec![
        Constraints { os: list(&["!win32"]), cpu: vec![] },
        Constraints { os: vec![], cpu: vec![] },
        Constraints { os: list(&["win32"]), cpu: vec![] },
    ];
    assert_eq!(select_variants(&overlapping, &machine("linux", "x64")), [0, 1]);
    assert!(select_variants(&vec![], &machine("linux", "x64")).is_empty());
}

fn id(name: &str) -> PackageId {
    PackageId::new(name, Version::new(1, 0, 0))
}

const ABSENT: Circumstances = Circumstances { on_disk: false, reload: false, cached_only: false };
const PRESENT: Circumstances = Circumstances { on_disk: true, reload: false, cached_only: false };

#[test]
fn of_many_who_ask_one_fetches() {
    let mut flights = Flights::new();
    let chalk = id("chalk");
    let answers: Vec<Claim> = (0..5).map(|_| flights.claim(&chalk, ABSENT)).collect();
    assert_eq!(answers, [Claim::Fetch, Claim::Wait, Claim::Wait, Claim::Wait, Claim::Wait]);
    assert_eq!(flights.claim(&id("cowsay"), ABSENT), Claim::Fetch);
    flights.finished(&chalk);
    assert_eq!(flights.claim(&chalk, ABSENT), Claim::Ready);
    assert_eq!(flights.claim(&chalk, Circumstances { reload: true, ..ABSENT }), Claim::Ready);
    assert_eq!(flights.claim(&id("cowsay"), ABSENT), Claim::Wait);
}

#[test]
fn what_is_on_disk_is_not_fetched_unless_reloaded() {
    let mut flights = Flights::new();
    assert_eq!(flights.claim(&id("a"), PRESENT), Claim::Ready);
    assert_eq!(flights.claim(&id("a"), ABSENT), Claim::Ready);
    assert_eq!(flights.claim(&id("b"), Circumstances { reload: true, ..PRESENT }), Claim::Fetch);
    assert_eq!(flights.claim(&id("b"), Circumstances { reload: true, ..PRESENT }), Claim::Wait);
    flights.finished(&id("b"));
    assert_eq!(flights.claim(&id("b"), Circumstances { reload: true, ..PRESENT }), Claim::Ready);
}

#[test]
fn with_the_cache_alone_nothing_is_fetched() {
    let mut flights = Flights::new();
    let cached_only = Circumstances { cached_only: true, ..ABSENT };
    assert_eq!(flights.claim(&id("a"), cached_only), Claim::Unavailable);
    assert_eq!(flights.claim(&id("a"), cached_only), Claim::Unavailable);
    assert_eq!(flights.claim(&id("a"), Circumstances { on_disk: true, ..cached_only }), Claim::Ready);
    assert_eq!(
        flights.claim(&id("b"), Circumstances { on_disk: true, reload: true, cached_only: true }),
        Claim::Ready
    );
    assert_eq!(flights.claim(&id("c"), Circumstances { on_disk: false, reload: true, cached_only: true }), Claim::Unavailable);
    assert_eq!(flights.claim(&id("a"), ABSENT), Claim::Ready);
    assert_eq!(flights.claim(&id("c"), ABSENT), Claim::Fetch);
}

#[test]
fn a_failed_fetch_lets_the_next_try_again() {
    let mut flights = Flights::new();
    assert_eq!(flights.claim(&id("a"), ABSENT), Claim::Fetch);
    flights.failed(&id("a"));
    assert_eq!(flights.claim(&id("a"), ABSENT), Claim::Fetch);
    flights.finished(&id("a"));
    flights.failed(&id("a"));
    assert_eq!(flights.claim(&id("a"), ABSENT), Claim::Ready);
    flights.finished(&id("never-claimed"));
    assert_eq!(flights.claim(&id("never-claimed"), ABSENT), Claim::Fetch);
}

#[test]
fn with_the_cache_alone_a_version_that_is_not_cached_is_named() {
    let mut flights = Flights::new();
    let locked = PackageId::new("@denotest/esm-basic", Version::new(1, 0, 0));
    let cached_only = Circumstances { on_disk: false, reload: false, cached_only: true };
    assert_eq!(flights.claim(&locked, cached_only), Claim::Unavailable);
    match unavailable(&locked) {
        ResolveError::VersionNotFound { name, req } => {
            assert_eq!(name, "@denotest/esm-basic");
            assert_eq!(req, "1.0.0");
        }
        _ => panic!("expected that the version is not found"),
    }
    assert_eq!(
        unavailable(&locked).message(),
        "Could not find npm package '@denotest/esm-basic' matching '1.0.0'."
    );
    assert_eq!(flights.claim(&locked, Circumstances { cached_only: false, ..cached_only }), Claim::Fetch);
    flights.finished(&locked);
    assert_eq!(flights.claim(&locked, cached_only), Claim::Ready);
}
