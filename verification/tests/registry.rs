//! The registry tables and their lookups.
use std::collections::HashSet;

use localdocks::logic::registry::{
    dedicated_programs, excluded, excluded_programs, program, runtime_programs, signature, signatures,
    unversioned, Evidence, REGISTRY_VERSION,
};

/// Two entries for one name means one of them silently never matches.
#[test]
fn every_table_has_unique_stems() {
    for (label, stems) in [
        (
            "developer executables",
            dedicated_programs()
                .iter()
                .chain(runtime_programs().iter())
                .map(|p| p.stem)
                .collect::<Vec<_>>(),
        ),
        ("exclusions", excluded_programs().iter().map(|e| e.stem).collect()),
        ("signatures", signatures().iter().map(|s| s.token).collect()),
    ] {
        let unique: HashSet<_> = stems.iter().collect();
        assert_eq!(unique.len(), stems.len(), "duplicate entry in {label}");
    }
}

/// The exclusion table is checked before the developer table, so an
/// overlap would silently disable a developer entry.
#[test]
fn no_program_is_both_registered_and_excluded() {
    for p in dedicated_programs().iter().chain(runtime_programs().iter()) {
        assert!(
            excluded(p.stem).is_none(),
            "{} is in both the developer and exclusion tables",
            p.stem
        );
    }
}

/// Entries are compared against a lowercase stem with no extension. An
/// entry written any other way can never match anything.
#[test]
fn every_entry_is_a_lowercase_stem_without_an_extension() {
    let (dedicated, runtimes, excl, sigs) =
        (dedicated_programs(), runtime_programs(), excluded_programs(), signatures());
    let stems = dedicated
        .iter()
        .chain(runtimes.iter())
        .map(|p| p.stem)
        .chain(excl.iter().map(|e| e.stem))
        .chain(sigs.iter().map(|s| s.token));
    for stem in stems {
        assert_eq!(stem, stem.to_ascii_lowercase(), "{stem} is not lowercase");
        assert!(!stem.ends_with(".exe"), "{stem} must not carry .exe");
        assert!(!stem.is_empty());
    }
}

/// The registry must not smuggle a port table in as a name. A numeric
/// entry would be exactly the "known port means developer" rule the
/// design forbids.
#[test]
fn no_entry_anywhere_is_a_port_number() {
    let (dedicated, runtimes, excl, sigs) =
        (dedicated_programs(), runtime_programs(), excluded_programs(), signatures());
    let all = dedicated
        .iter()
        .chain(runtimes.iter())
        .map(|p| p.stem)
        .chain(excl.iter().map(|e| e.stem))
        .chain(sigs.iter().map(|s| s.token));
    for entry in all {
        assert!(
            entry.parse::<u32>().is_err(),
            "{entry} is a bare number; the registry never keys on ports"
        );
    }
}

/// A runtime that could classify on its name alone would defeat the whole
/// point of the two-table split.
#[test]
fn runtimes_are_never_marked_dedicated() {
    assert!(runtime_programs().iter().all(|p| p.evidence == Evidence::Runtime));
    assert!(dedicated_programs().iter().all(|p| p.evidence == Evidence::Dedicated));
}

/// Found by running a real demo environment: the Microsoft Store build of
/// Python installs as `python3.12.exe`, and that is the name the process
/// list shows. An exact-match-only registry called one of the most common
/// Windows development runtimes unrecognised.
#[test]
fn a_versioned_runtime_name_still_resolves() {
    for name in ["python3.12", "python3.13", "python3", "python2", "python"] {
        let p = program(name).unwrap_or_else(|| panic!("{name} should resolve"));
        assert_eq!(p.display, "Python", "{name}");
        assert_eq!(p.evidence, Evidence::Runtime);
    }
}

/// The retry runs only after an exact match fails, so a program whose real
/// name ends in digits keeps its own entry.
#[test]
fn an_exact_match_always_wins_over_the_version_retry() {
    assert_eq!(
        excluded("msedgewebview2").unwrap().display,
        "the Edge WebView2 runtime"
    );
    assert_eq!(excluded("obs64").unwrap().display, "OBS Studio");
    assert_eq!(
        excluded("nvsphelper64").unwrap().display,
        "an NVIDIA helper"
    );
}

#[test]
fn the_version_retry_cannot_invent_a_match() {
    // Nothing but digits, and nothing that resolves after trimming.
    assert!(program("12345").is_none());
    assert!(program("3.12").is_none());
    assert!(program("notaprogram9").is_none());
    assert!(excluded("87654").is_none());
    // And it never turns a non-match into a prefix match.
    assert!(program("nodejs-updater").is_none());
    assert!(program("mongodb-compass").is_none());
}

#[test]
fn unversioned_trims_only_a_trailing_version() {
    assert_eq!(unversioned("python3.12").as_deref(), Some("python"));
    assert_eq!(unversioned("node20").as_deref(), Some("node"));
    assert_eq!(unversioned("python"), None, "nothing to trim");
    assert_eq!(unversioned("123"), None, "no letters left");
    assert_eq!(unversioned(""), None);
}

#[test]
fn lookups_are_exact_and_case_insensitive() {
    assert!(program("mongod").is_some());
    assert!(program("MongoD").is_some());
    assert!(program("node").is_some());
    // Not a prefix, not a substring.
    assert!(program("node-updater").is_none());
    assert!(program("mongodb-compass").is_none());
    assert!(program("nod").is_none());

    assert!(excluded("chrome").is_some());
    assert!(excluded("CHROME").is_some());
    assert!(excluded("chrome-remote").is_none());

    assert!(signature("vite").is_some());
    assert!(signature("VITE").is_some());
    assert!(signature("vitest").is_some());
    assert!(signature("invite").is_none());
}

/// Editors are deliberately unregistered. If one is ever added to either
/// table it must be a decision, not a drift.
#[test]
fn editors_are_in_neither_table() {
    for editor in [
        "code",
        "cursor",
        "devenv",
        "idea64",
        "pycharm64",
        "webstorm64",
        "rider64",
        "sublime_text",
        "zed",
    ] {
        assert!(
            program(editor).is_none(),
            "{editor} must not be a developer program"
        );
        assert!(excluded(editor).is_none(), "{editor} must not be excluded");
    }
}

/// The version exists so a classification can be pinned to a specific set
/// of tables. That is only true if it travels with them, so this asserts it
/// is reachable and set rather than comparing a constant with a literal.
#[test]
fn the_registry_version_is_readable_and_set() {
    let version: u32 = REGISTRY_VERSION;
    assert_ne!(version, 0, "an unset registry version pins nothing");
}
