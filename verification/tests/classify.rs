//! The Developer classifier, end to end.
use localdocks::assoc::Assoc;
use localdocks::logic::classify::{apply, classify, needs_command_line, strip_script_extension, tokenize};
use localdocks::models::{Relevance, Service};

fn verdict(name: &str, line: Option<&str>) -> Relevance {
    classify(name, line).relevance
}

fn reason(name: &str, line: Option<&str>) -> String {
    classify(name, line).reason
}

// ------------------------------------------------- 1. dedicated programs

#[test]
fn a_dedicated_development_program_is_developer_on_its_name_alone() {
    let c = classify("mongod.exe", None);
    assert_eq!(c.relevance, Relevance::Developer);
    assert_eq!(c.reason, "MongoDB is a database server.");
}

#[test]
fn dedicated_programs_do_not_need_a_command_line() {
    for name in [
        "postgres.exe",
        "redis-server.exe",
        "dockerd.exe",
        "nginx.exe",
    ] {
        assert_eq!(
            verdict(name, None),
            Relevance::Developer,
            "{name} should classify without a command line"
        );
    }
}

// ---------------------------------------------------- 2. runtime + tool

#[test]
fn a_runtime_with_a_tool_signature_is_developer_and_names_the_tool() {
    // The real command line of the Vite dev server running on the
    // development machine this registry was built against.
    let line =
        r#""node"   "C:\Desktop\BRO.UNIVERSITY\node_modules\.bin\\..\vite\bin\vite.js" "#;
    let c = classify("node.exe", Some(line));
    assert_eq!(c.relevance, Relevance::Developer);
    assert_eq!(c.reason, "Node.js launched with the Vite signature.");
}

#[test]
fn a_named_tool_outranks_the_directory_it_was_found_in() {
    // Both `node_modules` and `vite` match. The specific one must win, so
    // the reason is the checkable one.
    let c = classify("node.exe", Some(r"node C:\p\node_modules\vite\bin\vite.js"));
    assert!(c.reason.contains("Vite"), "got: {}", c.reason);
    assert!(!c.reason.contains("node_modules"), "got: {}", c.reason);
}

#[test]
fn common_runtimes_and_tools_classify_across_ecosystems() {
    for (name, line, expect) in [
        (
            "python.exe",
            "python -m uvicorn app:app --port 8000",
            "Uvicorn",
        ),
        (
            "python.exe",
            r"C:\p\.venv\Scripts\python.exe manage.py runserver",
            "Django",
        ),
        ("ruby.exe", "ruby bin/rails server", "Rails"),
        ("php.exe", "php artisan serve", "Laravel Artisan"),
        ("dotnet.exe", "dotnet watch --project Api.csproj", "watch"),
        (
            "java.exe",
            r"java -jar C:\p\gradle\wrapper\gradle-wrapper.jar bootRun",
            "Gradle",
        ),
        ("node.exe", "node node_modules/.bin/next dev", "Next.js"),
        ("bun.exe", "bun run dev", "run"),
    ] {
        let c = classify(name, Some(line));
        assert_eq!(c.relevance, Relevance::Developer, "{line}");
        assert!(c.reason.contains(expect), "{line} -> {}", c.reason);
    }
}

// --------------------------------------------- 3. the substring failures

/// The single most important test in this file. This is a real VS Code
/// helper command line, and a substring search for `node` matches it.
#[test]
fn a_command_line_mentioning_node_inside_a_longer_token_is_not_a_match() {
    let line = "--type=utility --utility-sub-type=node.mojom.NodeService --lang=en-US";
    // Even given a runtime executable, which is the generous case.
    assert_eq!(verdict("node.exe", Some(line)), Relevance::Unknown);
}

/// Also real, and the reason `--inspect` is not a registered signature.
#[test]
fn inspect_port_is_not_a_development_signature() {
    let line = "--inspect-port=0 --dns-result-order=ipv4first";
    assert_eq!(verdict("node.exe", Some(line)), Relevance::Unknown);
}

/// `NVIDIA Web Helper.exe index.js` is a real listening process. It runs a
/// Node script and must still never be Developer.
#[test]
fn a_vendor_helper_running_a_node_script_is_not_developer() {
    let c = classify(
        "NVIDIA Web Helper.exe",
        Some(r#""C:\...\NVIDIA Web Helper.exe" index.js"#),
    );
    assert_eq!(c.relevance, Relevance::System);
    assert!(c.reason.contains("NVIDIA"), "got: {}", c.reason);
}

#[test]
fn signature_tokens_never_match_as_substrings_of_other_words() {
    // `invite` contains `vite`; `runtime` contains `run`; `observe`
    // contains `serve`; `restart` contains `start`.
    for line in [
        "node invite.js",
        "node runtime.js",
        "node observer.js",
        "node restarter.js",
    ] {
        assert_eq!(
            verdict("node.exe", Some(line)),
            Relevance::Unknown,
            "{line}"
        );
    }
}

// ------------------------------------------------------- 4. the unknowns

#[test]
fn a_runtime_with_no_matching_signature_is_unknown_not_developer() {
    let c = classify("node.exe", Some(r"node C:\vendor\helper.js"));
    assert_eq!(c.relevance, Relevance::Unknown);
    assert!(
        c.reason.contains("nothing in its command line matched"),
        "got: {}",
        c.reason
    );
}

#[test]
fn a_runtime_whose_command_line_could_not_be_read_is_unknown_and_says_so() {
    let c = classify("node.exe", None);
    assert_eq!(c.relevance, Relevance::Unknown);
    assert!(c.reason.contains("could not be read"), "got: {}", c.reason);
    // Distinguishable from the "read but matched nothing" case.
    assert_ne!(c.reason, reason("node.exe", Some("node helper.js")));
}

#[test]
fn an_unregistered_program_is_unknown_and_the_registry_does_not_claim_otherwise() {
    let c = classify("SomeInternalTool.exe", Some("--serve --dev"));
    assert_eq!(c.relevance, Relevance::Unknown);
    assert!(c.reason.contains("neither"), "got: {}", c.reason);
}

/// Editors hold real listening sockets and are in neither table. They must
/// be Unknown — not Developer, and not falsely labelled System.
#[test]
fn an_editor_is_unknown_rather_than_developer_or_system() {
    for editor in ["Code.exe", "cursor.exe", "idea64.exe", "devenv.exe"] {
        let c = classify(editor, Some("--type=utility"));
        assert_eq!(c.relevance, Relevance::Unknown, "{editor}");
    }
}

// ----------------------------------------------------- 5. the exclusions

/// The list the correction pass named explicitly. None of these may be
/// Developer, whatever they listen on.
#[test]
fn consumer_and_system_software_is_never_developer() {
    for name in [
        "chrome.exe",
        "brave.exe",
        "msedge.exe",
        "firefox.exe",
        "Spotify.exe",
        "SpotifyLauncher.exe",
        "iCloudDrive.exe",
        "iCloudPhotos.exe",
        "iCloudHome.exe",
        "iCloudCKKS.exe",
        "APSDaemon.exe",
        "AppleMobileDeviceProcess.exe",
        "nvcontainer.exe",
        "NVIDIA Web Helper.exe",
        "steam.exe",
        "lghub_updater.exe",
        "svchost.exe",
        "lsass.exe",
        "spoolsv.exe",
        "System",
    ] {
        let c = classify(name, Some("--serve --dev --watch --run vite next"));
        assert_eq!(
            c.relevance,
            Relevance::System,
            "{name} must be excluded even with a command line full of signatures"
        );
    }
}

#[test]
fn exclusion_is_checked_before_any_signature_can_apply() {
    // The generous adversarial case: an excluded program whose command
    // line is nothing but development signatures.
    let c = classify(
        "chrome.exe",
        Some("vite next uvicorn rails dev serve node_modules"),
    );
    assert_eq!(c.relevance, Relevance::System);
}

// ------------------------------------------------------ 6. the invariants

#[test]
fn a_port_number_never_appears_as_an_input_or_changes_a_verdict() {
    // The same process on four different ports classifies identically —
    // there is no port in the signature at all.
    let base = classify("node.exe", Some("node vite.js"));
    for port in ["3000", "5173", "8080", "61123"] {
        let c = classify("node.exe", Some(&format!("node vite.js --port {port}")));
        assert_eq!(c, base, "port {port} changed the classification");
    }
    // And a bare port number in a command line classifies nothing.
    assert_eq!(
        verdict("someapp.exe", Some("--port 3000")),
        Relevance::Unknown
    );
    assert_eq!(
        verdict("someapp.exe", Some("--port 8080")),
        Relevance::Unknown
    );
}

#[test]
fn the_address_a_service_binds_never_changes_a_verdict() {
    let a = classify("node.exe", Some("node vite.js --host 127.0.0.1"));
    let b = classify("node.exe", Some("node vite.js --host 0.0.0.0"));
    assert_eq!(a, b);
}

#[test]
fn classification_is_deterministic() {
    let line = r"node C:\p\node_modules\.bin\vite --port 5173 --host";
    let first = classify("node.exe", Some(line));
    for _ in 0..50 {
        assert_eq!(classify("node.exe", Some(line)), first);
    }
}

#[test]
fn every_verdict_carries_a_reason_that_is_a_sentence() {
    for (name, line) in [
        ("mongod.exe", None),
        ("node.exe", Some("node vite.js")),
        ("node.exe", Some("node helper.js")),
        ("node.exe", None),
        ("chrome.exe", None),
        ("mystery.exe", None),
    ] {
        let c = classify(name, line);
        assert!(!c.reason.trim().is_empty(), "{name} produced no reason");
        assert!(c.reason.ends_with('.'), "{name}: {}", c.reason);
        assert!(c.reason.len() > 20, "{name}: {}", c.reason);
    }
}

#[test]
fn names_are_matched_case_insensitively_and_with_or_without_the_extension() {
    assert_eq!(verdict("MONGOD.EXE", None), Relevance::Developer);
    assert_eq!(verdict("mongod", None), Relevance::Developer);
    assert_eq!(verdict("  mongod.exe  ", None), Relevance::Developer);
}

#[test]
fn an_empty_or_unreadable_name_is_unknown_rather_than_anything_else() {
    assert_eq!(verdict("", None), Relevance::Unknown);
    assert_eq!(verdict("   ", Some("vite")), Relevance::Unknown);
}

#[test]
fn an_empty_command_line_is_treated_as_no_signature() {
    assert_eq!(verdict("node.exe", Some("")), Relevance::Unknown);
    assert_eq!(verdict("node.exe", Some("   ")), Relevance::Unknown);
}

// ---------------------------------------------------- 7. the tick helpers

fn service(name: &str) -> Service {
    Service {
        id: localdocks::models::make_process_id(8420, "2026-08-28T09:00:00.000Z"),
        label: "x:5173".into(),
        framework: None,
        process_name: name.into(),
        pid: 8420,
        parent_pid: 1,
        cpu_hundredths: 0,
        memory_bytes: 0,
        thread_count: 1,
        started_at: "2026-08-28T09:00:00.000Z".into(),
        uptime_millis: 0,
        endpoints: Vec::new(),
        status: localdocks::models::ServiceStatus::Running,
        relevance: Relevance::Unknown,
        relevance_reason: String::new(),
    }
}

#[test]
fn only_general_purpose_runtimes_are_worth_a_command_line_read() {
    // Already decided by name: no handle needed.
    assert!(!needs_command_line(&service("mongod.exe")));
    assert!(!needs_command_line(&service("chrome.exe")));
    assert!(!needs_command_line(&service("Code.exe")));
    assert!(!needs_command_line(&service("mystery.exe")));
    // Undecidable without one.
    assert!(needs_command_line(&service("node.exe")));
    assert!(needs_command_line(&service("python.exe")));
    assert!(needs_command_line(&service("java.exe")));
}

#[test]
fn apply_fills_in_every_service_and_leaves_no_empty_reason() {
    let mut services = vec![
        service("node.exe"),
        service("chrome.exe"),
        service("mongod.exe"),
    ];
    services[1].id = localdocks::models::make_process_id(1, "t");
    services[2].id = localdocks::models::make_process_id(2, "t");

    let mut lines: Assoc<Option<String>> = Assoc::new();
    lines.insert(services[0].id.clone(), Some("node vite.js".to_string()));

    apply(&mut services, &lines);

    assert_eq!(services[0].relevance, Relevance::Developer);
    assert_eq!(services[1].relevance, Relevance::System);
    assert_eq!(services[2].relevance, Relevance::Developer);
    assert!(services.iter().all(|s| !s.relevance_reason.is_empty()));
}

#[test]
fn apply_keys_command_lines_by_identity_so_a_recycled_pid_cannot_inherit_one() {
    let mut services = vec![service("node.exe")];
    // The same PID, a later start: a different identity.
    services[0].id = localdocks::models::make_process_id(8420, "2026-08-28T10:00:00.000Z");

    let mut lines: Assoc<Option<String>> = Assoc::new();
    lines.insert(
        localdocks::models::make_process_id(8420, "2026-08-28T09:00:00.000Z"),
        Some("node vite.js".to_string()),
    );

    apply(&mut services, &lines);

    assert_eq!(
        services[0].relevance,
        Relevance::Unknown,
        "the earlier process's command line must not be reused"
    );
}

#[test]
fn a_cached_read_failure_is_treated_as_no_command_line() {
    let mut services = vec![service("node.exe")];
    let mut lines: Assoc<Option<String>> = Assoc::new();
    lines.insert(services[0].id.clone(), None);
    apply(&mut services, &lines);
    assert_eq!(services[0].relevance, Relevance::Unknown);
    assert!(services[0].relevance_reason.contains("could not be read"));
}

// -------------------------------------------------------- the tokenizer

#[test]
fn tokenize_splits_paths_quotes_and_argument_punctuation() {
    let tokens: Vec<String> =
        tokenize(r#""node" "C:\p\node_modules\.bin\vite.js" --port=5173"#);
    assert!(tokens.contains(&"node".to_string()));
    assert!(tokens.contains(&"node_modules".to_string()));
    assert!(tokens.contains(&"vite".to_string()), "{tokens:?}");
    assert!(tokens.contains(&"port".to_string()));
    assert!(tokens.contains(&"5173".to_string()));
}

#[test]
fn tokenize_does_not_split_on_dots() {
    let tokens: Vec<String> = tokenize("--utility-sub-type=node.mojom.NodeService");
    assert!(
        tokens.contains(&"node.mojom.nodeservice".to_string()),
        "{tokens:?}"
    );
    assert!(!tokens.contains(&"node".to_string()), "{tokens:?}");
}

#[test]
fn only_closed_list_extensions_are_stripped() {
    assert_eq!(strip_script_extension("vite.js"), "vite");
    assert_eq!(strip_script_extension("manage.py"), "manage");
    assert_eq!(
        strip_script_extension("node.mojom.NodeService"),
        "node.mojom.NodeService"
    );
    assert_eq!(strip_script_extension(".js"), ".js");
}

#[test]
fn every_verdict_is_a_sentence() {
    let cases: [(&str, Option<&str>); 8] = [
        ("mongod.exe", None),
        ("chrome.exe", None),
        ("", None),
        ("mystery.exe", None),
        ("node.exe", None),
        ("node.exe", Some("node vite.js")),
        ("node.exe", Some("node server.js")),
        ("python.exe", Some("python -m http.server")),
    ];
    for (name, line) in cases {
        let r = reason(name, line);
        assert!(!r.is_empty(), "{name}: empty reason");
        assert!(r.ends_with('.'), "{name}: {r}");
    }
}

#[test]
fn a_verdict_ignores_ports_and_parent() {
    let mut a = service("node.exe");
    let mut b = service("node.exe");
    b.id = localdocks::models::make_process_id(9000, "2026-08-28T09:00:00.000Z");
    b.pid = 9000;
    b.parent_pid = 77;
    b.label = "node:3000".into();
    a.endpoints = vec![localdocks::models::Endpoint {
        protocol: localdocks::models::Protocol::Tcp,
        address: "127.0.0.1".into(),
        port: 5173,
    }];

    let mut lines: Assoc<Option<String>> = Assoc::new();
    lines.insert(a.id.clone(), Some("node vite.js".to_string()));
    lines.insert(b.id.clone(), Some("node vite.js".to_string()));

    let mut services = vec![a, b];
    apply(&mut services, &lines);
    assert_eq!(services[0].relevance, services[1].relevance);
    assert_eq!(services[0].relevance_reason, services[1].relevance_reason);
}
