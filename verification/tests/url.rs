//! Which URLs may reach the shell.
use localdocks::logic::url::{validate, UrlRejection, MAX_LENGTH};

#[test]
fn the_urls_the_app_actually_produces_are_allowed() {
    // `localUrl()` in the frontend builds exactly this shape.
    for url in [
        "http://localhost:5173",
        "http://localhost:80",
        "http://127.0.0.1:8000",
        "http://[::1]:3000",
    ] {
        assert_eq!(validate(url), Ok(url), "{url} should be allowed");
    }
}

#[test]
fn https_is_allowed() {
    assert!(validate("https://localhost:5173").is_ok());
    assert!(validate("https://example.com/a/b?c=d#e").is_ok());
}

#[test]
fn the_scheme_check_is_case_insensitive_but_changes_nothing_else() {
    assert!(validate("HTTP://localhost:5173").is_ok());
    assert!(validate("HtTpS://localhost:5173").is_ok());
    // The string is returned verbatim: no normalising, no rewriting.
    assert_eq!(
        validate("HTTP://LocalHost:5173/Path"),
        Ok("HTTP://LocalHost:5173/Path")
    );
}

#[test]
fn every_other_scheme_is_refused() {
    for url in [
        "javascript:alert(1)",
        "JavaScript:alert(1)",
        "file:///C:/Windows/System32/cmd.exe",
        "file://server/share",
        "shell:startup",
        "ms-settings:privacy",
        "vbscript:msgbox",
        "data:text/html,<script>alert(1)</script>",
        "ftp://example.com",
        "mailto:someone@example.com",
        "steam://run/570",
        "\\\\server\\share",
        "C:\\Windows\\System32\\cmd.exe",
        "cmd.exe",
        "//example.com",
        "localhost:5173",
    ] {
        assert_eq!(
            validate(url),
            Err(UrlRejection::UnsupportedScheme),
            "{url} must be refused"
        );
    }
}

#[test]
fn a_scheme_hidden_behind_a_control_character_is_refused() {
    // The reason control characters are checked before the scheme.
    for url in [
        "java\nscript:alert(1)",
        "java\tscript:alert(1)",
        " http://localhost:5173",
        "http://localhost:5173\n",
        "http://local host:5173",
    ] {
        assert_eq!(
            validate(url),
            Err(UrlRejection::IllegalCharacter),
            "{url:?} must be refused"
        );
    }
}

#[test]
fn an_embedded_nul_is_refused_because_win32_would_not_see_past_it() {
    // Everything after a NUL would vanish on the way to Windows, so the
    // string checked here would not be the string opened.
    assert_eq!(
        validate("http://localhost:5173\0javascript:alert(1)"),
        Err(UrlRejection::IllegalCharacter)
    );
    assert_eq!(
        validate("http://good.example\0"),
        Err(UrlRejection::IllegalCharacter)
    );
}

#[test]
fn a_url_with_no_host_is_refused() {
    for url in ["http://", "https://", "http:///etc/passwd", "https:///"] {
        assert_eq!(
            validate(url),
            Err(UrlRejection::MissingHost),
            "{url} must be refused"
        );
    }
}

#[test]
fn empty_and_oversized_input_is_refused() {
    assert_eq!(validate(""), Err(UrlRejection::Empty));

    let long = format!("http://localhost/{}", "a".repeat(MAX_LENGTH));
    assert_eq!(validate(&long), Err(UrlRejection::TooLong));

    // Just under the ceiling is still fine.
    let ok = format!("http://localhost/{}", "a".repeat(MAX_LENGTH - 20));
    assert!(validate(&ok).is_ok());
}

#[test]
fn a_prefix_that_merely_looks_like_the_scheme_is_refused() {
    for url in [
        "http:/localhost",
        "http:localhost",
        "httpx://localhost",
        "xhttp://localhost",
    ] {
        assert!(validate(url).is_err(), "{url} must be refused");
    }
}

#[test]
fn every_rejection_can_explain_itself() {
    for r in [
        UrlRejection::Empty,
        UrlRejection::TooLong,
        UrlRejection::UnsupportedScheme,
        UrlRejection::IllegalCharacter,
        UrlRejection::MissingHost,
    ] {
        assert!(!r.reason().is_empty());
    }
}
