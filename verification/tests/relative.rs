use mdbook_spec::relative::{doc_prefix, parent_path};
use mdbook_spec::{relative_url, relativize_enabled, LinkError};

#[test]
fn url_becomes_relative_to_the_depth_of_the_chapter() {
    let url = "https://doc.rust-lang.org/stable/std/option/enum.Option.html";
    assert_eq!(relative_url(url, 0, true), Ok("/std/option/enum.Option.html".to_string()));
    assert_eq!(relative_url(url, 1, true), Ok("../std/option/enum.Option.html".to_string()));
    assert_eq!(relative_url(url, 2, true), Ok("../../std/option/enum.Option.html".to_string()));
    assert_eq!(
        relative_url(url, 4, true),
        Ok("../../../../std/option/enum.Option.html".to_string())
    );
}

#[test]
fn every_release_channel_is_known() {
    for channel in ["nightly", "beta", "stable", "dev", "1.75.0", "1.8.12", "1.100.3"] {
        let url = format!("https://doc.rust-lang.org/{}/std/index.html", channel);
        assert_eq!(relative_url(&url, 1, true), Ok("../std/index.html".to_string()));
    }
}

#[test]
fn version_number_is_taken_whole() {
    assert_eq!(doc_prefix("https://doc.rust-lang.org/1.75.10/std/"), Some(33));
    assert_eq!(doc_prefix("https://doc.rust-lang.org/1.75.0"), Some(32));
    assert_eq!(doc_prefix("https://doc.rust-lang.org/stable"), Some(32));
    assert_eq!(doc_prefix("https://doc.rust-lang.org/dev/x"), Some(29));
    assert_eq!(relative_url("https://doc.rust-lang.org/1.75.0", 2, true), Ok("../..".to_string()));
    assert_eq!(
        relative_url("https://doc.rust-lang.org/1.75.0.1/x", 1, true),
        Ok("...1/x".to_string())
    );
}

#[test]
fn other_urls_are_refused() {
    for url in [
        "",
        "https://example.com/stable/std/index.html",
        "http://doc.rust-lang.org/stable/std/index.html",
        "https://docXrust-lang.org/stable/std/index.html",
        "https://doc.rust-lang.org/",
        "https://doc.rust-lang.org/std/index.html",
        "https://doc.rust-lang.org/2.0.0/std/index.html",
        "https://doc.rust-lang.org/1.75/std/index.html",
        "https://doc.rust-lang.org/1..0/std/index.html",
        "https://doc.rust-lang.org/1.75./std/index.html",
        "https://doc.rust-lang.org/1",
        " https://doc.rust-lang.org/stable/std/index.html",
    ] {
        assert_eq!(doc_prefix(url), None);
        assert_eq!(
            relative_url(url, 1, true),
            Err(LinkError::UnrecognizedUrl { url: url.to_string() })
        );
    }
}

#[test]
fn url_is_unchanged_when_relative_urls_are_off() {
    for url in [
        "https://doc.rust-lang.org/stable/std/index.html",
        "https://example.com/x",
        "",
    ] {
        assert_eq!(relative_url(url, 3, false), Ok(url.to_string()));
    }
}

#[test]
fn path_beyond_ascii_is_kept() {
    assert_eq!(
        relative_url("https://doc.rust-lang.org/beta/std/é/ü.html", 1, true),
        Ok("../std/é/ü.html".to_string())
    );
}

#[test]
fn parent_path_joins_with_slashes() {
    assert_eq!(parent_path(0), "");
    assert_eq!(parent_path(1), "..");
    assert_eq!(parent_path(2), "../..");
    assert_eq!(parent_path(5), "../../../../..");
}

#[test]
fn only_zero_turns_relative_urls_off() {
    assert!(!relativize_enabled(Some("0")));
    assert!(relativize_enabled(None));
    assert!(relativize_enabled(Some("1")));
    assert!(relativize_enabled(Some("")));
    assert!(relativize_enabled(Some("00")));
    assert!(relativize_enabled(Some("false")));
    assert!(relativize_enabled(Some(" 0")));
}
