use nugget::bignat::Level;
use nugget::clipboard::{
    admit_url, code_detection, dedup_check, default_ignore_domains, default_poll_interval,
    default_true, domain_filter, entropy_check, extract_host, extract_url, find_candidate,
    keep_url, length_check, pid_file_path, run_filter_pipeline, BrainConfig, ClipboardConfig,
    ClipboardMonitor,
};
use nugget::entropy::entropy_against;
use nugget::inbox::InboxEntry;
use nugget::model::{
    CaptureMethod, Confidence, Domain, InboxItem, KnowledgeType, Timestamp,
};
use nugget::store::BrainStore;

const NOW: Timestamp = Timestamp { seconds: 1_771_936_496, nanos: 0 };

fn pending_with(url: &str, captured_at: Timestamp) -> InboxEntry {
    let mut item = InboxItem::with_identity(
        "0123abcd-0000-4000-8000-000000000000".to_string(),
        captured_at,
        KnowledgeType::Concept,
        Domain("inbox".to_string()),
        CaptureMethod::ClipboardUrl,
        url.to_string(),
    );
    item.source = Some(url.to_string());
    InboxEntry { item, path: "/brain/inbox/x.md".to_string() }
}

#[test]
fn test_length_check() {
    assert!(!length_check("short"));
    assert!(!length_check("less than twenty"));
    assert!(length_check(
        "this string is definitely longer than twenty characters"
    ));
}

#[test]
fn length_check_counts_characters_at_the_boundary() {
    assert!(!length_check("1234567890123456789"));
    assert!(length_check("12345678901234567890"));
    // twenty characters, more than twenty bytes
    assert!(length_check("éééééééééééééééééééé"));
    // nineteen characters, thirty-eight bytes
    assert!(!length_check("ééééééééééééééééééé"));
}

#[test]
fn test_entropy_check() {
    // Normal English text with spaces should always pass
    assert!(entropy_check("hello world this is a normal sentence"));

    // Low-entropy no-space text (repeated chars) should pass
    assert!(entropy_check("aaaaaaaaaaaaaaaa"));

    // High-entropy no-space text (random-looking) should be dropped
    assert!(!entropy_check("aB3$xZ9!qW7&mK2@pL5^rT8#vN4%dE6"));

    // High-entropy but with spaces should pass (spaces bypass the entropy test)
    assert!(entropy_check("aB3$ xZ9! qW7& mK2@ pL5^ rT8#"));
}

#[test]
fn entropy_check_at_the_threshold() {
    // 16 characters once and 8 characters twice: exactly 4.5 bits
    let exact = "abcdefghijklmnopqqrrssttuuvvwwxx";
    assert_eq!(exact.chars().count(), 32);
    assert_eq!(entropy_against(exact, 9, 2), Some(Level::Equal));
    assert!(entropy_check(exact));
    // 23 distinct characters: log2(23) is a little above 4.5
    assert!(!entropy_check("abcdefghijklmnopqrstuvw"));
    // 22 distinct characters: log2(22) is a little below 4.5
    assert!(entropy_check("abcdefghijklmnopqrstuv"));
    // other whitespace than the space lets a text through as well
    assert!(entropy_check("aB3$xZ9!qW7&mK2@\tpL5^rT8#vN4%dE6"));
    assert!(entropy_check(""));
}

#[test]
fn test_shannon_entropy() {
    // Single repeated character has zero entropy
    assert_eq!(entropy_against("aaaa", 0, 1), Some(Level::Equal));

    // Two equally distributed characters have entropy of 1.0
    assert_eq!(entropy_against("aabb", 1, 1), Some(Level::Equal));
    assert_eq!(entropy_against("aabb", 999, 1000), Some(Level::Above));
    assert_eq!(entropy_against("aabb", 1001, 1000), Some(Level::Below));

    // Empty string has zero entropy
    assert_eq!(entropy_against("", 0, 1), Some(Level::Equal));
}

#[test]
fn entropy_of_uneven_frequencies() {
    // "aaab": 0.811278... bits
    assert_eq!(entropy_against("aaab", 811, 1000), Some(Level::Above));
    assert_eq!(entropy_against("aaab", 812, 1000), Some(Level::Below));
    // eight distinct characters: three bits
    assert_eq!(entropy_against("abcdefgh", 3, 1), Some(Level::Equal));
}

#[test]
fn test_code_detection() {
    // Code snippets should be dropped
    assert!(!code_detection("fn main() {\n    println!(\"hello\");\n}"));
    assert!(!code_detection(
        "def process_data(items):\n    return items"
    ));
    assert!(!code_detection("import os\nimport sys"));
    assert!(!code_detection("const FOO = 42;\nlet bar = 10;"));
    assert!(!code_detection("class MyWidget extends StatelessWidget {"));
    assert!(!code_detection("function doSomething() { return true; }"));

    // High bracket density should be dropped
    assert!(!code_detection("{{[]()}}{{[]()}}"));

    // Normal text should pass
    assert!(code_detection(
        "Check out this article about Rust programming language"
    ));
}

#[test]
fn code_detection_edges() {
    assert!(code_detection(""));
    // an introducer after leading whitespace, on a later line
    assert!(!code_detection("some notes\n   \t let x = 1"));
    assert!(!code_detection("notes\r\n  var y"));
    // an introducer in the middle of a line is no code line
    assert!(code_detection("we should let it be and import nothing"));
    // the introducer needs its space
    assert!(code_detection("fnord is a word"));
    // exactly one bracket in ten is still text, one more is not
    assert!(code_detection("(123456789"));
    assert!(!code_detection("(12345678"));
    assert!(code_detection("()234567890123456789"));
    assert!(!code_detection("()23456789012345678"));
}

#[test]
fn test_extract_url() {
    assert_eq!(
        extract_url("Check out https://example.com/article today"),
        Some("https://example.com/article".to_string())
    );
    assert_eq!(
        extract_url("http://foo.bar/baz?q=1&r=2"),
        Some("http://foo.bar/baz?q=1&r=2".to_string())
    );
    assert_eq!(extract_url("no urls here, just plain text"), None);
    assert_eq!(extract_url(""), None);
}

#[test]
fn extract_url_takes_the_first_and_stops_at_marks() {
    assert_eq!(
        extract_url("see <https://a.example/x> and https://b.example/y"),
        Some("https://a.example/x".to_string())
    );
    assert_eq!(
        extract_url("link (\"http://a.example/q\") here"),
        Some("http://a.example/q".to_string())
    );
    assert_eq!(extract_url("https:// nothing follows the scheme"), None);
}

#[test]
fn test_domain_filter() {
    let ignore = default_ignore_domains();

    assert!(domain_filter("https://example.com/page", &ignore));
    assert!(!domain_filter("https://localhost/api", &ignore));
    assert!(!domain_filter("https://mail.google.com/inbox", &ignore));
    assert!(!domain_filter(
        "https://accounts.google.com/signin",
        &ignore
    ));
    assert!(domain_filter("https://docs.google.com/doc", &ignore));
}

#[test]
fn domain_filter_subdomains_and_lookalikes() {
    let ignore = vec!["example.com".to_string()];
    assert!(!domain_filter("https://example.com", &ignore));
    assert!(!domain_filter("http://www.example.com:8080/x", &ignore));
    assert!(!domain_filter("https://a.b.example.com/x", &ignore));
    // a host that only ends with the same letters is kept
    assert!(domain_filter("https://notexample.com/x", &ignore));
    assert!(domain_filter("https://example.com.evil.org/x", &ignore));
    // no host at all: kept
    assert!(domain_filter("ftp://example.com/x", &ignore));
    assert!(domain_filter("https:///x", &ignore));
    assert!(domain_filter("https://example.com/x", &[]));
}

#[test]
fn test_config_defaults() {
    let config = ClipboardConfig::default();
    assert!(config.enabled);
    assert!(config.capture_urls);
    assert!(!config.capture_text);
    assert_eq!(config.poll_interval_ms, 500);
    assert_eq!(
        config.ignore_domains,
        vec![
            "localhost".to_string(),
            "mail.google.com".to_string(),
            "accounts.google.com".to_string(),
        ]
    );
}

#[test]
fn defaults_of_the_settings() {
    assert!(default_true());
    assert_eq!(default_poll_interval(), 500);
    assert!(BrainConfig::default().clipboard.is_none());
}

#[test]
fn test_filter_pipeline() {
    let config = ClipboardConfig::default();
    let pending: Vec<InboxEntry> = Vec::new();

    // A valid URL passes the pipeline
    let result = run_filter_pipeline(
        "Check out this link: https://example.com/article/123",
        &config,
        &pending,
        NOW,
    );
    assert_eq!(result, Some("https://example.com/article/123".to_string()));

    // Short text is dropped
    let result = run_filter_pipeline("short", &config, &pending, NOW);
    assert!(result.is_none());

    // Code is dropped
    let result = run_filter_pipeline(
        "fn main() { println!(\"hello\"); } and some more text to pass length",
        &config,
        &pending,
        NOW,
    );
    assert!(result.is_none());

    // Text without a URL is dropped
    let result = run_filter_pipeline(
        "This is just some regular text without any URL in it at all",
        &config,
        &pending,
        NOW,
    );
    assert!(result.is_none());

    // Ignored domain is dropped
    let result = run_filter_pipeline(
        "Check this out: https://mail.google.com/inbox/message/12345",
        &config,
        &pending,
        NOW,
    );
    assert!(result.is_none());
}

#[test]
fn filter_pipeline_drops_tokens() {
    let config = ClipboardConfig::default();
    // a URL without whitespace around it, of high entropy
    let token = "https://x.example/aB3$xZ9!qW7&mK2@pL5rT8#vN4%dE6";
    assert!(length_check(token));
    assert!(!entropy_check(token));
    assert_eq!(run_filter_pipeline(token, &config, &[], NOW), None);
    assert_eq!(find_candidate(token, &config), None);
}

#[test]
fn filter_pipeline_forgets_a_url_after_a_day() {
    let config = ClipboardConfig::default();
    let text = "Check out this link: https://example.com/article/123";
    let url = "https://example.com/article/123";
    let first = NOW;

    let none: Vec<InboxEntry> = Vec::new();
    assert_eq!(run_filter_pipeline(text, &config, &none, first), Some(url.to_string()));

    let pending = vec![pending_with(url, first)];
    // at once, an hour later and exactly a day later: turned away
    assert_eq!(run_filter_pipeline(text, &config, &pending, first), None);
    let hour = Timestamp { seconds: first.seconds + 3_600, nanos: 0 };
    assert_eq!(run_filter_pipeline(text, &config, &pending, hour), None);
    let day = Timestamp { seconds: first.seconds + 86_400, nanos: 0 };
    assert_eq!(run_filter_pipeline(text, &config, &pending, day), None);
    // a nanosecond after the day: let through again
    let after = Timestamp { seconds: first.seconds + 86_400, nanos: 1 };
    assert_eq!(run_filter_pipeline(text, &config, &pending, after), Some(url.to_string()));
}

#[test]
fn dedup_check_window_and_source() {
    let url = "https://example.com/a";
    let pending = vec![
        pending_with("https://example.com/b", NOW),
        pending_with(url, Timestamp { seconds: NOW.seconds - 86_400, nanos: 5 }),
    ];
    assert!(dedup_check("https://example.com/c", &pending, NOW));
    assert!(!dedup_check("https://example.com/b", &pending, NOW));
    // captured a day ago and five nanoseconds into that second
    assert!(!dedup_check(url, &pending, Timestamp { seconds: NOW.seconds, nanos: 5 }));
    assert!(dedup_check(url, &pending, Timestamp { seconds: NOW.seconds, nanos: 6 }));
    // an item captured after the time of asking is outside the window
    assert!(dedup_check(
        "https://example.com/b",
        &pending,
        Timestamp { seconds: NOW.seconds - 1, nanos: 0 }
    ));
    // no source: never a duplicate
    let mut plain = pending_with(url, NOW);
    plain.item.source = None;
    assert!(dedup_check(url, &[plain], NOW));
}

#[test]
fn stages_taken_apart() {
    let ignore = default_ignore_domains();
    assert_eq!(keep_url(None, &ignore), None);
    assert_eq!(
        keep_url(Some("https://example.com/x".to_string()), &ignore),
        Some("https://example.com/x".to_string())
    );
    assert_eq!(keep_url(Some("https://localhost/x".to_string()), &ignore), None);
    assert_eq!(admit_url(None, &[], NOW), None);
    let pending = vec![pending_with("https://example.com/x", NOW)];
    assert_eq!(admit_url(Some("https://example.com/x".to_string()), &pending, NOW), None);
    assert_eq!(
        admit_url(Some("https://example.com/y".to_string()), &pending, NOW),
        Some("https://example.com/y".to_string())
    );
}

#[test]
fn test_extract_host() {
    assert_eq!(
        extract_host("https://example.com/path"),
        Some("example.com".to_string())
    );
    assert_eq!(
        extract_host("http://localhost:8080/api"),
        Some("localhost".to_string())
    );
    assert_eq!(
        extract_host("https://sub.domain.com"),
        Some("sub.domain.com".to_string())
    );
    assert_eq!(extract_host("not-a-url"), None);
}

#[test]
fn extract_host_edges() {
    assert_eq!(extract_host("https://"), None);
    assert_eq!(extract_host("https:///path"), None);
    assert_eq!(extract_host("http://:80"), None);
    assert_eq!(extract_host("https://a:b/c"), Some("a".to_string()));
    assert_eq!(extract_host("https://a/b:c"), Some("a".to_string()));
    assert_eq!(extract_host("HTTPS://example.com"), None);
    assert_eq!(extract_host("http://münchen.example/x"), Some("münchen.example".to_string()));
}

#[test]
fn test_pid_file_path() {
    let path = pid_file_path("/tmp/brain");
    assert_eq!(path, "/tmp/brain/.nugget/clipboard.pid");
}

#[test]
fn monitor_turns() {
    let config = ClipboardConfig::default();
    let mut monitor = ClipboardMonitor::new(config, BrainStore::new("/tmp/brain"));
    assert!(monitor.running_flag());
    assert_eq!(monitor.poll_interval_ms(), 500);
    assert_eq!(monitor.store().root, "/tmp/brain");

    // nothing could be read
    assert!(monitor.step(None, &[], NOW).is_none());
    // a new text with a URL
    let text = "Check out this link: https://example.com/article/123";
    let item = monitor.step(Some(text), &[], NOW).unwrap();
    assert_eq!(item.body, "https://example.com/article/123");
    assert_eq!(item.source.as_deref(), Some("https://example.com/article/123"));
    assert_eq!(item.knowledge_type, KnowledgeType::Concept);
    assert_eq!(item.capture_method, CaptureMethod::ClipboardUrl);
    assert_eq!(item.suggested_domain.0, "inbox");
    assert_eq!(item.confidence, Confidence(500_000));
    assert!(item.tags.is_empty());
    assert_eq!(item.captured_at, NOW);
    assert_eq!(item.id.len(), 36);
    // the same text again: nothing
    assert!(monitor.step(Some(text), &[], NOW).is_none());
    // another text without a URL, then the first again
    assert!(monitor.step(Some("nothing to see here, move along"), &[], NOW).is_none());
    assert!(monitor.step(Some(text), &[], NOW).is_some());

    assert!(!monitor.observe(Some(text)));
    assert!(monitor.observe(Some("other")));
    assert!(!monitor.observe(None));

    monitor.stop();
    assert!(!monitor.running_flag());
}

#[test]
fn monitor_turn_in_two_parts() {
    let config = ClipboardConfig::default();
    let mut monitor = ClipboardMonitor::new(config, BrainStore::new("/tmp/brain"));
    assert_eq!(monitor.offer(None), None);
    assert_eq!(monitor.offer(Some("short")), None);
    let text = "Check out this link: https://example.com/article/123";
    let url = monitor.offer(Some(text)).unwrap();
    assert_eq!(url, "https://example.com/article/123");
    // the same text again offers nothing
    assert_eq!(monitor.offer(Some(text)), None);
    assert_eq!(
        monitor.offer(Some("Check this out: https://mail.google.com/inbox/message/12345")),
        None
    );

    let item = monitor.stage(url.clone(), &[], NOW).unwrap();
    assert_eq!(item.body, url);
    assert_eq!(item.source.as_deref(), Some(url.as_str()));
    assert_eq!(item.captured_at, NOW);
    assert_eq!(item.id.len(), 36);
    let pending = vec![pending_with(&url, NOW)];
    assert!(monitor.stage(url.clone(), &pending, NOW).is_none());
    let later = Timestamp { seconds: NOW.seconds + 86_401, nanos: 0 };
    assert!(monitor.stage(url, &pending, later).is_some());
}

#[test]
fn entropy_of_the_empty_text_and_of_no_fraction() {
    assert_eq!(entropy_against("", 0, 1), Some(Level::Equal));
    assert_eq!(entropy_against("", 1, 1), Some(Level::Below));
    assert_eq!(entropy_against("", 9, 2), Some(Level::Below));
    assert_eq!(entropy_against("", 0, 7), Some(Level::Equal));
    assert_eq!(entropy_against("a", 1, 1000), Some(Level::Below));
    assert_eq!(entropy_against("aabb", 1, 0), None);
    assert_eq!(entropy_against("", 0, 0), None);
}
