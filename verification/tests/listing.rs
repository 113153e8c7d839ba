use nugget::clipboard::{clipboard_settings, settings_are_blank, BrainConfig, ClipboardConfig};
use nugget::error::NuggetError;
use nugget::inbox::InboxEntry;
use nugget::model::{
    CaptureMethod, Domain, InboxItem, KnowledgeType, RelationType, Timestamp,
};
use nugget::order::{arrange, rank_of, stands_before};
use nugget::review::{choice_for_word, inbox_line, review_choice, ReviewChoice};
use nugget::store::{guard_path, list_domains, walk_knowledge_files, BrainStore, DirEntry};
use nugget::text::chars_of;

fn dir(name: &str) -> DirEntry {
    DirEntry { name: name.to_string(), is_dir: true, has_meta: false }
}

fn strings(names: &[&str]) -> Vec<String> {
    names.iter().map(|n| n.to_string()).collect()
}

#[test]
fn test_list_domains_empty() {
    let domains = list_domains(&[]);
    assert!(domains.is_empty());
}

#[test]
fn test_list_domains() {
    let entries = vec![dir("rust"), dir("python"), dir("architecture")];
    let domains = list_domains(&entries);
    assert_eq!(domains, vec!["architecture", "python", "rust"]);
}

#[test]
fn list_domains_of_a_store() {
    let store = BrainStore::new("/brain");
    let entries = vec![
        DirEntry { name: "zeta".to_string(), is_dir: true, has_meta: true },
        DirEntry { name: "inbox".to_string(), is_dir: true, has_meta: false },
        DirEntry { name: "brain.yaml".to_string(), is_dir: false, has_meta: false },
        DirEntry { name: "alpha".to_string(), is_dir: true, has_meta: true },
        DirEntry { name: "odd".to_string(), is_dir: false, has_meta: true },
        DirEntry { name: "Beta".to_string(), is_dir: true, has_meta: true },
    ];
    assert_eq!(store.list_domains(&entries), vec!["Beta", "alpha", "zeta"]);
    assert_eq!(list_domains(&entries), vec!["Beta", "alpha", "inbox", "zeta"]);
    assert!(store.list_domains(&[]).is_empty());
}

#[test]
fn test_walk_knowledge_files() {
    let files = strings(&[
        "/brain/domains/rust/error-handling.md",
        "/brain/domains/rust/ownership.md",
        "/brain/domains/python/decorators.md",
        // Non-md file should be ignored
        "/brain/domains/rust/notes.txt",
    ]);
    let found = walk_knowledge_files(&files);
    assert_eq!(found.len(), 3);
    assert!(found.iter().all(|f| f.ends_with(".md")));
    assert_eq!(
        found,
        vec![
            "/brain/domains/python/decorators.md",
            "/brain/domains/rust/error-handling.md",
            "/brain/domains/rust/ownership.md"
        ]
    );
}

#[test]
fn test_count_knowledge() {
    let store = BrainStore::new("/brain");
    assert_eq!(store.count_knowledge(&[]), 0);
    assert_eq!(store.count_knowledge(&strings(&["/brain/coding/domain.yaml"])), 0);
    let files = strings(&["/brain/coding/domain.yaml", "/brain/coding/test.md"]);
    assert_eq!(store.count_knowledge(&files), 1);
}

#[test]
fn order_of_paths_goes_by_component() {
    let files = strings(&["/d/a-b/y.md", "/d/a/x.md", "/d/a.md", "/d/a/x.md", "/d/a"]);
    let as_paths = walk_knowledge_files(&files);
    let mut expected: Vec<std::path::PathBuf> = files
        .iter()
        .filter(|f| f.ends_with(".md"))
        .map(std::path::PathBuf::from)
        .collect();
    expected.sort();
    let expected: Vec<String> =
        expected.iter().map(|p| p.to_string_lossy().to_string()).collect();
    assert_eq!(as_paths, expected);
    assert_eq!(as_paths, vec!["/d/a/x.md", "/d/a/x.md", "/d/a-b/y.md", "/d/a.md"]);
    // the order of names goes by code point
    let mut names = strings(&["b", "a/x", "a-b", "", "a", "é", "B", "ab"]);
    let arranged = arrange(names.clone(), false);
    names.sort();
    assert_eq!(arranged, names);
    assert!(stands_before(&chars_of("a/x"), &chars_of("a-b"), true));
    assert!(!stands_before(&chars_of("a/x"), &chars_of("a-b"), false));
    assert!(!stands_before(&chars_of("a"), &chars_of("a"), false));
    assert!(stands_before(&chars_of(""), &chars_of("a"), false));
    assert!(!stands_before(&chars_of("a"), &chars_of(""), false));
    assert_eq!(rank_of('/', true), -1);
    assert_eq!(rank_of('/', false), 47);
    assert_eq!(rank_of('\u{10ffff}', true), 0x10ffff);
}

#[test]
fn reading_is_kept_within_the_store() {
    let store = BrainStore::new("/brain");
    assert_eq!(store.requested_path("coding/a.md"), "/brain/coding/a.md");
    assert!(guard_path("/brain/coding/a.md", "/brain").is_ok());
    match guard_path("/etc/passwd", "/brain") {
        Err(NuggetError::PathTraversalDenied { path }) => assert_eq!(path, "/etc/passwd"),
        other => panic!("{:?}", other),
    }
    assert!(guard_path("/brain-other/a.md", "/brain").is_err());
}

#[test]
fn names_of_kinds() {
    for kind in [
        KnowledgeType::Concept,
        KnowledgeType::Pattern,
        KnowledgeType::Decision,
        KnowledgeType::Bug,
        KnowledgeType::Belief,
    ] {
        assert_eq!(KnowledgeType::from_name(&kind.to_string()), Some(kind));
    }
    for method in [
        CaptureMethod::ClipboardUrl,
        CaptureMethod::ClipboardText,
        CaptureMethod::AiSession,
        CaptureMethod::WebCapture,
        CaptureMethod::Manual,
        CaptureMethod::Import,
    ] {
        assert_eq!(CaptureMethod::from_name(&method.to_string()), Some(method));
    }
    for relation in [
        RelationType::Uses,
        RelationType::Implements,
        RelationType::RequiresUnderstandingOf,
        RelationType::InformedBy,
        RelationType::OftenCombinedWith,
    ] {
        assert_eq!(RelationType::from_name(&relation.to_string()), Some(relation));
    }
    assert_eq!(RelationType::OftenCombinedWith.to_string(), "often_combined_with");
    assert_eq!(RelationType::RequiresUnderstandingOf.to_string(), "requires_understanding_of");
    assert_eq!(KnowledgeType::from_name("Concept"), None);
    assert_eq!(KnowledgeType::from_name(""), None);
    assert_eq!(CaptureMethod::from_name("clipboard_url"), None);
    assert_eq!(RelationType::from_name("uses "), None);
}

#[test]
fn answers_of_a_review() {
    assert_eq!(review_choice("a"), ReviewChoice::Accept);
    assert_eq!(review_choice("  Accept\n"), ReviewChoice::Accept);
    assert_eq!(review_choice("R"), ReviewChoice::Reject);
    assert_eq!(review_choice("reject"), ReviewChoice::Reject);
    assert_eq!(review_choice("q\n"), ReviewChoice::Quit);
    assert_eq!(review_choice("QUIT"), ReviewChoice::Quit);
    assert_eq!(review_choice(""), ReviewChoice::Skip);
    assert_eq!(review_choice("s"), ReviewChoice::Skip);
    assert_eq!(review_choice("yes"), ReviewChoice::Skip);
    assert_eq!(review_choice("a b"), ReviewChoice::Skip);
    assert_eq!(choice_for_word("A"), ReviewChoice::Skip);
    assert_eq!(choice_for_word("quit"), ReviewChoice::Quit);
}

#[test]
fn lines_of_a_listing() {
    let item = InboxItem::with_identity(
        "id".to_string(),
        Timestamp { seconds: 0, nanos: 0 },
        KnowledgeType::Pattern,
        Domain("coding/rust".to_string()),
        CaptureMethod::AiSession,
        "First line\nsecond".to_string(),
    );
    let mut entry = InboxEntry { item, path: "p".to_string() };
    assert_eq!(inbox_line(3, &entry), "  [3] pattern | ai-session | coding/rust | First line");
    entry.item.body = String::new();
    assert_eq!(inbox_line(12, &entry), "  [12] pattern | ai-session | coding/rust | (empty)");
    entry.item.body = "\nlater".to_string();
    assert_eq!(inbox_line(0, &entry), "  [0] pattern | ai-session | coding/rust | ");
    entry.item.body = "y".repeat(81);
    assert_eq!(
        inbox_line(1, &entry),
        format!("  [1] pattern | ai-session | coding/rust | {}...", "y".repeat(77))
    );
}

#[test]
fn settings_files() {
    assert!(settings_are_blank(""));
    assert!(settings_are_blank("  \n\t"));
    assert!(settings_are_blank("# Nugget brain configuration\n"));
    assert!(settings_are_blank("\n  # comment\nclipboard:\n"));
    assert!(!settings_are_blank("clipboard:\n  enabled: false\n"));
    assert!(!settings_are_blank("version: 1 # comment\n"));
    let defaults = clipboard_settings(BrainConfig::default());
    assert_eq!(defaults.poll_interval_ms, 500);
    assert!(defaults.enabled);
    let given = ClipboardConfig {
        enabled: false,
        capture_urls: false,
        capture_text: true,
        poll_interval_ms: 9,
        ignore_domains: vec!["x.example".to_string()],
    };
    let kept = clipboard_settings(BrainConfig { clipboard: Some(given) });
    assert_eq!(kept.poll_interval_ms, 9);
    assert!(!kept.enabled && !kept.capture_urls && kept.capture_text);
    assert_eq!(kept.ignore_domains, vec!["x.example"]);
}
