use nugget::capture::{
    capture_from_conversation, capture_from_text, capture_from_url, domain_for_lowered,
    suggest_domain,
};
use nugget::model::{CaptureMethod, Confidence, KnowledgeType};

#[test]
fn test_capture_from_conversation() {
    let learnings = vec![
        "Rust ownership prevents data races".to_string(),
        "Lifetimes track reference validity".to_string(),
    ];
    let decisions = vec!["Use Arc<Mutex<T>> for shared state".to_string()];

    let items = capture_from_conversation(
        "Discussed Rust concurrency",
        &learnings,
        &decisions,
        Some("rust programming session"),
    );

    assert_eq!(items.len(), 3);

    // First two should be Pattern (learnings)
    assert_eq!(items[0].knowledge_type, KnowledgeType::Pattern);
    assert_eq!(items[1].knowledge_type, KnowledgeType::Pattern);
    // Last should be Decision
    assert_eq!(items[2].knowledge_type, KnowledgeType::Decision);

    // All should have coding/rust domain because context contains "rust"
    assert_eq!(items[0].suggested_domain.0, "coding/rust");
    for item in &items {
        assert_eq!(item.capture_method, CaptureMethod::AiSession);
        assert_eq!(item.capture_context.as_deref(), Some("Discussed Rust concurrency"));
        assert_eq!(item.source.as_deref(), Some("rust programming session"));
        assert_eq!(item.confidence, Confidence(700_000));
        assert_eq!(item.id.len(), 36);
    }
    assert_eq!(items[1].body, "Lifetimes track reference validity");
    assert_eq!(items[2].body, "Use Arc<Mutex<T>> for shared state");
    assert_ne!(items[0].id, items[1].id);
}

#[test]
fn capture_from_conversation_without_context() {
    let items = capture_from_conversation("s", &[], &["d".to_string()], None);
    assert_eq!(items.len(), 1);
    assert_eq!(items[0].suggested_domain.0, "general");
    assert!(items[0].source.is_none());
    assert!(capture_from_conversation("s", &[], &[], None).is_empty());
}

#[test]
fn test_capture_from_url() {
    let tags = vec!["rust".to_string(), "async".to_string()];

    let item = capture_from_url(
        "https://example.com/article",
        "Understanding Async Rust",
        "A deep dive into async/await in Rust.",
        &tags,
        Some("coding/rust"),
    );

    assert_eq!(item.knowledge_type, KnowledgeType::Concept);
    assert_eq!(item.source.as_deref(), Some("https://example.com/article"));
    assert_eq!(item.tags.len(), 2);
    assert!(item.body.contains("# Understanding Async Rust"));
    assert!(item.body.contains("A deep dive into async/await in Rust."));
    assert_eq!(
        item.body,
        "# Understanding Async Rust\n\nA deep dive into async/await in Rust."
    );
    assert_eq!(item.tags[0].0, "rust");
    assert_eq!(item.tags[1].0, "async");
    assert_eq!(item.capture_method, CaptureMethod::WebCapture);
    assert_eq!(item.suggested_domain.0, "coding/rust");
    assert_eq!(capture_from_url("u", "t", "s", &[], None).suggested_domain.0, "general");
}

#[test]
fn test_capture_from_text() {
    let item = capture_from_text(
        "Always handle errors with Result<T, E>",
        Some("code review feedback"),
        Some("coding/rust"),
    );

    assert_eq!(item.knowledge_type, KnowledgeType::Concept);
    assert_eq!(item.capture_method, CaptureMethod::Manual);
    assert_eq!(item.source.as_deref(), Some("code review feedback"));
    assert_eq!(item.suggested_domain.0, "coding/rust");
    assert_eq!(item.body, "Always handle errors with Result<T, E>");
    let plain = capture_from_text("x", None, None);
    assert!(plain.source.is_none());
    assert_eq!(plain.suggested_domain.0, "general");
}

#[test]
fn test_suggest_domain() {
    assert_eq!(suggest_domain(Some("rust programming")).0, "coding/rust");
    assert_eq!(suggest_domain(Some("python scripts")).0, "coding/python");
    assert_eq!(
        suggest_domain(Some("javascript frameworks")).0,
        "coding/javascript"
    );
    assert_eq!(
        suggest_domain(Some("typescript types")).0,
        "coding/javascript"
    );
    assert_eq!(
        suggest_domain(Some("react components")).0,
        "coding/javascript"
    );
    assert_eq!(suggest_domain(Some("golang concurrency")).0, "coding/go");
    assert_eq!(suggest_domain(Some("random topic")).0, "general");
    assert_eq!(suggest_domain(None).0, "general");
}

#[test]
fn suggest_domain_case_and_go() {
    assert_eq!(suggest_domain(Some("RUST and Python")).0, "coding/rust");
    assert_eq!(suggest_domain(Some("PYTHON then react")).0, "coding/python");
    assert_eq!(suggest_domain(Some("Go routines")).0, "coding/go");
    assert_eq!(suggest_domain(Some("let us go now")).0, "coding/go");
    assert_eq!(suggest_domain(Some("here we go")).0, "coding/go");
    assert_eq!(suggest_domain(Some("going gopher ago")).0, "general");
    assert_eq!(suggest_domain(Some("go")).0, "general");
    assert_eq!(suggest_domain(Some("")).0, "general");
    // the lowered form is taken as it is
    assert_eq!(domain_for_lowered("RUST").0, "general");
    assert_eq!(domain_for_lowered("trust").0, "coding/rust");
}
