use nugget::import::{
    clean_notion_title, dash_spaces, extract_title, import_notion, item_for_page,
    suggest_domain_from_path, ExportFile, PageOutcome,
};
use nugget::model::{CaptureMethod, KnowledgeType, Timestamp};

const T0: Timestamp = Timestamp { seconds: 1_771_936_496, nanos: 0 };

#[test]
fn test_clean_notion_title() {
    assert_eq!(
        clean_notion_title("My Page a1b2c3d4e5f6a1b2c3d4e5f6a1b2c3d4"),
        "My Page"
    );
    assert_eq!(clean_notion_title("Simple Title"), "Simple Title");
    // Exact 32 hex chars after a space
    assert_eq!(
        clean_notion_title("Doc aabbccdd112233445566778899001122"),
        "Doc"
    );
    // Not 32 hex chars — no change
    assert_eq!(clean_notion_title("Doc aabb"), "Doc aabb");
}

#[test]
fn test_suggest_domain_from_path() {
    let root = "/export";

    assert_eq!(suggest_domain_from_path("/export/page.md", root), "imported");
    assert_eq!(
        suggest_domain_from_path("/export/Work/page.md", root),
        "imported/work"
    );
    assert_eq!(
        suggest_domain_from_path("/export/Work/Engineering/page.md", root),
        "imported/work/engineering"
    );
    // Notion UUID folders get cleaned
    assert_eq!(
        suggest_domain_from_path(
            "/export/Work aabbccdd112233445566778899001122/page.md",
            root
        ),
        "imported/work"
    );
}

#[test]
fn suggest_domain_from_path_edges() {
    assert_eq!(
        suggest_domain_from_path("/export/My Notes/Deep Work/page.md", "/export/"),
        "imported/my-notes/deep-work"
    );
    // a file outside the export
    assert_eq!(suggest_domain_from_path("/other/Work/page.md", "/export"), "imported");
    assert_eq!(suggest_domain_from_path("export/Work/page.md", "/export"), "imported");
    assert_eq!(suggest_domain_from_path("Work/page.md", ""), "imported/work");
    assert_eq!(suggest_domain_from_path("", "/export"), "imported");
    assert_eq!(suggest_domain_from_path("/export", "/export"), "imported");
    assert_eq!(dash_spaces("a b  c"), vec!['a', '-', 'b', '-', '-', 'c']);
}

#[test]
fn test_extract_title() {
    assert_eq!(
        extract_title("# My Great Page\n\nSome content", "fallback"),
        "My Great Page"
    );
    assert_eq!(
        extract_title(
            "No heading here\nJust text",
            "My File a1b2c3d4e5f6a1b2c3d4e5f6a1b2c3d4"
        ),
        "My File"
    );
    assert_eq!(
        extract_title("## Not an h1\nContent", "Default Title"),
        "Default Title"
    );
    // Blank heading falls through to filename
    assert_eq!(extract_title("# \n\nContent", "Filename"), "Filename");
}

#[test]
fn extract_title_edges() {
    assert_eq!(extract_title("text\n   #   Spaced  Out   \r\nmore", "f"), "Spaced  Out");
    assert_eq!(extract_title("# \n# Second\n# Third", "f"), "Second");
    assert_eq!(extract_title("#NoSpace\n", "f"), "f");
    assert_eq!(extract_title("", "f"), "f");
    assert_eq!(extract_title("text\n# Last", "f"), "Last");
}

#[test]
fn test_import_notion() {
    let export_dir = "/tmp/x/notion-export";
    let file = |name: &str, content: &str| ExportFile {
        path: format!("{}/{}", export_dir, name),
        content: Some(content.to_string()),
    };
    let files = vec![
        // Page with heading
        file(
            "Getting Started aabbccdd112233445566778899001122.md",
            "# Getting Started\n\nThis is a guide to getting started with Notion.\n",
        ),
        // Nested page
        file(
            "Work/Engineering/Rust Notes.md",
            "# Rust Notes\n\nOwnership, borrowing, and lifetimes are key concepts.\n",
        ),
        // Page without heading (falls back to filename)
        file(
            "Work/Quick Thoughts.md",
            "Just some random thoughts about the project direction.\n",
        ),
        // Empty page (should be skipped)
        file("Empty.md", ""),
    ];

    let import = import_notion(export_dir, &files);
    assert_eq!(import.summary.imported, 3);
    assert_eq!(import.summary.skipped, 1);

    let items: Vec<_> = import
        .outcomes
        .iter()
        .filter_map(|o| match o {
            PageOutcome::Imported(item) => Some(item),
            _ => None,
        })
        .collect();
    assert_eq!(items.len(), 3);

    // Check that domains were derived from folder structure
    let domains: Vec<String> = items.iter().map(|i| i.suggested_domain.0.clone()).collect();
    assert!(domains.contains(&"imported".to_string()));
    assert!(domains.contains(&"imported/work".to_string()));
    assert!(domains.contains(&"imported/work/engineering".to_string()));

    // All should be Import capture method
    for item in &items {
        assert_eq!(item.capture_method, CaptureMethod::Import);
        assert!(item.source.as_ref().unwrap().starts_with("notion:"));
    }
    assert_eq!(
        items[2].body,
        "# Quick Thoughts\n\nJust some random thoughts about the project direction.\n"
    );
    assert_eq!(items[2].source.as_deref(), Some("notion:Work/Quick Thoughts.md"));
    assert_eq!(items[0].body, "# Getting Started\n\n# Getting Started\n\nThis is a guide to getting started with Notion.\n");
}

#[test]
fn import_outcomes_file_by_file() {
    let files = vec![
        ExportFile { path: "/e/a.txt".to_string(), content: Some("long enough text".to_string()) },
        ExportFile { path: "/e/b.md".to_string(), content: None },
        ExportFile { path: "/e/c.md".to_string(), content: Some("  123456789  ".to_string()) },
        ExportFile { path: "/e/d.md".to_string(), content: Some(" 1234567890 ".to_string()) },
        ExportFile { path: "/e/e.png".to_string(), content: None },
    ];
    let import = import_notion("/e", &files);
    assert_eq!(import.outcomes.len(), 5);
    assert!(matches!(import.outcomes[0], PageOutcome::Ignored));
    assert!(matches!(import.outcomes[1], PageOutcome::Skipped));
    assert!(matches!(import.outcomes[2], PageOutcome::Skipped));
    assert!(matches!(import.outcomes[3], PageOutcome::Imported(_)));
    assert!(matches!(import.outcomes[4], PageOutcome::Ignored));
    assert_eq!((import.summary.imported, import.summary.skipped), (1, 2));
    let empty = import_notion("/e", &[]);
    assert_eq!((empty.summary.imported, empty.summary.skipped), (0, 0));
}

#[test]
fn page_item_fields() {
    let item = item_for_page(
        "id-7".to_string(),
        T0,
        "/e/Area 51/Plan aabbccdd112233445566778899001122.md",
        "no heading in here",
        "/e",
    );
    assert_eq!(item.id, "id-7");
    assert_eq!(item.captured_at, T0);
    assert_eq!(item.knowledge_type, KnowledgeType::Concept);
    assert_eq!(item.suggested_domain.0, "imported/area-51");
    assert_eq!(item.body, "# Plan\n\nno heading in here");
    assert_eq!(
        item.source.as_deref(),
        Some("notion:Area 51/Plan aabbccdd112233445566778899001122.md")
    );
    assert!(item.tags.is_empty());
    assert!(item.capture_context.is_none());
}

#[test]
fn import_counts_the_bytes_of_a_page() {
    let page = |content: &str| ExportFile {
        path: "/e/p.md".to_string(),
        content: Some(content.to_string()),
    };
    let staged = |content: &str| {
        let import = import_notion("/e", &[page(content)]);
        assert_eq!(import.summary.imported + import.summary.skipped, 1);
        assert_eq!(import.summary.imported == 1, content.trim().len() >= 10, "{:?}", content);
        import.summary.imported == 1
    };
    // five letters of two bytes each: ten bytes
    assert!(staged("ééééé"));
    assert!(staged("  ééééé\n"));
    // four letters of two bytes and one of one: nine bytes
    assert!(!staged("éééée"));
    // three characters of three bytes and one of one; two of four and one of two
    assert!(staged("日本語a"));
    assert!(!staged("日本語"));
    assert!(staged("𝄞𝄞é"));
    assert!(!staged("𝄞𝄞a"));
    assert!(staged("1234567890"));
    assert!(!staged(" 123456789 "));
    // whitespace of more than one byte is set aside as well
    assert!(!staged("\u{3000}123456789\u{a0}"));
}

#[test]
fn imported_items_have_times_in_the_order_of_the_pages() {
    let files: Vec<ExportFile> = (0..5)
        .map(|n| ExportFile {
            path: format!("/e/page-{}.md", n),
            content: Some(format!("content of page {}", n)),
        })
        .collect();
    let import = import_notion("/e", &files);
    let times: Vec<(i64, u32)> = import
        .outcomes
        .iter()
        .filter_map(|o| match o {
            PageOutcome::Imported(item) => {
                Some((item.captured_at.seconds, item.captured_at.nanos))
            }
            _ => None,
        })
        .collect();
    assert_eq!(times.len(), 5);
    assert!(times[0].0 > 1_700_000_000);
    let mut sorted = times.clone();
    sorted.sort();
    assert_eq!(times, sorted);
}
