use nugget::error::NuggetError;
use nugget::frontmatter::{find_closing_fence, render_file, split_frontmatter};
use nugget::model::{DEFAULT_UNIT_CONFIDENCE, FULL_CONFIDENCE};

fn sample_markdown() -> &'static str {
    "---
id: pattern-error-handling-rust
type: pattern
domain: rust
tags:
  - error-handling
  - result-type
confidence: 0.9
source: direct-experience
related:
  - id: concept-option-type
    relation: often_combined_with
created: 2026-02-24
last_modified: 2026-02-24
---

# Error Handling in Rust

Use `Result<T, E>` for all fallible operations.

## Key Points

- Never use `unwrap()` in production code
- Use `thiserror` for library error types
"
}

fn decode(header: &str) -> serde_yaml::Value {
    serde_yaml::from_str(header).unwrap()
}

fn texts(value: &serde_yaml::Value) -> Vec<String> {
    match value.as_sequence() {
        Some(items) => items.iter().filter_map(|i| i.as_str().map(String::from)).collect(),
        None => Vec::new(),
    }
}

#[test]
fn test_parse_well_formed() {
    let (header, body) = split_frontmatter(sample_markdown(), "test.md").unwrap();
    let unit = decode(&header);
    assert_eq!(unit["id"].as_str(), Some("pattern-error-handling-rust"));
    assert_eq!(unit["type"].as_str(), Some("pattern"));
    assert_eq!(unit["domain"].as_str(), Some("rust"));
    assert_eq!(texts(&unit["tags"]), vec!["error-handling", "result-type"]);
    assert_eq!(unit["confidence"].as_f64(), Some(0.9));
    assert!(body.contains("# Error Handling in Rust"));
    assert!(header.starts_with("id: pattern-error-handling-rust\ntype: pattern\ndomain: rust\n"));
    assert!(header.ends_with("last_modified: 2026-02-24\n"));
    assert!(body.starts_with("# Error Handling in Rust\n"));
}

#[test]
fn test_round_trip() {
    let (header, body) = split_frontmatter(sample_markdown(), "test.md").unwrap();
    let original = decode(&header);
    let serialized = render_file(&header, &body);
    assert_eq!(serialized, sample_markdown());
    let (header_again, body_again) = split_frontmatter(&serialized, "test.md").unwrap();
    let reparsed = decode(&header_again);

    assert_eq!(original["id"], reparsed["id"]);
    assert_eq!(original["type"], reparsed["type"]);
    assert_eq!(original["domain"], reparsed["domain"]);
    assert_eq!(original["tags"], reparsed["tags"]);
    assert_eq!(original["confidence"], reparsed["confidence"]);
    assert_eq!(original["source"], reparsed["source"]);
    assert_eq!(original["related"], reparsed["related"]);
    assert_eq!(original["created"], reparsed["created"]);
    assert_eq!(original["last_modified"], reparsed["last_modified"]);
    assert_eq!(body, body_again);
    assert_eq!(header, header_again);
}

#[test]
fn round_trip_settles_the_end_of_the_body() {
    let header = "id: a\ntype: concept\n";
    // a body without a line feed at its end gets one
    let file = render_file(header, "Some text");
    assert_eq!(file, "---\nid: a\ntype: concept\n---\n\nSome text\n");
    assert_eq!(
        split_frontmatter(&file, "a.md").unwrap(),
        (header.to_string(), "Some text\n".to_string())
    );
    // a body that has one is kept as it is
    let file = render_file(header, "Some text\n");
    assert_eq!(file, "---\nid: a\ntype: concept\n---\n\nSome text\n");
    assert_eq!(
        split_frontmatter(&file, "a.md").unwrap(),
        (header.to_string(), "Some text\n".to_string())
    );
    // an empty body, and an empty header
    let file = render_file(header, "");
    assert_eq!(file, "---\nid: a\ntype: concept\n---\n");
    assert_eq!(split_frontmatter(&file, "a.md").unwrap(), (header.to_string(), String::new()));
    let file = render_file("", "x");
    assert_eq!(file, "---\n---\n\nx\n");
    assert_eq!(split_frontmatter(&file, "a.md").unwrap(), (String::new(), "x\n".to_string()));
    // a body that begins with an empty line loses it
    let file = render_file(header, "\nlate");
    assert_eq!(split_frontmatter(&file, "a.md").unwrap().1, "late\n");
}

#[test]
fn test_missing_frontmatter() {
    let input = "# Just a heading\n\nNo frontmatter here.";
    let result = split_frontmatter(input, "no-fm.md");
    assert!(result.is_err());
    let err = result.unwrap_err().to_string();
    assert!(err.contains("missing frontmatter"));
    assert_eq!(err, "missing frontmatter in no-fm.md");
}

#[test]
fn missing_fences() {
    for input in [
        "",
        "---",
        "---\n",
        "---\nid: a\n",
        "---\nid: a\n --- \n",
        "----\nid: a\n---\n",
        " ---\nid: a\n---\n",
        "\n---\nid: a\n---\n",
        "--- \nid: a\n---\n",
        "---\nid: a ---\n",
    ] {
        match split_frontmatter(input, "x.md") {
            Err(NuggetError::MissingFrontmatter { path }) => assert_eq!(path, "x.md"),
            other => panic!("{:?} gave {:?}", input, other),
        }
    }
}

#[test]
fn test_body_with_horizontal_rules() {
    let input = "---
id: test-hr
type: concept
domain: testing
created: 2026-01-01
last_modified: 2026-01-01
---

Some text before.

---

Some text after the horizontal rule.

---

More text after another rule.
";
    let (header, body) = split_frontmatter(input, "hr-test.md").unwrap();
    assert_eq!(decode(&header)["id"].as_str(), Some("test-hr"));
    assert!(body.contains("---"));
    assert!(body.contains("Some text before."));
    assert!(body.contains("Some text after the horizontal rule."));
    assert!(body.contains("More text after another rule."));
    assert_eq!(
        body,
        "Some text before.\n\n---\n\nSome text after the horizontal rule.\n\n---\n\nMore text after another rule.\n"
    );
}

#[test]
fn test_empty_body() {
    let input = "---\nid: empty-body\ntype: bug\ndomain: testing\ncreated: 2026-01-01\nlast_modified: 2026-01-01\n---\n";
    let (header, body) = split_frontmatter(input, "empty.md").unwrap();
    assert_eq!(decode(&header)["id"].as_str(), Some("empty-body"));
    assert!(body.is_empty());
}

#[test]
fn test_default_tags_and_relations() {
    let input = "---\nid: minimal\ntype: belief\ndomain: testing\ncreated: 2026-01-01\nlast_modified: 2026-01-01\n---\n\nMinimal body.\n";
    let (header, body) = split_frontmatter(input, "minimal.md").unwrap();
    let unit = decode(&header);
    assert!(texts(&unit["tags"]).is_empty());
    assert!(unit.get("related").is_none());
    let confidence = match unit.get("confidence").and_then(|c| c.as_f64()) {
        Some(given) => given,
        None => DEFAULT_UNIT_CONFIDENCE as f64 / FULL_CONFIDENCE as f64,
    };
    assert_eq!(confidence, 0.8); // default
    assert_eq!(body, "Minimal body.\n");
}

#[test]
fn closing_fence_lines() {
    assert_eq!(find_closing_fence("id: a\n---\nbody"), Some(6));
    assert_eq!(find_closing_fence("---\nbody"), Some(0));
    assert_eq!(find_closing_fence("id: a\n---- more\nbody"), Some(6));
    assert_eq!(find_closing_fence("id: a\n ---\nbody"), None);
    assert_eq!(find_closing_fence("id: a ---\n--"), None);
    assert_eq!(find_closing_fence(""), None);
    // the offset counts bytes
    assert_eq!(find_closing_fence("é: ü\n---"), Some(7));
    assert_eq!(find_closing_fence("é\n---"), Some(3));
    assert_eq!(find_closing_fence("日本語\n𝄞\n---\n"), Some(15));
    for content in ["id: a\n---\n", "é: ü\n---", "日本語\n𝄞\n---\n", "---"] {
        let offset = find_closing_fence(content).unwrap();
        assert!(content[offset..].starts_with("---"));
        assert!(offset == 0 || content.as_bytes()[offset - 1] == b'\n');
    }
    // the first of several
    assert_eq!(find_closing_fence("a\n---\nb\n---\n"), Some(2));
}

#[test]
fn closing_fence_line_with_more_on_it() {
    let (header, body) = split_frontmatter("---\nid: a\n--- end\n\n\nbody", "x.md").unwrap();
    assert_eq!(header, "id: a\n");
    assert_eq!(body, "body");
    // a closing fence without a line feed after it
    let (header, body) = split_frontmatter("---\nid: a\n---", "x.md").unwrap();
    assert_eq!(header, "id: a\n");
    assert_eq!(body, "");
    // lines of whitespace are not empty lines
    let (_, body) = split_frontmatter("---\n---\n\n \nbody", "x.md").unwrap();
    assert_eq!(body, " \nbody");
}

#[test]
fn lines_that_end_with_a_carriage_return() {
    let (header, body) =
        split_frontmatter("---\r\nid: a\r\ntype: bug\r\n---\r\nbody\r\n", "x.md").unwrap();
    assert_eq!(header, "id: a\r\ntype: bug\r\n");
    assert_eq!(body, "body\r\n");
    let (header, body) = split_frontmatter("---\r\n---\n\nbody", "x.md").unwrap();
    assert_eq!(header, "");
    assert_eq!(body, "body");
    // a carriage return alone ends no line
    assert!(split_frontmatter("---\rid: a\n---\n", "x.md").is_err());
    assert!(split_frontmatter("---\r\r\nid: a\n---\n", "x.md").is_err());
}
