use nugget::bignat::{BigNat, Level};
use nugget::error::NuggetError;
use nugget::model::{
    CaptureMethod, Confidence, Domain, InboxItem, KnowledgeType, KnowledgeUnit, Relation, Tag,
    Timestamp,
};
use nugget::clipboard::ClipboardMonitor;
use nugget::entropy::chars_entropy_against;
use nugget::paths::{extension_is, file_stem, join, leads_segments, path_within, split_path};
use nugget::store::join_segments;
use nugget::text::{
    byte_length, byte_length_until, char_width, chars_of, contains, ends_with, find, find_char, find_non_whitespace, find_trimmed_end,
    is_whitespace, matches_at, parse_u32, push_decimal, same_text, skip_char, string_of, substring,
    take_first_line, trim,
};

#[test]
fn chars_round_trip() {
    let v = chars_of("héllo\n");
    assert_eq!(v.len(), 6);
    assert_eq!(string_of(&v), "héllo\n");
    assert_eq!(substring(&v, 1, 4), "éll");
    assert_eq!(substring(&v, 2, 2), "");
}

#[test]
fn whitespace_is_that_of_the_standard_library() {
    assert!(is_whitespace(' '));
    assert!(is_whitespace('\n'));
    assert!(is_whitespace('\u{a0}'));
    assert!(is_whitespace('\u{3000}'));
    assert!(!is_whitespace('-'));
    assert!(!is_whitespace('a'));
    let mut n: u32 = 0;
    while n < 0x11_0000 {
        if let Some(c) = char::from_u32(n) {
            assert_eq!(is_whitespace(c), c.is_whitespace(), "{:x}", n);
        }
        n += 1;
    }
}

#[test]
fn searching() {
    let v = chars_of("abcabc\n\n x ");
    let abc = chars_of("bc");
    assert!(matches_at(&v, 1, &abc));
    assert!(!matches_at(&v, 0, &abc));
    assert!(!matches_at(&v, 10, &abc));
    assert!(!matches_at(&v, usize::MAX, &abc));
    assert!(matches_at(&v, 11, &Vec::new()));
    assert!(!matches_at(&v, 12, &Vec::new()));
    assert_eq!(find(&v, &abc, 0), Some(1));
    assert_eq!(find(&v, &abc, 2), Some(4));
    assert_eq!(find(&v, &abc, 5), None);
    assert_eq!(find(&v, &abc, 500), None);
    assert!(contains(&v, &abc));
    assert!(contains(&v, &Vec::new()));
    assert!(!contains(&v, &chars_of("cb")));
    assert!(!contains(&abc, &v));
    assert!(ends_with(&v, &chars_of("x ")));
    assert!(!ends_with(&v, &chars_of("x")));
    assert!(!ends_with(&abc, &v));
    assert!(same_text(&v, &chars_of("abcabc\n\n x ")));
    assert!(!same_text(&v, &abc));
    assert_eq!(find_char(&v, 'c', 0), 2);
    assert_eq!(find_char(&v, 'c', 3), 5);
    assert_eq!(find_char(&v, 'z', 0), 11);
    assert_eq!(skip_char(&v, '\n', 6), 8);
    assert_eq!(skip_char(&v, '\n', 0), 0);
    assert_eq!(skip_char(&v, '\n', 99), 11);
    assert_eq!(find_non_whitespace(&v, 6), 9);
    assert_eq!(find_trimmed_end(&v), 10);
    assert_eq!(find_trimmed_end(&chars_of(" \t")), 0);
}

#[test]
fn trimming_and_lines() {
    assert_eq!(string_of(&trim(&chars_of("  a b \n"))), "a b");
    assert_eq!(string_of(&trim(&chars_of(" \u{2003}\n"))), "");
    assert_eq!(string_of(&trim(&chars_of(""))), "");
    assert_eq!(string_of(&trim(&chars_of("x"))), "x");
    assert_eq!(string_of(&take_first_line(&chars_of("one\ntwo"))), "one");
    assert_eq!(string_of(&take_first_line(&chars_of("one\r\ntwo"))), "one");
    assert_eq!(string_of(&take_first_line(&chars_of("one\r"))), "one\r");
    assert_eq!(string_of(&take_first_line(&chars_of("\ntwo"))), "");
    assert_eq!(string_of(&take_first_line(&chars_of(""))), "");
}

#[test]
fn numbers() {
    let mut out = chars_of("n=");
    push_decimal(&mut out, 0);
    push_decimal(&mut out, 1234567890);
    assert_eq!(string_of(&out), "n=01234567890");
    let mut out = Vec::new();
    push_decimal(&mut out, usize::MAX);
    assert_eq!(string_of(&out), usize::MAX.to_string());
    assert_eq!(parse_u32("4242"), Some(4242));
    assert_eq!(parse_u32("  17\n"), Some(17));
    assert_eq!(parse_u32("+5"), Some(5));
    assert_eq!(parse_u32("007"), Some(7));
    assert_eq!(parse_u32("4294967295"), Some(u32::MAX));
    assert_eq!(parse_u32("4294967296"), None);
    assert_eq!(parse_u32("99999999999999999999999999"), None);
    assert_eq!(parse_u32("9999999999x"), None);
    assert_eq!(parse_u32(""), None);
    assert_eq!(parse_u32("+"), None);
    assert_eq!(parse_u32("-1"), None);
    assert_eq!(parse_u32("1 2"), None);
    assert_eq!(parse_u32("12a"), None);
    assert_eq!(parse_u32("١٢"), None);
    for text in ["0", "+0", "1", " 65535 ", "4294967295", "4294967296", "++1", "1+", "0x1f"] {
        assert_eq!(parse_u32(text), text.trim().parse::<u32>().ok(), "{:?}", text);
    }
}

#[test]
fn paths_as_text() {
    assert_eq!(join("/tmp/brain", "inbox"), "/tmp/brain/inbox");
    assert_eq!(join("/tmp/brain/", "inbox"), "/tmp/brain/inbox");
    assert_eq!(join("", "inbox"), "inbox");
    assert_eq!(join("/tmp/brain", "/abs"), "/abs");
    assert_eq!(join("/tmp/brain", ""), "/tmp/brain/");
    assert_eq!(join("a", "b/c"), "a/b/c");
    let parts: Vec<String> = split_path(&chars_of("//a/b c//d/")).iter().map(string_of).collect();
    assert_eq!(parts, vec!["a", "b c", "d"]);
    assert!(split_path(&chars_of("")).is_empty());
    assert!(split_path(&chars_of("///")).is_empty());
    assert!(path_within("/brain/coding/a.md", "/brain"));
    assert!(path_within("/brain", "/brain/"));
    assert!(!path_within("/brainy/a.md", "/brain"));
    assert!(!path_within("/etc/passwd", "/brain"));
    assert!(!path_within("brain/a.md", "/brain"));
    assert!(!path_within("/", "/brain"));
    assert!(path_within("/anything", "/"));
    assert!(extension_is("/a/b.md", "md"));
    assert!(extension_is("b.tar.md", "md"));
    assert!(!extension_is("/a/b.md/", "txt"));
    assert!(!extension_is("/a/.md", "md"));
    assert!(!extension_is("/a/bmd", "md"));
    assert!(!extension_is("", "md"));
    assert_eq!(file_stem("/a/b.md"), Some("b".to_string()));
    assert_eq!(file_stem("/a/b.tar.gz"), Some("b.tar".to_string()));
    assert_eq!(file_stem("/a/.hidden"), Some(".hidden".to_string()));
    assert_eq!(file_stem("/a/plain"), Some("plain".to_string()));
    assert_eq!(file_stem("/a/.."), None);
    assert_eq!(file_stem("/"), None);
    assert_eq!(file_stem("a."), Some("a".to_string()));
}

#[test]
fn big_numbers() {
    let mut a = BigNat::from_u64(u64::MAX);
    let b = BigNat::from_u64(u64::MAX);
    assert_eq!(a.level(&b), Level::Equal);
    a.mul_small(u64::MAX);
    assert_eq!(a.level(&b), Level::Above);
    assert_eq!(b.level(&a), Level::Below);
    // (2^64 - 1)^2 + 2 * (2^64 - 1) + 1 = 2^128
    let mut c = BigNat::from_u64(1);
    c.mul_power(2, 128);
    assert_eq!(a.level(&c), Level::Below);
    let mut d = BigNat::from_u64(1 << 32);
    d.mul_power(1 << 32, 3);
    assert_eq!(d.level(&c), Level::Equal);
    d.mul_small(0);
    assert_eq!(d.level(&BigNat::from_u64(0)), Level::Equal);
    assert_eq!(d.level(&BigNat::from_u64(1)), Level::Below);
    let mut e = BigNat::from_u64(3);
    e.mul_power(3, 0);
    assert_eq!(e.level(&BigNat::from_u64(3)), Level::Equal);
    e.mul_power(3, 40);
    let mut f = BigNat::from_u64(12157665459056928801);
    assert_eq!(f.level(&BigNat::from_u64(12157665459056928801)), Level::Equal);
    f.mul_small(3);
    assert_eq!(e.level(&f), Level::Equal);
}

#[test]
fn records() {
    assert_eq!(Confidence::new(-5), Confidence(0));
    assert_eq!(Confidence::new(0), Confidence(0));
    assert_eq!(Confidence::new(800_000), Confidence(800_000));
    assert_eq!(Confidence::new(1_000_000), Confidence(1_000_000));
    assert_eq!(Confidence::new(1_000_001), Confidence(1_000_000));
    assert_eq!(Confidence::new(i64::MAX), Confidence(1_000_000));
    assert_eq!(Confidence::new(i64::MIN), Confidence(0));

    assert_eq!(KnowledgeType::Concept.to_string(), "concept");
    assert_eq!(KnowledgeType::Pattern.to_string(), "pattern");
    assert_eq!(KnowledgeType::Decision.to_string(), "decision");
    assert_eq!(KnowledgeType::Bug.to_string(), "bug");
    assert_eq!(KnowledgeType::Belief.to_string(), "belief");
    assert_eq!(CaptureMethod::ClipboardUrl.to_string(), "clipboard-url");
    assert_eq!(CaptureMethod::ClipboardText.to_string(), "clipboard-text");
    assert_eq!(CaptureMethod::AiSession.to_string(), "ai-session");
    assert_eq!(CaptureMethod::WebCapture.to_string(), "web-capture");
    assert_eq!(CaptureMethod::Manual.to_string(), "manual");
    assert_eq!(CaptureMethod::Import.to_string(), "import");
    assert_eq!(Domain("coding/rust".to_string()).to_string(), "coding/rust");
    assert_eq!(Tag("t".to_string()).to_string(), "t");

    let earlier = Timestamp { seconds: 5, nanos: 999_999_999 };
    let later = Timestamp { seconds: 6, nanos: 0 };
    assert!(earlier.is_before(&later));
    assert!(!later.is_before(&earlier));
    assert!(!later.is_before(&later));
    assert!(Timestamp { seconds: -1, nanos: 0 }.is_before(&Timestamp { seconds: -1, nanos: 1 }));

    let unit = KnowledgeUnit::new(
        KnowledgeType::Concept,
        Domain("coding".to_string()),
        "Test body".to_string(),
    );
    assert_eq!(unit.id.len(), 36);
    assert_eq!(unit.confidence, Confidence(1_000_000));
    assert!(unit.tags.is_empty() && unit.related.is_empty() && unit.source.is_none());
    assert_ne!(
        unit.id,
        KnowledgeUnit::new(KnowledgeType::Concept, Domain(String::new()), String::new()).id
    );

    let mut item = InboxItem::new(
        KnowledgeType::Bug,
        Domain("ops".to_string()),
        CaptureMethod::Manual,
        "b".to_string(),
    );
    assert_eq!(item.id.len(), 36);
    assert!(item.id.chars().all(|c| c == '-' || c.is_ascii_hexdigit()));
    assert_eq!(item.confidence, Confidence(700_000));
    assert!(item.captured_at.seconds > 1_700_000_000);
    item.related = vec![Relation { target_id: "other".to_string(), kind: "uses".to_string() }];
    item.tags = vec![Tag("x".to_string())];
    let copy = item.clone();
    assert_eq!(copy.id, item.id);
    assert_eq!(copy.related, item.related);
    let filed = item.into_knowledge_unit(Domain("filed".to_string()));
    assert_eq!(filed.id, copy.id);
    assert_eq!(filed.domain.0, "filed");
    assert_eq!(filed.knowledge_type, KnowledgeType::Bug);
    assert_eq!(filed.tags, copy.tags);
    assert_eq!(filed.related, copy.related);
    assert_eq!(filed.body, "b");
    assert_eq!(filed.clone().body, "b");
}

#[test]
fn error_messages() {
    assert_eq!(
        NuggetError::Io { message: "disk".to_string() }.to_string(),
        "IO error: disk"
    );
    assert_eq!(
        NuggetError::Yaml { message: "bad".to_string() }.to_string(),
        "YAML parsing error: bad"
    );
    assert_eq!(
        NuggetError::MissingFrontmatter { path: "a.md".to_string() }.to_string(),
        "missing frontmatter in a.md"
    );
    assert_eq!(
        NuggetError::InvalidFrontmatter { path: "a.md".to_string(), reason: "no id".to_string() }
            .to_string(),
        "invalid frontmatter in a.md: no id"
    );
    assert_eq!(
        NuggetError::IndexOutOfRange { index: 12, count: 3 }.to_string(),
        "index 12 out of range (1-3)"
    );
    assert_eq!(
        NuggetError::DuplicateIndex { index: 2 }.to_string(),
        "index 2 given more than once"
    );
    assert_eq!(
        NuggetError::PathTraversalDenied { path: "../x".to_string() }.to_string(),
        "path traversal denied: ../x is outside the brain"
    );
}

#[test]
fn helpers_of_paths_and_counts() {
    let parts = split_path(&chars_of("/a/b/c"));
    let prefix = split_path(&chars_of("a/b"));
    assert!(leads_segments(&prefix, &parts, 3));
    assert!(leads_segments(&prefix, &parts, 2));
    assert!(!leads_segments(&prefix, &parts, 1));
    assert!(leads_segments(&Vec::new(), &parts, 0));
    assert!(!leads_segments(&parts, &prefix, 2));
    assert_eq!(string_of(&join_segments(&parts, 0)), "a/b/c");
    assert_eq!(string_of(&join_segments(&parts, 2)), "c");
    assert_eq!(string_of(&join_segments(&parts, 3)), "");
    // a: 5, b: 2, r: 2, c: 1, d: 1 of 11: 2.0403... bits
    let text = chars_of("abracadabra");
    assert_eq!(chars_entropy_against(&text, 2040, 1000), Some(Level::Above));
    assert_eq!(chars_entropy_against(&text, 2041, 1000), Some(Level::Below));
    assert_eq!(chars_entropy_against(&chars_of("abab"), 1, 1), Some(Level::Equal));
    assert_eq!(chars_entropy_against(&chars_of("abab"), 1, 0), None);
    let item = ClipboardMonitor::item_for(
        "https://example.com/x",
        "id-9".to_string(),
        Timestamp { seconds: 9, nanos: 9 },
    );
    assert_eq!(item.id, "id-9");
    assert_eq!(item.body, "https://example.com/x");
    assert_eq!(item.source.as_deref(), Some("https://example.com/x"));
    assert_eq!(item.captured_at, Timestamp { seconds: 9, nanos: 9 });
}

#[test]
fn lengths_in_bytes() {
    for text in ["", "a", "é", "日本語", "𝄞", "a é 日 𝄞\n", "\u{7f}\u{80}\u{7ff}\u{800}\u{ffff}\u{10000}"] {
        assert_eq!(byte_length(&chars_of(text)), text.len() as u128, "{:?}", text);
    }
    let mixed = chars_of("aé日𝄞");
    assert_eq!(byte_length_until(&mixed, 0), 0);
    assert_eq!(byte_length_until(&mixed, 2), 3);
    assert_eq!(byte_length_until(&mixed, 4), 10);
    let mut n: u32 = 0;
    while n < 0x11_0000 {
        if let Some(c) = char::from_u32(n) {
            assert_eq!(char_width(c) as usize, c.len_utf8(), "{:x}", n);
        }
        n += 1;
    }
}
