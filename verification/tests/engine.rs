// The frontmatter engine: strategy chain, binding, serialization and the
// round trip, exercised on concrete documents.

use hugo_bros::model::FieldValue;
use hugo_bros::model::MarkdownDocument;
use hugo_bros::model::Scalar;
use hugo_bros::document::serialize_document;
use hugo_bros::serializer::frontmatter_to_yaml;

#[test]
fn parse_standard_frontmatter() {
    let raw = "---\ntitle: \"Hello\"\ndate: \"2024-01-01 10:00:00\"\n---\nBody";
    let (doc, had_no_frontmatter) = MarkdownDocument::parse(raw).expect("parse failed");

    assert!(!had_no_frontmatter);
    assert_eq!(doc.frontmatter.title, "Hello");
    assert_eq!(doc.frontmatter.date, "2024-01-01 10:00:00");
    assert_eq!(doc.content, "Body");
}

#[test]
fn parse_alternative_frontmatter() {
    let raw = "title: \"Alt\"\ndate: \"2024-01-02\"\n---\nAlt body";
    let (doc, had_no_frontmatter) = MarkdownDocument::parse(raw).expect("parse failed");

    assert!(!had_no_frontmatter);
    assert_eq!(doc.frontmatter.title, "Alt");
    assert_eq!(doc.frontmatter.date, "2024-01-02");
    assert_eq!(doc.content, "Alt body");
}

#[test]
fn parse_without_frontmatter_defaults() {
    let raw = "Just text";
    let (doc, had_no_frontmatter) = MarkdownDocument::parse(raw).expect("parse failed");

    assert!(had_no_frontmatter);
    assert_eq!(doc.frontmatter.title, "Untitled Post");
    assert_eq!(doc.content, "Just text");
}

#[test]
fn primary_strategy_wins_over_inline_object() {
    let raw = "---\ntitle: \"Front\"\ndate: \"2024\"\n---\n{ \"not\": \"frontmatter\" } body";
    let (doc, used_default) = MarkdownDocument::parse(raw).expect("parse failed");
    assert!(!used_default);
    assert_eq!(doc.frontmatter.title, "Front");
    assert!(doc.content.contains('{'));
}

#[test]
fn parse_toml_frontmatter() {
    let raw = "+++\ntitle = \"Toml\"\ndate = \"2024-02-02\"\ndraft = true\n+++\nT body";
    let (doc, used_default) = MarkdownDocument::parse(raw).expect("parse failed");
    assert!(!used_default);
    assert_eq!(doc.frontmatter.title, "Toml");
    assert_eq!(doc.frontmatter.date, "2024-02-02");
    assert_eq!(doc.frontmatter.draft, Some(true));
    assert_eq!(doc.content, "T body");
}

#[test]
fn parse_inline_object_frontmatter() {
    let raw = "{\"title\": \"Json\", \"date\": \"2024-03-03\"}\nJ body";
    let (doc, used_default) = MarkdownDocument::parse(raw).expect("parse failed");
    assert!(!used_default);
    assert_eq!(doc.frontmatter.title, "Json");
    assert_eq!(doc.frontmatter.date, "2024-03-03");
    assert_eq!(doc.content, "J body");
}

#[test]
fn parse_block_lists_and_custom_fields() {
    let raw = "---\ntitle: Post\ndate: '2024-01-01'\ntags:\n- a\n- b\ncategories: [\"c\"]\nweight: 12\ncover: \"/images/x.png\"\n---\nThe body";
    let (doc, used_default) = MarkdownDocument::parse(raw).expect("parse failed");
    assert!(!used_default);
    assert_eq!(doc.frontmatter.tags, vec!["a".to_string(), "b".to_string()]);
    assert_eq!(doc.frontmatter.categories, vec!["c".to_string()]);
    assert_eq!(doc.frontmatter.custom_fields.len(), 2);
    assert_eq!(doc.frontmatter.custom_fields[0].0, "weight");
    match &doc.frontmatter.custom_fields[0].1 {
        FieldValue::One(Scalar::Num(n)) => assert_eq!(n, "12"),
        _ => panic!("unexpected value shape"),
    }
    assert_eq!(doc.content, "The body");
}

#[test]
fn missing_title_falls_through_to_default() {
    let raw = "---\ndate: \"2024\"\n---\nBody";
    let (doc, used_default) = MarkdownDocument::parse(raw).expect("parse failed");
    assert!(used_default);
    assert_eq!(doc.frontmatter.title, "Untitled Post");
    assert_eq!(doc.content, raw);
}

#[test]
fn duplicate_keys_are_refused() {
    let raw = "---\ntitle: \"A\"\ntitle: \"B\"\ndate: \"2024\"\n---\nBody";
    let (_, used_default) = MarkdownDocument::parse(raw).expect("parse failed");
    assert!(used_default);
}

#[test]
fn serializer_emits_canonical_form() {
    let raw = "---\ntitle: \"Hello\"\ndate: \"2024-01-01\"\n---\nBody";
    let (doc, _) = MarkdownDocument::parse(raw).expect("parse failed");
    let out = serialize_document(&doc);
    assert_eq!(
        out,
        "---\ntitle: \"Hello\"\ndate: \"2024-01-01\"\ntags: []\ncategories: []\n---\n\nBody",
    );
}

#[test]
fn frontmatter_to_yaml_lists_fields_in_order() {
    let raw = "---\ntitle: T\ndate: D\ndraft: true\nextra: 7\n---\nB";
    let (doc, _) = MarkdownDocument::parse(raw).expect("parse failed");
    let yaml = frontmatter_to_yaml(&doc.frontmatter).expect("encode failed");
    assert_eq!(
        yaml,
        "title: \"T\"\ndate: \"D\"\ntags: []\ncategories: []\ndraft: true\nextra: 7\n",
    );
}

#[test]
fn round_trip_is_semantic_and_idempotent() {
    let raw = "---\ntitle: 'A \"quoted\" title'\ndate: 2024-01-01\ntags:\n- x\n- y z\ncomments: false\nlayout: wide\nweight: 3.5\nmeta: {author: me, stars: 5}\n---\nBody with --- dashes inside";
    let (doc1, used1) = MarkdownDocument::parse(raw).expect("parse failed");
    assert!(!used1);
    let text1 = serialize_document(&doc1);
    let (doc2, used2) = MarkdownDocument::parse(&text1).expect("parse failed");
    assert!(!used2);
    assert_eq!(doc2.frontmatter.title, doc1.frontmatter.title);
    assert_eq!(doc2.frontmatter.date, doc1.frontmatter.date);
    assert_eq!(doc2.frontmatter.tags, doc1.frontmatter.tags);
    assert_eq!(doc2.frontmatter.comments, doc1.frontmatter.comments);
    assert_eq!(doc2.frontmatter.layout, doc1.frontmatter.layout);
    assert_eq!(doc2.frontmatter.custom_fields.len(), doc1.frontmatter.custom_fields.len());
    assert_eq!(doc2.content, doc1.content);
    // A second cycle is a fixed point textually.
    let text2 = serialize_document(&doc2);
    assert_eq!(text2, text1);
}

#[test]
fn escaped_text_survives_the_round_trip() {
    let raw = "---\ntitle: \"line\\nbreak \\\"q\\\" back\\\\slash\"\ndate: \"d\"\n---\nB";
    let (doc1, _) = MarkdownDocument::parse(raw).expect("parse failed");
    assert_eq!(doc1.frontmatter.title, "line\nbreak \"q\" back\\slash");
    let text = serialize_document(&doc1);
    let (doc2, used) = MarkdownDocument::parse(&text).expect("parse failed");
    assert!(!used);
    assert_eq!(doc2.frontmatter.title, doc1.frontmatter.title);
}
