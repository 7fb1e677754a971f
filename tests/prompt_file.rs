use piemme::{parse_frontmatter, FrontmatterError};

#[test]
fn test_parse_frontmatter() {
    let content = r#"---
id: "550e8400-e29b-41d4-a716-446655440000"
tags: ["coding", "python"]
created: "2026-01-15T10:30:00Z"
modified: "2026-01-15T14:22:00Z"
---
This is the prompt content.
Multiple lines here.
"#;

    let (frontmatter, body) = parse_frontmatter(content).unwrap();
    let value: serde_yaml::Value = serde_yaml::from_str(&frontmatter).unwrap();
    let id = uuid::Uuid::parse_str(value["id"].as_str().unwrap()).unwrap();
    assert_eq!(id, uuid::Uuid::parse_str("550e8400-e29b-41d4-a716-446655440000").unwrap());
    let tags: Vec<&str> = value["tags"]
        .as_sequence()
        .unwrap()
        .iter()
        .map(|t| t.as_str().unwrap())
        .collect();
    assert_eq!(tags, vec!["coding", "python"]);
    assert!(body.contains("This is the prompt content"));
}

#[test]
fn frontmatter_split_exactly() {
    let (front, body) = parse_frontmatter("  ---\nid: x\n---\n\n\nBody\n").unwrap();
    assert_eq!(front, "id: x");
    assert_eq!(body, "Body");
}

#[test]
fn frontmatter_missing() {
    assert_eq!(parse_frontmatter("no frontmatter"), Err(FrontmatterError::Missing));
    assert_eq!(parse_frontmatter(""), Err(FrontmatterError::Missing));
}

#[test]
fn frontmatter_unclosed() {
    assert_eq!(parse_frontmatter("---\nid: x\nbody"), Err(FrontmatterError::Unclosed));
    assert_eq!(parse_frontmatter("---"), Err(FrontmatterError::Unclosed));
}

#[test]
fn frontmatter_empty_body() {
    let (front, body) = parse_frontmatter("---\n---").unwrap();
    assert_eq!(front, "");
    assert_eq!(body, "");
}
