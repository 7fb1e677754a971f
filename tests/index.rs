use piemme::{Index, IndexEntry, Prompt};

fn now() -> i64 {
    chrono::Utc::now().timestamp_millis()
}

fn fresh_id() -> u128 {
    uuid::Uuid::new_v4().as_u128()
}

fn entry(name: &str, preview: &str, content: &str, tags: &[&str], location: &str) -> IndexEntry {
    IndexEntry {
        id: fresh_id(),
        name: name.to_string(),
        preview: preview.to_string(),
        content: content.to_string(),
        tags: tags.iter().map(|t| t.to_string()).collect(),
        location: location.to_string(),
        modified: now(),
    }
}

#[test]
fn test_index_operations() {
    let mut index = Index::new(now());

    let entry = entry(
        "test_prompt",
        "This is a test",
        "This is a test prompt content",
        &["coding", "test"],
        "prompts",
    );

    index.upsert(entry.clone(), now());
    assert_eq!(index.entries.len(), 1);

    let retrieved = index.get("test_prompt").unwrap();
    assert_eq!(retrieved.name, "test_prompt");

    let removed = index.remove("test_prompt", now());
    assert!(removed.is_some());
    assert!(index.entries.is_empty());
}

#[test]
fn test_index_search() {
    let mut index = Index::new(now());

    index.upsert(entry(
        "coding_tips",
        "Tips for coding",
        "Tips for coding in Python",
        &["coding"],
        "prompts",
    ), now());
    index.upsert(entry(
        "writing_guide",
        "Writing guide",
        "A guide for technical writing",
        &["writing"],
        "prompts",
    ), now());

    let results = index.search("coding");
    assert_eq!(results.len(), 1);
    assert_eq!(results[0].name, "coding_tips");

    let results = index.search("guide");
    assert_eq!(results.len(), 1);
    assert_eq!(results[0].name, "writing_guide");
}

#[test]
fn search_ignores_case_and_matches_content() {
    let mut index = Index::new(now());
    index.upsert(entry("alpha", "", "Mentions PYTHON here", &[], "prompts"), now());
    index.upsert(entry("beta", "", "nothing", &[], "archive"), now());
    assert_eq!(index.search("python").len(), 1);
    assert_eq!(index.search("ALPHA")[0].name, "alpha");
    assert_eq!(index.search("").len(), 2);
    assert!(index.search("zzz").is_empty());
}

#[test]
fn upsert_replaces_same_name() {
    let mut index = Index::new(now());
    index.upsert(entry("a", "", "old", &[], "prompts"), now());
    index.upsert(entry("b", "", "b", &[], "prompts"), now());
    index.upsert(entry("a", "", "new", &[], "archive"), now());
    assert_eq!(index.entries.len(), 2);
    assert_eq!(index.get("a").unwrap().content, "new");
    assert_eq!(index.all_names(), vec!["a".to_string(), "b".to_string()]);
    assert!(index.remove("missing", now()).is_none());
    assert_eq!(index.all_entries().len(), 2);
}

#[test]
fn tags_sorted_once_each() {
    let mut index = Index::new(now());
    index.upsert(entry("a", "", "", &["writing", "coding"], "prompts"), now());
    index.upsert(entry("b", "", "", &["coding", "art", "writing"], "prompts"), now());
    assert_eq!(
        index.all_tags(),
        vec!["art".to_string(), "coding".to_string(), "writing".to_string()]
    );
    assert!(Index::new(now()).all_tags().is_empty());
}

#[test]
fn filters_by_tag_and_location() {
    let mut index = Index::new(now());
    index.upsert(entry("a", "", "", &["x"], "prompts"), now());
    index.upsert(entry("b", "", "", &["y"], "archive"), now());
    index.upsert(entry("c", "", "", &["x", "y"], "archive"), now());
    let by_tag: Vec<&str> = index.filter_by_tag("x").iter().map(|e| e.name.as_str()).collect();
    assert_eq!(by_tag, vec!["a", "c"]);
    let by_place: Vec<&str> =
        index.filter_by_location("archive").iter().map(|e| e.name.as_str()).collect();
    assert_eq!(by_place, vec!["b", "c"]);
}

#[test]
fn entry_from_prompt() {
    let mut prompt = Prompt::with_content("First line\nsecond".to_string(), fresh_id(), now());
    prompt.add_tag("t".to_string(), now());
    let e = IndexEntry::from_prompt(&prompt, "prompts");
    assert_eq!(e.name, "first_line");
    assert_eq!(e.preview, "First line");
    assert_eq!(e.content, "First line\nsecond");
    assert_eq!(e.tags, vec!["t".to_string()]);
    assert_eq!(e.location, "prompts");
    assert_eq!(e.id, prompt.id);
    assert_eq!(e.modified, prompt.modified);
}
