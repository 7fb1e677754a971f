use piemme::{
    find_and_validate_references, find_file_references, find_references, has_file_references,
    has_references, validate_reference,
};

#[test]
fn test_find_references() {
    let content = "Hello [[world]] and [[test_prompt]]!";
    let refs = find_references(content);

    assert_eq!(refs.len(), 2);
    assert_eq!(refs[0].name, "world");
    assert_eq!(refs[0].full_match, "[[world]]");
    assert_eq!(refs[1].name, "test_prompt");
}

#[test]
fn test_no_references() {
    let content = "Hello world without any references!";
    let refs = find_references(content);
    assert!(refs.is_empty());
}

#[test]
fn test_invalid_reference_format() {
    let content = "[[UPPER]] [[with space]] [[with-dash]]";
    let refs = find_references(content);
    assert!(refs.is_empty());
}

#[test]
fn test_validate_references() {
    let content = "Check [[valid_ref]] and [[invalid_ref]]";
    let existing = vec!["valid_ref", "other"];

    let refs = find_and_validate_references(content, &existing);

    assert_eq!(refs.len(), 2);
    assert!(refs[0].is_valid);
    assert!(!refs[1].is_valid);
}

#[test]
fn test_has_references() {
    assert!(has_references("Contains [[reference]]"));
    assert!(!has_references("No references here"));
}

#[test]
fn test_find_file_references() {
    let content = "Check [[file:src/main.rs]] and [[file:README.md]]";
    let refs = find_file_references(content);

    assert_eq!(refs.len(), 2);
    assert_eq!(refs[0].path, "src/main.rs");
    assert_eq!(refs[0].full_match, "[[file:src/main.rs]]");
    assert_eq!(refs[1].path, "README.md");
}

#[test]
fn test_no_file_references() {
    let content = "Hello world without any file references!";
    let refs = find_file_references(content);
    assert!(refs.is_empty());
}

#[test]
fn test_has_file_references() {
    assert!(has_file_references("Contains [[file:test.txt]]"));
    assert!(!has_file_references("No file references here"));
    assert!(!has_file_references("Only [[prompt_ref]]"));
}

#[test]
fn test_mixed_references() {
    let content = "[[prompt_ref]] and [[file:test.txt]]";
    let prompt_refs = find_references(content);
    let file_refs = find_file_references(content);

    assert_eq!(prompt_refs.len(), 1);
    assert_eq!(file_refs.len(), 1);
    assert_eq!(prompt_refs[0].name, "prompt_ref");
    assert_eq!(file_refs[0].path, "test.txt");
}

#[test]
fn reference_spans_are_positions() {
    let refs = find_references("ab [[x1]] [[y_2]]");
    assert_eq!(refs.len(), 2);
    assert_eq!((refs[0].start, refs[0].end), (3, 9));
    assert_eq!((refs[1].start, refs[1].end), (10, 17));
    assert!(!refs[0].is_file);
    assert!(!refs[0].is_valid);
}

#[test]
fn nested_brackets_scan_flat() {
    let refs = find_references("[[[[x]]]]");
    assert_eq!(refs.len(), 1);
    assert_eq!(refs[0].name, "x");
    assert_eq!((refs[0].start, refs[0].end), (2, 7));
}

#[test]
fn empty_name_is_no_reference() {
    assert!(find_references("[[]] [[ ]]").is_empty());
    assert!(find_file_references("[[file:]]").is_empty());
}

#[test]
fn file_reference_is_not_a_prompt_reference() {
    assert!(find_references("[[file:notes.txt]]").is_empty());
}

#[test]
fn validate_single_reference() {
    let mut refs = find_references("[[alpha]]");
    let mut r = refs.remove(0);
    validate_reference(&mut r, &["beta", "alpha"]);
    assert!(r.is_valid);
    validate_reference(&mut r, &["beta"]);
    assert!(!r.is_valid);
    assert_eq!(r.name, "alpha");
}

#[test]
fn file_path_may_hold_spaces_and_colons() {
    let refs = find_file_references("x [[file:C:/my notes/a.md]] y");
    assert_eq!(refs.len(), 1);
    assert_eq!(refs[0].path, "C:/my notes/a.md");
}

#[test]
fn spans_are_byte_offsets() {
    let refs = find_references("é [[x]]");
    assert_eq!(refs.len(), 1);
    assert_eq!((refs[0].start, refs[0].end), (3, 8));
    let files = find_file_references("ü[[file:ä]]");
    assert_eq!((files[0].start, files[0].end), (2, 13));
    assert_eq!(&"ü[[file:ä]]"[files[0].start..files[0].end], "[[file:ä]]");
}
