use piemme::{generate_name_from_content, make_unique_name};

#[test]
fn test_generate_name_basic() {
    assert_eq!(
        generate_name_from_content("Given the following number you must"),
        "given_the_following"
    );
}

#[test]
fn test_generate_name_with_special_chars() {
    assert_eq!(
        generate_name_from_content("Hello, World! How are you?"),
        "hello_world_how_ar"
    );
}

#[test]
fn test_generate_name_empty() {
    assert_eq!(generate_name_from_content(""), "");
    assert_eq!(generate_name_from_content("   "), "");
}

#[test]
fn test_generate_name_short() {
    assert_eq!(generate_name_from_content("Hi"), "hi");
}

#[test]
fn test_make_unique_name() {
    let existing = vec!["test", "test_1", "test_2"];
    assert_eq!(make_unique_name("test", &existing), "test_3");
}

#[test]
fn test_make_unique_name_no_conflict() {
    let existing = vec!["other", "names"];
    assert_eq!(make_unique_name("test", &existing), "test");
}

#[test]
fn test_make_unique_name_empty() {
    let existing = vec!["empty_prompt_1"];
    assert_eq!(make_unique_name("", &existing), "empty_prompt_2");
}

#[test]
fn name_uses_first_line_only() {
    assert_eq!(generate_name_from_content("First line\nSecond line"), "first_line");
    assert_eq!(generate_name_from_content("\nSecond"), "");
}

#[test]
fn name_separators_and_case() {
    assert_eq!(generate_name_from_content("ABC-def\tGHI"), "abc_def_ghi");
    assert_eq!(generate_name_from_content("--a  --  b--"), "a_b");
}

#[test]
fn unique_name_fills_first_gap() {
    let existing = vec!["a", "a_2"];
    assert_eq!(make_unique_name("a", &existing), "a_1");
    let existing: Vec<&str> = Vec::new();
    assert_eq!(make_unique_name("", &existing), "empty_prompt_1");
    let many: Vec<String> = (1..12).map(|i| format!("x_{}", i)).collect();
    let mut refs: Vec<&str> = many.iter().map(|s| s.as_str()).collect();
    refs.push("x");
    assert_eq!(make_unique_name("x", &refs), "x_12");
}
