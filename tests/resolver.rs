use piemme::{
    needs_resolution, resolve_commands_in_content, resolve_prompt_with_base, FileOutcome,
    ResolveOptions,
};

fn mock_prompts() -> Vec<(String, String)> {
    vec![
        ("greeting".to_string(), "Hello, World!".to_string()),
        ("nested".to_string(), "Start [[greeting]] End".to_string()),
        ("circular_a".to_string(), "A references [[circular_b]]".to_string()),
        ("circular_b".to_string(), "B references [[circular_a]]".to_string()),
    ]
}

fn resolve_without_files(content: &str, prompts: &[(String, String)]) -> piemme::ResolveResult {
    resolve_prompt_with_base(content, prompts, &Vec::new(), &ResolveOptions::default())
}

#[test]
fn test_simple_reference() {
    let result = resolve_without_files("Say [[greeting]]!", &mock_prompts());

    assert_eq!(result.content, "Say Hello, World!!".to_string());
    assert!(result.references.contains(&"greeting".to_string()));
    assert_eq!(result.references, vec!["greeting".to_string()]);
}

#[test]
fn test_nested_references() {
    let result = resolve_without_files("Message: [[nested]]", &mock_prompts());

    assert_eq!(result.content, "Message: Start Hello, World! End");
    assert_eq!(result.references, vec!["greeting".to_string(), "nested".to_string()]);
}

#[test]
fn test_circular_reference() {
    let result = resolve_without_files("Check [[circular_a]]", &mock_prompts());

    assert!(result.had_circular_refs);
    assert!(result.content.contains("CIRCULAR REFERENCE DETECTED"));
    assert_eq!(
        result.content,
        "Check A references B references <!-- [CIRCULAR REFERENCE DETECTED: circular_a] -->"
    );
}

#[test]
fn test_invalid_reference() {
    let result = resolve_without_files("Check [[nonexistent]]", &mock_prompts());

    assert_eq!(result.content, "Check [[nonexistent]]");
}

#[test]
fn test_needs_resolution() {
    assert!(needs_resolution("Has [[reference]]"));
    assert!(needs_resolution("Has {{command}}"));
    assert!(needs_resolution("Has [[ref]] and {{cmd}}"));
    assert!(!needs_resolution("Plain text"));
}

#[test]
fn needs_resolution_sees_file_references() {
    assert!(needs_resolution("see [[file:a.txt]]"));
    assert!(!needs_resolution("[[Not A Name]] {{}}"));
}

#[test]
fn self_reference_is_cut() {
    let prompts = vec![("a".to_string(), "x [[a]] y".to_string())];
    let result = resolve_without_files("[[a]]", &prompts);
    assert!(result.had_circular_refs);
    assert_eq!(result.content, "x <!-- [CIRCULAR REFERENCE DETECTED: a] --> y");
    assert_eq!(result.references, vec!["a".to_string()]);
    assert!(!result.max_depth_exceeded);
}

#[test]
fn two_cycle_marks_first_name() {
    let prompts = vec![
        ("a".to_string(), "[[b]]".to_string()),
        ("b".to_string(), "[[a]]".to_string()),
    ];
    let result = resolve_without_files("[[a]]", &prompts);
    assert!(result.had_circular_refs);
    assert_eq!(result.content, "<!-- [CIRCULAR REFERENCE DETECTED: a] -->");
}

#[test]
fn long_chain_stops_at_depth_bound() {
    let mut prompts: Vec<(String, String)> = Vec::new();
    for i in 0..15 {
        prompts.push((format!("p{}", i), format!("[[p{}]]", i + 1)));
    }
    let result = resolve_without_files("[[p0]]", &prompts);
    assert!(result.max_depth_exceeded);
    assert!(!result.had_circular_refs);
    assert_eq!(result.references.len(), 10);
    assert_eq!(result.content, "[[p10]]");
    assert_eq!(result.references[0], "p9");
    assert_eq!(result.references[9], "p0");
}

#[test]
fn custom_depth_bound_is_honoured() {
    let prompts = mock_prompts();
    let options = ResolveOptions { max_depth: 1, execute_commands: false };
    let result = resolve_prompt_with_base("Message: [[nested]]", &prompts, &Vec::new(), &options);
    assert!(result.max_depth_exceeded);
    assert_eq!(result.content, "Message: Start [[greeting]] End");
    let options = ResolveOptions { max_depth: 0, execute_commands: false };
    let result = resolve_prompt_with_base("[[greeting]]", &prompts, &Vec::new(), &options);
    assert!(result.max_depth_exceeded);
    assert_eq!(result.content, "[[greeting]]");
    assert!(result.references.is_empty());
}

#[test]
fn default_options() {
    let options = ResolveOptions::default();
    assert_eq!(options.max_depth, 10);
    assert!(options.execute_commands);
}

#[test]
fn unknown_reference_passes_through() {
    let none: Vec<(String, String)> = Vec::new();
    let result = resolve_without_files("See [[nope]]", &none);
    assert_eq!(result.content, "See [[nope]]");
    assert!(result.references.is_empty());
    assert!(!result.had_circular_refs);
    assert!(!result.max_depth_exceeded);
}

#[test]
fn surrounding_text_kept_between_substitutions() {
    let prompts = vec![
        ("x".to_string(), "1".to_string()),
        ("longer_name".to_string(), "22222".to_string()),
    ];
    let result = resolve_without_files("A [[x]] B [[longer_name]] C [[x]]", &prompts);
    assert_eq!(result.content, "A 1 B 22222 C 1");
    assert_eq!(
        result.references,
        vec!["x".to_string(), "longer_name".to_string(), "x".to_string()]
    );
}

#[test]
fn sibling_repeats_are_not_cycles() {
    let prompts = vec![
        ("g".to_string(), "hi".to_string()),
        ("pair".to_string(), "[[g]] and [[g]]".to_string()),
    ];
    let result = resolve_without_files("[[pair]]", &prompts);
    assert_eq!(result.content, "hi and hi");
    assert!(!result.had_circular_refs);
}

#[test]
fn plain_text_is_unchanged_and_stable() {
    let prompts = mock_prompts();
    let first = resolve_without_files("Just words, no markup.", &prompts);
    assert_eq!(first.content, "Just words, no markup.");
    let again = resolve_without_files(&first.content, &prompts);
    assert_eq!(again.content, first.content);
    assert!(again.commands.is_empty());
}

#[test]
fn resolved_output_is_a_fixed_point() {
    let prompts = mock_prompts();
    let first = resolve_without_files("Say [[greeting]] to [[nested]]", &prompts);
    let again = resolve_without_files(&first.content, &prompts);
    assert_eq!(again.content, first.content);
    assert_eq!(again.content, "Say Hello, World! to Start Hello, World! End");
}

#[test]
fn malformed_markup_does_not_fail() {
    let prompts = mock_prompts();
    for text in ["[[", "]]", "[[[[greeting]]]]", "{{", "{{}}", "[[file:]]", "ünï [[greeting]] cödé", ""] {
        let result = resolve_without_files(text, &prompts);
        assert!(!result.had_circular_refs);
    }
    let result = resolve_without_files("[[[[greeting]]]]", &prompts);
    assert_eq!(result.content, "[[Hello, World!]]");
    let result = resolve_without_files("ünï [[greeting]] cödé", &prompts);
    assert_eq!(result.content, "ünï Hello, World! cödé");
}

#[test]
fn file_inclusion() {
    let path = "/tmp/piemme/notes.txt";
    let content = format!("Content: [[file:{}]]", path);
    let files = vec![FileOutcome::Loaded("Hello from file!".to_string())];
    let result = resolve_prompt_with_base(&content, &mock_prompts(), &files, &ResolveOptions::default());
    assert_eq!(result.content, "Content: Hello from file!");
    assert_eq!(result.file_references, vec![path.to_string()]);
}

#[test]
fn missing_file_gives_comment() {
    let content = "Content: [[file:/no/such/file.txt]]";
    let files = vec![FileOutcome::NotFound];
    let result = resolve_prompt_with_base(content, &mock_prompts(), &files, &ResolveOptions::default());
    assert!(result.content.contains("FILE NOT FOUND"));
    assert!(result.content.contains("/no/such/file.txt"));
    assert_eq!(result.content, "Content: <!-- [FILE NOT FOUND: /no/such/file.txt] -->");
    assert!(result.file_references.is_empty());
}

#[test]
fn unreadable_file_gives_comment() {
    let content = "[[file:a.bin]]";
    let files = vec![FileOutcome::ReadError("invalid UTF-8".to_string())];
    let result = resolve_prompt_with_base(content, &mock_prompts(), &files, &ResolveOptions::default());
    assert_eq!(result.content, "<!-- [FILE READ ERROR: a.bin - invalid UTF-8] -->");
}

#[test]
fn file_paths_recorded_last_first_and_file_text_is_expanded() {
    let content = "[[file:one]] [[file:two]] [[file:three]]";
    let files = vec![
        FileOutcome::Loaded("[[greeting]]".to_string()),
        FileOutcome::NotFound,
        FileOutcome::Loaded("3".to_string()),
    ];
    let result = resolve_prompt_with_base(content, &mock_prompts(), &files, &ResolveOptions::default());
    assert_eq!(result.file_references, vec!["three".to_string(), "one".to_string()]);
    assert_eq!(result.content, "Hello, World! <!-- [FILE NOT FOUND: two] --> 3");
}

#[test]
fn commands_are_listed_not_run() {
    let prompts = vec![("cmd".to_string(), "{{ date }}".to_string())];
    let result = resolve_without_files("now: [[cmd]] and {{echo hello}}", &prompts);
    assert_eq!(result.content, "now: {{ date }} and {{echo hello}}");
    assert_eq!(result.commands, vec!["date".to_string(), "echo hello".to_string()]);
}

#[test]
fn command_outputs_are_substituted() {
    let content = "out: {{echo hello}}!";
    let outputs = vec![Ok("hello\n".to_string())];
    assert_eq!(resolve_commands_in_content(content, &outputs), "out: hello!");
}

#[test]
fn failed_command_becomes_comment() {
    let content = "{{nonexistent_command_12345}} then {{echo ok}}";
    let outputs = vec![
        Err("Command failed: sh: nonexistent_command_12345: not found".to_string()),
        Ok("ok\n".to_string()),
    ];
    let text = resolve_commands_in_content(content, &outputs);
    assert!(text.contains("Command failed"));
    assert_eq!(
        text,
        "<!-- Command failed: Command failed: sh: nonexistent_command_12345: not found --> then ok"
    );
}
