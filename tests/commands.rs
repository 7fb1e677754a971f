use piemme::{execute_command_safe, find_commands, has_commands};

#[test]
fn test_find_commands() {
    let content = "Files: {{ls -la}} and date: {{date}}";
    let cmds = find_commands(content);

    assert_eq!(cmds.len(), 2);
    assert_eq!(cmds[0].command, "ls -la");
    assert_eq!(cmds[0].full_match, "{{ls -la}}");
    assert_eq!(cmds[1].command, "date");
}

#[test]
fn test_no_commands() {
    let content = "No commands here!";
    let cmds = find_commands(content);
    assert!(cmds.is_empty());
}

#[test]
fn test_has_commands() {
    assert!(has_commands("Contains {{command}}"));
    assert!(!has_commands("No commands here"));
}

#[test]
fn command_is_trimmed() {
    let cmds = find_commands("a {{   echo hi \t}} b");
    assert_eq!(cmds.len(), 1);
    assert_eq!(cmds[0].command, "echo hi");
    assert_eq!(cmds[0].full_match, "{{   echo hi \t}}");
    assert_eq!((cmds[0].start, cmds[0].end), (2, 18));
}

#[test]
fn empty_braces_are_no_command() {
    assert!(find_commands("{{}}").is_empty());
    assert!(!has_commands("{{}} and {{"));
}

#[test]
fn safe_output_trims_trailing_white_space() {
    let out = execute_command_safe(&Ok("hello\n\n".to_string()));
    assert_eq!(out, "hello");
    let out = execute_command_safe(&Ok("  keep leading  ".to_string()));
    assert_eq!(out, "  keep leading");
}

#[test]
fn safe_output_reports_failure() {
    let out = execute_command_safe(&Err("Command failed: boom".to_string()));
    assert_eq!(out, "<!-- Command failed: Command failed: boom -->");
}
