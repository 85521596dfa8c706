use llmcord::chat::{completion_text, from_message_parts, parse_role, prepare_prompt, unescape_newlines, Role};

#[test]
fn roles_are_read_by_name() {
    assert_eq!(parse_role("system"), Some(Role::System));
    assert_eq!(parse_role("user"), Some(Role::User));
    assert_eq!(parse_role("assistant"), Some(Role::Assistant));
    assert_eq!(parse_role("User"), None);
    assert_eq!(parse_role("tool"), None);
}

#[test]
fn message_parts_build_a_message() {
    let m = from_message_parts("user", "hi".to_string(), Some("ann".to_string())).ok().unwrap();
    assert_eq!(m.role, Role::User);
    assert_eq!(m.content, "hi");
    assert_eq!(m.name, Some("ann".to_string()));
}

#[test]
fn unknown_role_is_refused() {
    let e = from_message_parts("robot", "hi".to_string(), None).err().unwrap();
    assert_eq!(e, "unknown role `robot`");
}

#[test]
fn escaped_newlines_become_line_breaks() {
    assert_eq!(unescape_newlines("a\\nb\\\\nc"), "a\nb\\\nc");
    assert_eq!(unescape_newlines("no escapes"), "no escapes");
    assert_eq!(prepare_prompt("x\\ny", true), "x\ny");
    assert_eq!(prepare_prompt("x\\ny", false), "x\\ny");
}

#[test]
fn completion_text_shows_prompt_and_model() {
    assert_eq!(completion_text("why?", "gpt", "because"), "**why?** (*gpt*)\nbecause");
}
