use llmcord::script::parse_markdown_lua_block;

fn check_markdown_lua_block() {
    // Test basic parsing
    let input = "```lua\nprint('hello')\n```";
    assert_eq!(parse_markdown_lua_block(input), Some("print('hello')"));

    // Test with multiple lines
    let input = "```lua\nlocal x = 1\nlocal y = 2\nprint(x + y)\n```";
    assert_eq!(
        parse_markdown_lua_block(input),
        Some("local x = 1\nlocal y = 2\nprint(x + y)")
    );

    // Test with no code block
    let input = "This is not a code block";
    assert_eq!(parse_markdown_lua_block(input), None);

    // Test with wrong language
    let input = "```python\nprint('hello')\n```";
    assert_eq!(parse_markdown_lua_block(input), None);

    // Test with no closing backticks
    let input = "```lua\nprint('hello')";
    assert_eq!(parse_markdown_lua_block(input), None);
}

#[test]
fn execute_test_parse_markdown_lua_block() {
    check_markdown_lua_block();
}

#[test]
fn mod_test_parse_markdown_lua_block() {
    check_markdown_lua_block();
}

#[test]
fn markdown_block_takes_first_block_and_text_around() {
    let input = "run this:\n```lua\nreturn 1\n```\nand ```lua\nreturn 2\n```";
    assert_eq!(parse_markdown_lua_block(input), Some("return 1"));
}

#[test]
fn markdown_block_may_be_empty() {
    assert_eq!(parse_markdown_lua_block("```lua\n\n```"), Some(""));
}
