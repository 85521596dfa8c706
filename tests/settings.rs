use llmcord::config::{commands_need_reset, Configuration, Discord};
use llmcord::interaction::{get_value, value_to_integer, value_to_string, CommandOption, OptionValue};

#[test]
fn default_settings() {
    let d = Discord::default();
    assert_eq!(d.message_update_interval_ms, 1000);
    assert!(d.replace_newlines);
    let c = Configuration::default();
    assert!(c.authentication.discord_token.is_none());
    let ask = c.commands.get("ask").unwrap();
    assert!(!ask.enabled);
    assert_eq!(ask.system_prompt, "You are a helpful assistant.");
}

#[test]
fn options_are_found_by_name() {
    let options = vec![
        CommandOption { name: "prompt".to_string(), value: OptionValue::String("hi".to_string()) },
        CommandOption { name: "seed".to_string(), value: OptionValue::Integer(7) },
        CommandOption { name: "prompt".to_string(), value: OptionValue::String("later".to_string()) },
    ];
    assert_eq!(get_value(&options, "prompt").and_then(value_to_string), Some("hi".to_string()));
    assert_eq!(get_value(&options, "seed").and_then(value_to_integer), Some(7));
    assert_eq!(get_value(&options, "seed").and_then(value_to_string), None);
    assert!(get_value(&options, "model").is_none());
    assert_eq!(value_to_integer(&OptionValue::Other), None);
}

#[test]
fn command_sets_are_compared_as_sets() {
    let a = vec!["ask".to_string(), "execute".to_string()];
    let b = vec!["execute".to_string(), "ask".to_string(), "ask".to_string()];
    assert!(!commands_need_reset(&a, &b));
    let c = vec!["ask".to_string()];
    assert!(commands_need_reset(&a, &c));
    assert!(commands_need_reset(&c, &a));
    assert!(!commands_need_reset(&vec![], &vec![]));
}
