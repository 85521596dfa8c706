use llmcord::script::{
    after_expression_attempt, after_statement_attempt, continues_stream, LoadStep, expression_chunk, join_values, load_coroutine, load_failure_message,
    statement_chunk,
};
use std::sync::{Arc, Mutex};

#[test]
fn returning_script_yields_its_value() {
    let lua = mlua::Lua::new();
    let thread = load_coroutine(&lua, "return 1 + 1").unwrap();
    let item: Option<String> = thread.resume(()).unwrap();
    assert_eq!(item, Some("2".to_string()));
    assert_eq!(thread.status(), mlua::ThreadStatus::Finished);
}

#[test]
fn bare_expression_loads_as_expression() {
    let lua = mlua::Lua::new();
    let thread = load_coroutine(&lua, "1 + 1").unwrap();
    let item: Option<String> = thread.resume(()).unwrap();
    assert_eq!(item, Some("2".to_string()));
}

#[test]
fn statement_script_prints_without_a_result() {
    let lua = mlua::Lua::new();
    let printed: Arc<Mutex<Vec<String>>> = Arc::new(Mutex::new(Vec::new()));
    let sink = printed.clone();
    let print = lua
        .create_function(move |_, values: mlua::Variadic<String>| {
            let values: Vec<String> = values.into_iter().collect();
            sink.lock().unwrap().push(join_values(&values));
            Ok(())
        })
        .unwrap();
    lua.globals().set("print", print).unwrap();
    let thread = load_coroutine(&lua, "local x = 1; print(x)").unwrap();
    let item: Option<String> = thread.resume(()).unwrap();
    assert_eq!(item, None);
    assert_eq!(thread.status(), mlua::ThreadStatus::Finished);
    assert_eq!(*printed.lock().unwrap(), vec!["1".to_string()]);
}

#[test]
fn script_that_loads_neither_way_reports_both() {
    let lua = mlua::Lua::new();
    let err = load_coroutine(&lua, "local = =").unwrap_err();
    assert!(err.starts_with("Failed to load expression with return: "));
    assert!(err.contains(" | without return: "));
}

#[test]
fn chunks_wrap_the_code() {
    assert_eq!(
        expression_chunk("1 + 1"),
        "coroutine.create(function()\n    return 1 + 1\nend)"
    );
    assert_eq!(statement_chunk("f()"), "coroutine.create(function()\nf()\nend)");
    assert_eq!(load_failure_message("a", "b"), "Failed to load expression with return: a | without return: b");
}

#[test]
fn output_joins_with_tabs() {
    let values = vec!["a".to_string(), "b c".to_string(), "".to_string(), "d".to_string()];
    assert_eq!(join_values(&values), "a\tb c\t\td");
    assert_eq!(join_values(&vec!["only".to_string()]), "only");
    assert_eq!(join_values(&vec![]), "");
}

#[test]
fn only_explicit_false_stops_a_stream() {
    assert!(!continues_stream(Some(false)));
    assert!(continues_stream(Some(true)));
    assert!(continues_stream(None));
}

#[test]
fn expression_success_is_kept_and_failure_moves_on() {
    assert!(matches!(after_expression_attempt::<u8>(Ok(5)), LoadStep::Loaded(5)));
    assert!(matches!(
        after_expression_attempt::<u8>(Err("bad".to_string())),
        LoadStep::TryStatements(e) if e == "bad"
    ));
    assert_eq!(after_statement_attempt::<u8>("a", Ok(3)), Ok(3));
    assert_eq!(
        after_statement_attempt::<u8>("a", Err("b".to_string())),
        Err("Failed to load expression with return: a | without return: b".to_string())
    );
}
