//! Stack and argument helpers against the model engine.

use locenv::{
    abs_index, argument_error, check_string, error, error_with_message, is_none_or_nil, pop,
    push_nil, push_str, push_value, to_string, type_error, upvalue_index, value_at, EngineError,
    LuaState, Value, LUA_REGISTRYINDEX,
};

#[test]
fn push_and_pop_keep_the_stack_shape() {
    let mut lua = LuaState::new(0);
    push_nil(&mut lua);
    push_str(&mut lua, "one");
    push_str(&mut lua, "two");
    assert_eq!(lua.stack_size(), 3);
    assert_eq!(value_at(&lua, 1), Some(Value::Nil));
    assert!(matches!(value_at(&lua, 2), Some(Value::Str(_))));
    pop(&mut lua, 2);
    assert_eq!(lua.stack_size(), 1);
    assert_eq!(value_at(&lua, 1), Some(Value::Nil));
}

#[test]
fn equal_strings_are_one_engine_value() {
    let mut lua = LuaState::new(0);
    push_str(&mut lua, "same");
    push_str(&mut lua, "other");
    push_str(&mut lua, "same");
    assert_eq!(value_at(&lua, 1), value_at(&lua, 3));
    assert_ne!(value_at(&lua, 1), value_at(&lua, 2));
}

#[test]
fn push_value_copies_by_index() {
    let mut lua = LuaState::new(0);
    push_str(&mut lua, "bottom");
    push_nil(&mut lua);
    push_value(&mut lua, 1);
    assert_eq!(lua.stack_size(), 3);
    assert_eq!(value_at(&lua, 3), value_at(&lua, 1));
    push_value(&mut lua, -2);
    assert_eq!(value_at(&lua, 4), Some(Value::Nil));
}

#[test]
fn abs_index_resolves_relative_indices() {
    let mut lua = LuaState::new(0);
    push_nil(&mut lua);
    push_nil(&mut lua);
    push_nil(&mut lua);
    assert_eq!(abs_index(&lua, -1), 3);
    assert_eq!(abs_index(&lua, -3), 1);
    assert_eq!(abs_index(&lua, 2), 2);
    assert_eq!(abs_index(&lua, LUA_REGISTRYINDEX - 1), LUA_REGISTRYINDEX - 1);
}

#[test]
fn upvalue_index_encodes_below_the_registry() {
    assert_eq!(upvalue_index(1), LUA_REGISTRYINDEX - 1);
    assert_eq!(upvalue_index(256), LUA_REGISTRYINDEX - 256);
}

#[test]
fn is_none_or_nil_spots_absent_and_nil_values() {
    let mut lua = LuaState::new(0);
    assert!(is_none_or_nil(&lua, 1));
    push_nil(&mut lua);
    assert!(is_none_or_nil(&lua, 1));
    push_str(&mut lua, "x");
    assert!(!is_none_or_nil(&lua, 2));
    assert!(is_none_or_nil(&lua, 99));
}

#[test]
fn to_string_reads_strings_only() {
    let mut lua = LuaState::new(0);
    push_str(&mut lua, "hello");
    push_nil(&mut lua);
    assert_eq!(to_string(&lua, 1).as_deref(), Some("hello"));
    assert_eq!(to_string(&lua, 2), None);
    assert_eq!(to_string(&lua, 3), None);
}

#[test]
fn check_string_reports_the_actual_type() {
    let mut lua = LuaState::new(0);
    push_str(&mut lua, "ok");
    push_nil(&mut lua);
    assert_eq!(check_string(&lua, 1), Ok(String::from("ok")));
    assert_eq!(
        check_string(&lua, 2),
        Err(EngineError::TypeMismatch {
            arg: 2,
            expected: String::from("string"),
            got: String::from("nil"),
        })
    );
    assert_eq!(
        check_string(&lua, 3),
        Err(EngineError::TypeMismatch {
            arg: 3,
            expected: String::from("string"),
            got: String::from("no value"),
        })
    );
}

#[test]
fn opt_string_distinguishes_absent_from_wrong() {
    let mut lua = LuaState::new(0);
    push_str(&mut lua, "v");
    push_nil(&mut lua);
    locenv::create_table(&mut lua, 0, 0);
    assert_eq!(locenv::opt_string(&lua, 1), Ok(Some(String::from("v"))));
    assert_eq!(locenv::opt_string(&lua, 2), Ok(None));
    assert_eq!(locenv::opt_string(&lua, 9), Ok(None));
    assert!(matches!(
        locenv::opt_string(&lua, 3),
        Err(EngineError::TypeMismatch { arg: 3, .. })
    ));
}

#[test]
fn error_values_carry_their_payloads() {
    let mut lua = LuaState::new(0);
    push_str(&mut lua, "boom");
    let thrown = error(&mut lua);
    assert!(matches!(thrown, EngineError::Thrown { value: Value::Str(_) }));
    assert_eq!(lua.stack_size(), 0);

    let e = error_with_message("went wrong");
    assert_eq!(
        e,
        EngineError::Message { message: String::from("went wrong") }
    );

    let e = argument_error(2, "expected a name");
    assert_eq!(
        e,
        EngineError::BadArgument { arg: 2, comment: String::from("expected a name") }
    );

    push_nil(&mut lua);
    let e = type_error(&lua, 1, "table");
    assert_eq!(
        e,
        EngineError::TypeMismatch {
            arg: 1,
            expected: String::from("table"),
            got: String::from("nil"),
        }
    );
}

#[test]
fn table_fields_follow_the_latest_binding() {
    let mut lua = LuaState::new(0);
    locenv::create_table(&mut lua, 0, 0);
    push_str(&mut lua, "first");
    locenv::set_field(&mut lua, -2, "k");
    push_str(&mut lua, "second");
    locenv::set_field(&mut lua, -2, "k");
    let code = locenv::get_field(&mut lua, -1, "k");
    assert_eq!(code, locenv::LUA_TSTRING);
    assert_eq!(to_string(&lua, -1).as_deref(), Some("second"));
    let code = locenv::get_field(&mut lua, -2, "missing");
    assert_eq!(code, locenv::LUA_TNIL);
}
