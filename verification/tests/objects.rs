//! Typed object exposure, method dispatch, closure isolation, and
//! function registration, driven against the model engine.

use locenv::{
    bootstrap, dispatch_closure, dispatch_free, dispatch_method, get_field, get_metatable,
    push_closure, new_userdata, set_functions, value_at, BootstrapContext, Closure, EngineError,
    FunctionEntry, LuaState, MethodEntry, NativeFn, NativeHeap, Object, UserData, Value,
};

const GET: usize = 7;
const SET: usize = 8;

struct Counter {
    n: i64,
    last_method: usize,
}

impl UserData for Counter {
    fn spec_type_label() -> vstd::seq::Seq<char> {
        panic!()
    }

    fn type_label() -> &'static str {
        "Counter"
    }
}

impl Object for Counter {
    fn spec_methods() -> vstd::seq::Seq<(vstd::seq::Seq<char>, usize)> {
        panic!()
    }

    fn methods() -> Vec<MethodEntry> {
        vec![
            MethodEntry { name: "get", function: GET },
            MethodEntry { name: "set", function: SET },
        ]
    }

    fn invoke(&mut self, method: usize, _lua: &mut LuaState) -> Result<i32, EngineError> {
        self.last_method = method;
        if method == SET {
            self.n += 1;
        }
        Ok(0)
    }
}

struct Greeter {
    calls: i64,
}

impl UserData for Greeter {
    fn spec_type_label() -> vstd::seq::Seq<char> {
        panic!()
    }

    fn type_label() -> &'static str {
        "Greeter"
    }
}

impl Closure for Greeter {
    fn call(&mut self, _lua: &mut LuaState) -> Result<i32, EngineError> {
        self.calls += 1;
        Ok(0)
    }
}

fn booted(name: &str) -> LuaState {
    let mut lua = LuaState::new(0);
    let descriptor = BootstrapContext {
        revision: 0,
        name: String::from(name),
        locenv: 7,
        working_directory: String::from("/work"),
    };
    bootstrap(&mut lua, &descriptor, 1).unwrap();
    lua
}

#[test]
fn one_metatable_per_type_key() {
    let mut lua = booted("mymod");
    let mut counters: NativeHeap<Counter> = NativeHeap::new();
    new_userdata(&mut lua, &mut counters, 2, Counter { n: 0, last_method: 0 }).unwrap();
    let metatables = lua.metatable_count();
    let closures = lua.closure_count();
    let tables = lua.table_count();
    new_userdata(&mut lua, &mut counters, 2, Counter { n: 1, last_method: 0 }).unwrap();
    new_userdata(&mut lua, &mut counters, 2, Counter { n: 2, last_method: 0 }).unwrap();
    // no second finalizer installation, method-table build, or metatable
    assert_eq!(lua.metatable_count(), metatables);
    assert_eq!(lua.closure_count(), closures);
    assert_eq!(lua.table_count(), tables);
}

#[test]
fn method_dispatch_reaches_the_declared_method() {
    let mut lua = booted("mymod");
    let mut counters: NativeHeap<Counter> = NativeHeap::new();
    new_userdata(&mut lua, &mut counters, 2, Counter { n: 10, last_method: 0 }).unwrap();
    let obj = value_at(&lua, 3).unwrap();
    let addr = match obj {
        Value::UserData(s) => lua.slots[s].addr,
        _ => unreachable!(),
    };
    // engine-side resolution: obj -> metatable -> __index -> "set"
    assert!(get_metatable(&mut lua, 3));
    get_field(&mut lua, -1, "__index");
    get_field(&mut lua, -1, "set");
    let fid = match value_at(&lua, -1) {
        Some(Value::Function(f)) => f,
        other => panic!("expected the method closure, got {:?}", other),
    };
    // the engine calls the shim with the receiver at stack position 1
    lua.stack = vec![obj];
    assert_eq!(dispatch_method(&mut lua, &mut counters, fid), Ok(0));
    let c = counters.get(addr).unwrap();
    assert_eq!(c.last_method, SET);
    assert_eq!(c.n, 11);

    // and "get" reaches the other declared method, same receiver
    assert!(get_metatable(&mut lua, 1));
    get_field(&mut lua, -1, "__index");
    get_field(&mut lua, -1, "get");
    let fid_get = match value_at(&lua, -1) {
        Some(Value::Function(f)) => f,
        other => panic!("expected the method closure, got {:?}", other),
    };
    lua.stack = vec![obj];
    assert_eq!(dispatch_method(&mut lua, &mut counters, fid_get), Ok(0));
    let c = counters.get(addr).unwrap();
    assert_eq!(c.last_method, GET);
    assert_eq!(c.n, 11);
}

#[test]
fn closures_have_isolated_state() {
    let mut lua = booted("mymod");
    let mut greeters: NativeHeap<Greeter> = NativeHeap::new();
    push_closure(&mut lua, &mut greeters, 2, Greeter { calls: 0 }).unwrap();
    let f1 = match value_at(&lua, -1) {
        Some(Value::Function(f)) => f,
        other => panic!("expected a closure, got {:?}", other),
    };
    push_closure(&mut lua, &mut greeters, 2, Greeter { calls: 0 }).unwrap();
    let f2 = match value_at(&lua, -1) {
        Some(Value::Function(f)) => f,
        other => panic!("expected a closure, got {:?}", other),
    };
    // distinct closures over distinct allocations
    assert_ne!(f1, f2);
    let a1 = match &lua.funcs[f1].upvalues[1] {
        Value::UserData(s) => lua.slots[*s].addr,
        other => panic!("expected the boxed slot upvalue, got {:?}", other),
    };
    let a2 = match &lua.funcs[f2].upvalues[1] {
        Value::UserData(s) => lua.slots[*s].addr,
        other => panic!("expected the boxed slot upvalue, got {:?}", other),
    };
    assert_ne!(a1, a2);
    // calling the first twice and the second once never aliases state
    assert_eq!(dispatch_closure(&mut lua, &mut greeters, f1), Ok(0));
    assert_eq!(dispatch_closure(&mut lua, &mut greeters, f1), Ok(0));
    assert_eq!(dispatch_closure(&mut lua, &mut greeters, f2), Ok(0));
    assert_eq!(greeters.get(a1).unwrap().calls, 2);
    assert_eq!(greeters.get(a2).unwrap().calls, 1);
}

#[test]
fn finalizer_frees_exactly_the_collected_value() {
    let mut lua = booted("mymod");
    let mut counters: NativeHeap<Counter> = NativeHeap::new();
    new_userdata(&mut lua, &mut counters, 2, Counter { n: 0, last_method: 0 }).unwrap();
    new_userdata(&mut lua, &mut counters, 2, Counter { n: 1, last_method: 0 }).unwrap();
    let first = value_at(&lua, 3).unwrap();
    let (a1, a2) = match (value_at(&lua, 3), value_at(&lua, 4)) {
        (Some(Value::UserData(s1)), Some(Value::UserData(s2))) => {
            (lua.slots[s1].addr, lua.slots[s2].addr)
        }
        other => panic!("expected two userdata handles, got {:?}", other),
    };
    let fid = lua
        .funcs
        .iter()
        .position(|c| matches!(c.func, NativeFn::FreeUserData(_)))
        .unwrap();
    lua.stack = vec![first];
    assert_eq!(dispatch_free(&mut lua, &mut counters, fid), Ok(0));
    assert!(!lua.allocation_live(a1));
    assert!(counters.get(a1).is_none());
    // the sibling allocation is untouched
    assert!(lua.allocation_live(a2));
    assert_eq!(counters.get(a2).unwrap().n, 1);
}

#[test]
fn dispatch_rejects_a_receiver_of_another_type() {
    let mut lua = booted("mymod");
    let mut counters: NativeHeap<Counter> = NativeHeap::new();
    let mut greeters: NativeHeap<Greeter> = NativeHeap::new();
    new_userdata(&mut lua, &mut counters, 2, Counter { n: 0, last_method: 0 }).unwrap();
    push_closure(&mut lua, &mut greeters, 2, Greeter { calls: 0 }).unwrap();
    // resolve Counter's "get" closure
    assert!(get_metatable(&mut lua, 3));
    get_field(&mut lua, -1, "__index");
    get_field(&mut lua, -1, "get");
    let fid = match value_at(&lua, -1) {
        Some(Value::Function(f)) => f,
        other => panic!("expected the method closure, got {:?}", other),
    };
    // hand it the greeter's slot (an upvalue of the pushed closure) instead
    let wrong = lua.funcs[match value_at(&lua, 4) {
        Some(Value::Function(f)) => f,
        other => panic!("expected the closure, got {:?}", other),
    }]
    .upvalues[1];
    lua.stack = vec![wrong];
    match dispatch_method(&mut lua, &mut counters, fid) {
        Err(EngineError::WrongType { index, expected }) => {
            assert_eq!(index, 1);
            assert_eq!(expected, "mymod.Counter");
        }
        other => panic!("expected a type error, got {:?}", other),
    }
}

#[test]
fn set_functions_registers_entries_with_shared_upvalues() {
    let mut lua = booted("mymod");
    locenv::create_table(&mut lua, 0, 2);
    locenv::push_str(&mut lua, "shared");
    set_functions(
        &mut lua,
        &[
            FunctionEntry { name: "run", function: Some(11) },
            FunctionEntry { name: "skip", function: None },
            FunctionEntry { name: "stop", function: Some(12) },
        ],
        1,
    );
    // the shared upvalue was popped; the table is back on top
    assert!(matches!(value_at(&lua, -1), Some(Value::Table(_))));
    get_field(&mut lua, -1, "run");
    let f_run = match value_at(&lua, -1) {
        Some(Value::Function(f)) => f,
        other => panic!("expected a registered function, got {:?}", other),
    };
    assert_eq!(lua.funcs[f_run].func, NativeFn::User(11));
    assert!(matches!(lua.funcs[f_run].upvalues[0], Value::Str(_)));
    get_field(&mut lua, -2, "stop");
    let f_stop = match value_at(&lua, -1) {
        Some(Value::Function(f)) => f,
        other => panic!("expected a registered function, got {:?}", other),
    };
    assert_eq!(lua.funcs[f_stop].func, NativeFn::User(12));
    get_field(&mut lua, -3, "skip");
    assert!(matches!(value_at(&lua, -1), Some(Value::Nil)));
}
