//! Bootstrap protocol, context recovery, finalization, and path
//! resolution, driven against the model engine.

use locenv::{
    bootstrap, value_at, BootstrapContext, Context, EngineError, Host, LuaState, NativeFn, Value,
};

fn descriptor(name: &str) -> BootstrapContext {
    BootstrapContext {
        revision: 0,
        name: String::from(name),
        locenv: 7,
        working_directory: String::from("/work/mymod"),
    }
}

#[test]
fn bootstrap_returns_two_values() {
    let mut lua = LuaState::new(0);
    let r = bootstrap(&mut lua, &descriptor("mymod"), 1);
    assert_eq!(r, Ok(2));
    assert_eq!(lua.stack_size(), 2);
    assert!(matches!(value_at(&lua, 1), Some(Value::Function(_))));
    assert!(matches!(value_at(&lua, 2), Some(Value::UserData(_))));
    assert_eq!(lua.metatable_count(), 1);
}

#[test]
fn bootstrap_duplicate_keeps_stack_balanced() {
    let mut lua = LuaState::new(0);
    assert_eq!(bootstrap(&mut lua, &descriptor("mymod"), 1), Ok(2));
    let depth = lua.stack_size();
    let metatables = lua.metatable_count();
    let closures = lua.closure_count();
    let r = bootstrap(&mut lua, &descriptor("mymod"), 2);
    match r {
        Err(EngineError::DuplicateMetatable { module }) => {
            assert_eq!(module, "mymod");
        }
        other => panic!("expected a duplicate-metatable error, got {:?}", other),
    }
    assert_eq!(lua.stack_size(), depth);
    assert_eq!(lua.metatable_count(), metatables);
    assert_eq!(lua.closure_count(), closures);
}

#[test]
fn two_modules_bootstrap_independently() {
    let mut lua = LuaState::new(0);
    assert_eq!(bootstrap(&mut lua, &descriptor("alpha"), 1), Ok(2));
    assert_eq!(bootstrap(&mut lua, &descriptor("beta"), 2), Ok(2));
    assert_eq!(lua.stack_size(), 4);
    assert_eq!(lua.metatable_count(), 2);
}

#[test]
fn from_lua_recovers_the_context() {
    let mut lua = LuaState::new(0);
    bootstrap(&mut lua, &descriptor("mymod"), 1).unwrap();
    let ctx = Context::from_lua(&lua, 2).unwrap();
    assert_eq!(ctx.module_name(), "mymod");
    assert_eq!(ctx.working_directory(), "/work/mymod");
}

#[test]
fn from_lua_rejects_non_userdata() {
    let mut lua = LuaState::new(0);
    bootstrap(&mut lua, &descriptor("mymod"), 1).unwrap();
    assert!(matches!(
        Context::from_lua(&lua, 1),
        Err(EngineError::NotUserData { index: 1 })
    ));
    assert!(matches!(
        Context::from_lua(&lua, 9),
        Err(EngineError::NotUserData { index: 9 })
    ));
}

#[test]
fn finalize_destroys_the_context_once() {
    let mut lua = LuaState::new(0);
    bootstrap(&mut lua, &descriptor("mymod"), 1).unwrap();
    let ud = value_at(&lua, 2).unwrap();
    let addr = match ud {
        Value::UserData(s) => lua.slots[s].addr,
        _ => unreachable!(),
    };
    assert!(lua.allocation_live(addr));
    // find the finalizer closure held in the metatable under __gc
    let fid = lua
        .funcs
        .iter()
        .position(|c| matches!(c.func, NativeFn::FinalizeContext))
        .unwrap();
    // the engine invokes the finalizer with the collected slot at position 1
    lua.stack = vec![ud];
    assert_eq!(Context::finalize(&mut lua, fid), Ok(0));
    assert!(!lua.allocation_live(addr));
    assert!(lua.heap[addr].context.is_none());
}

#[test]
fn configurations_path_is_root_config_module() {
    let mut lua = LuaState::new(0);
    bootstrap(&mut lua, &descriptor("mymod"), 1).unwrap();
    let ctx = Context::from_lua(&lua, 2).unwrap();
    let host = Host {
        handle: 7,
        config_root: String::from("/data"),
    };
    let p = ctx.configurations_path(&host);
    assert_eq!(p, "/data/config/mymod");
    // repeated resolution returns the same path
    assert_eq!(ctx.configurations_path(&host), p);
}

#[test]
fn configurations_path_grows_its_buffer() {
    // a host whose true answer exceeds the initial 256-unit buffer
    let mut lua = LuaState::new(0);
    bootstrap(&mut lua, &descriptor("mymod"), 1).unwrap();
    let ctx = Context::from_lua(&lua, 2).unwrap();
    let long_root: String = std::iter::repeat('r').take(500).collect();
    let host = Host {
        handle: 7,
        config_root: long_root.clone(),
    };
    let p = ctx.configurations_path(&host);
    assert_eq!(p, format!("{}/config/mymod", long_root));
    assert_eq!(p.len(), 500 + "/config/mymod".len());
}

#[test]
fn from_lua_rejects_a_typed_object_handle() {
    // a slot tagged with a qualified object key is never accepted as a context
    let mut lua = LuaState::new(0);
    bootstrap(&mut lua, &descriptor("mymod"), 1).unwrap();
    let mut boxes: locenv::NativeHeap<Tag> = locenv::NativeHeap::new();
    locenv::new_userdata(&mut lua, &mut boxes, 2, Tag).unwrap();
    assert!(matches!(
        Context::from_lua(&lua, 3),
        Err(EngineError::NotContext { index: 3 })
    ));
    // while the genuine context handle still resolves
    assert!(Context::from_lua(&lua, 2).is_ok());
}

#[test]
fn from_lua_rejects_an_unreadable_metatable_name() {
    // a slot whose metatable carries no readable name is rejected before
    // any dereference
    let mut lua = LuaState::new(0);
    bootstrap(&mut lua, &descriptor("mymod"), 1).unwrap();
    lua.tables.push(locenv::Table { fields: Vec::new() });
    let tid = lua.tables.len() - 1;
    let s = match value_at(&lua, 2) {
        Some(Value::UserData(s)) => s,
        _ => unreachable!(),
    };
    let addr = lua.slots[s].addr;
    lua.slots.push(locenv::Slot { addr, meta: Some(tid) });
    lua.stack.push(Value::UserData(lua.slots.len() - 1));
    assert!(matches!(
        Context::from_lua(&lua, 3),
        Err(EngineError::BadMetatable { index: 3 })
    ));
}

struct Tag;

impl locenv::UserData for Tag {
    fn spec_type_label() -> vstd::seq::Seq<char> {
        panic!()
    }

    fn type_label() -> &'static str {
        "Tag"
    }
}

impl locenv::Object for Tag {
    fn spec_methods() -> vstd::seq::Seq<(vstd::seq::Seq<char>, usize)> {
        panic!()
    }

    fn methods() -> Vec<locenv::MethodEntry> {
        Vec::new()
    }

    fn invoke(&mut self, _method: usize, _lua: &mut LuaState) -> Result<i32, EngineError> {
        Ok(0)
    }
}

#[test]
fn from_lua_rejects_the_reserved_manager_name() {
    // the engine reserves the manager's own name; a slot under it is not a
    // module context
    let mut lua = LuaState::new(0);
    bootstrap(&mut lua, &descriptor("locenv"), 1).unwrap();
    assert!(matches!(
        Context::from_lua(&lua, 2),
        Err(EngineError::NotContext { index: 2 })
    ));
}
