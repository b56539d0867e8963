//! A verified model of a module-binding layer for a stack-based scripting
//! engine: bootstrap protocol, context-scoped typed userdata, method and
//! closure dispatch, and finalization, all specified against an explicit
//! model of the engine state (`api::LuaState`).

pub mod api;
pub mod context;
pub mod laws;
pub mod stack;
pub mod userdata;

pub use crate::api::{
    Alloc, BootstrapContext, CClosure, EngineError, Host, LuaState, NativeFn, RegEntry, Slot,
    Table, Value, LUAI_MAXSTACK, LUA_REGISTRYINDEX, LUA_TBOOLEAN, LUA_TFUNCTION,
    LUA_TLIGHTUSERDATA, LUA_TNIL, LUA_TNONE, LUA_TSTRING, LUA_TTABLE, LUA_TUSERDATA,
};
pub use crate::context::{bootstrap, Context};
pub use crate::stack::{
    abs_index, argument_error, check_string, create_table, error, error_with_message, get_field,
    get_metatable, is_none_or_nil, opt_string, pop, push_fn, push_nil, push_str, push_value,
    set_field, set_metatable, to_string, type_error, upvalue_index, value_at,
};
pub use crate::userdata::{
    dispatch_closure, dispatch_free, dispatch_method, execute_closure, free_userdata,
    invoke_method, new_userdata, push_closure, set_functions, Closure, FunctionEntry,
    MethodEntry, NativeHeap, Object, UserData,
};
