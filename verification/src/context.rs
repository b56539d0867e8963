//! The per-module context: the record bootstrap builds from the host's
//! descriptor and anchors all of the module's typed objects to.

use crate::api::{
    has_dot, reserved_name, stack_at, tbl_get, Alloc, BootstrapContext, EngineError, Host,
    LuaState, NativeFn, Slot, Value,
};
use vstd::prelude::*;
use vstd::string::{StrSliceExecFns, StringExecFns};

verus! {

/// True if `s` contains a `'.'`.
pub(crate) fn contains_dot(s: &str) -> (r: bool)
    ensures
        r == has_dot(s@),
{
    let n = s.unicode_len();
    let mut i: usize = 0;
    let mut found = false;
    while i < n
        invariant
            0 <= i <= n,
            n == s@.len(),
            found == exists|j: int| 0 <= j < i && s@[j] == '.',
        decreases n - i,
    {
        if s.get_char(i) == '.' {
            found = true;
        }
        i += 1;
    }
    found
}

/// The context-and-module-qualified metatable name for an exposed type:
/// `<module>.<type>`.
pub open spec fn qualified_key(module: Seq<char>, type_label: Seq<char>) -> Seq<char> {
    module + seq!['.'] + type_label
}

/// A qualified key always contains a dot, so it can never be mistaken for
/// the bare module name that tags a context.
pub proof fn lemma_qualified_key_has_dot(module: Seq<char>, type_label: Seq<char>)
    ensures
        has_dot(qualified_key(module, type_label)),
{
    let k = qualified_key(module, type_label);
    assert(k[module.len() as int] == '.');
}

/// The execution context of the current module: its identity, its working
/// directory, and the handle of the host that loaded it.
#[derive(Debug)]
pub struct Context {
    pub locenv: usize,
    pub module_name: String,
    pub working_directory: String,
}

impl Context {
    /// Builds a context by copying the descriptor's fields one for one.
    pub fn new(bootstrap: &BootstrapContext) -> (r: Context)
        ensures
            r.locenv == bootstrap.locenv,
            r.module_name == bootstrap.name,
            r.working_directory == bootstrap.working_directory,
    {
        Context {
            locenv: bootstrap.locenv,
            module_name: bootstrap.name.clone(),
            working_directory: bootstrap.working_directory.clone(),
        }
    }

    /// Gets name of the current module.
    pub fn module_name(&self) -> (r: &str)
        ensures
            r@ == self.module_name@,
    {
        self.module_name.as_str()
    }

    /// Gets the full path to the directory the module is working in.
    pub fn working_directory(&self) -> (r: &str)
        ensures
            r@ == self.working_directory@,
    {
        self.working_directory.as_str()
    }

    /// The qualified metatable name under which values of the exposed type
    /// named `type_label` are tagged within this module.
    pub(crate) fn get_type_label(&self, type_label: &str) -> (r: String)
        ensures
            r@ == qualified_key(self.module_name@, type_label@),
    {
        proof {
            reveal_strlit(".");
            assert("."@ =~= seq!['.']);
        }
        let r = self.module_name.clone().concat(".").concat(type_label);
        proof {
            assert(r@ =~= qualified_key(self.module_name@, type_label@));
        }
        r
    }
}

/// The outcome of validating an engine value as a context handle: the
/// stored allocation address when the value is a userdata slot whose
/// metatable declares a bare, unreserved module name; the engine error the
/// protocol reports otherwise. Validation happens entirely before the
/// stored address is dereferenced.
pub open spec fn ctx_check(lua: LuaState, v: Value, index: i32) -> Result<usize, EngineError> {
    match v {
        Value::UserData(s) => match lua.slots@[s as int].meta {
            Some(t) => match tbl_get(lua.tables@[t as int].fields@, "__name"@) {
                Some(Value::Str(n)) => if reserved_name(lua.strings@[n as int]@) || has_dot(
                    lua.strings@[n as int]@,
                ) {
                    Err(EngineError::NotContext { index })
                } else {
                    Ok(lua.slots@[s as int].addr)
                },
                _ => Err(EngineError::BadMetatable { index }),
            },
            None => Err(EngineError::NotContext { index }),
        },
        _ => Err(EngineError::NotUserData { index }),
    }
}

/// The outcome of `Context::from_lua` at a stack index.
pub open spec fn ctx_resolve(lua: LuaState, index: i32) -> Result<usize, EngineError> {
    match stack_at(lua, index as int) {
        Some(v) => ctx_check(lua, v, index),
        None => Err(EngineError::NotUserData { index }),
    }
}

/// The engine's reachability guarantee: a context handle that validation
/// accepts refers to an allocation its collector has not yet reclaimed.
pub open spec fn ctx_live(lua: LuaState, index: i32) -> bool {
    ctx_resolve(lua, index) matches Ok(a) ==> lua.heap@[a as int].live
}

/// The allocation address a context handle refers to, if it validates;
/// the index carried by the error is irrelevant here.
pub open spec fn ctx_addr(lua: LuaState, v: Value) -> Option<usize> {
    match ctx_check(lua, v, 0) {
        Ok(a) => Some(a),
        Err(_) => None,
    }
}

/// Validates `v` as a context handle, returning the stored allocation
/// address or the protocol's error for the failing check.
pub(crate) fn check_context(lua: &LuaState, v: Value, index: i32) -> (r: Result<
    usize,
    EngineError,
>)
    requires
        lua.wf(),
        lua.wf_value(v),
    ensures
        r == ctx_check(*lua, v, index),
{
    let s = match v {
        Value::UserData(s) => s,
        _ => {
            return Err(EngineError::NotUserData { index });
        },
    };
    let t = match lua.slots[s].meta {
        Some(t) => t,
        None => {
            return Err(EngineError::NotContext { index });
        },
    };
    proof {
        assert(lua.slots_ok());
    }
    let name_key = String::from_str("__name");
    let n = match crate::stack::table_get(&lua.tables[t], &name_key) {
        Some(Value::Str(n)) => n,
        _ => {
            return Err(EngineError::BadMetatable { index });
        },
    };
    proof {
        crate::api::lemma_tbl_get_is_field(lua.tables@[t as int].fields@, "__name"@);
        let v2 = tbl_get(lua.tables@[t as int].fields@, "__name"@).unwrap();
        let j = choose|j: int|
            0 <= j < lua.tables@[t as int].fields@.len() && #[trigger] lua.tables@[t
                as int].fields@[j].1 == v2;
        assert(lua.wf_value(lua.tables@[t as int].fields@[j].1));
    }
    let reserved = String::from_str("locenv");
    if lua.strings[n] == reserved {
        return Err(EngineError::NotContext { index });
    }
    if contains_dot(lua.strings[n].as_str()) {
        return Err(EngineError::NotContext { index });
    }
    Ok(lua.slots[s].addr)
}

/// The chain that lets a validated context handle be dereferenced: the
/// metatable's declared name is registered, registration couples the slot
/// to its allocation's key, and a live allocation under a bare unreserved
/// key holds a context.
pub(crate) proof fn lemma_ctx_check_sound(lua: LuaState, v: Value, index: i32)
    requires
        lua.wf(),
        lua.wf_value(v),
        ctx_check(lua, v, index) is Ok,
    ensures
        ctx_check(lua, v, index) matches Ok(a) ==> a < lua.heap@.len() && !has_dot(
            lua.key_view(a as int),
        ) && !reserved_name(lua.key_view(a as int)) && (lua.heap@[a as int].live
            ==> lua.heap@[a as int].context is Some),
{
    let s = v->UserData_0;
    let t = lua.slots@[s as int].meta->Some_0;
    let n = tbl_get(lua.tables@[t as int].fields@, "__name"@).unwrap()->Str_0;
    assert(lua.slots_ok());
    assert(lua.names_ok());
    assert(lua.reg_maps(n, t as usize));
    let r = choose|r: int|
        0 <= r < lua.registry@.len() && (#[trigger] lua.registry@[r]).name == n
            && lua.registry@[r].table == t as usize;
    assert(lua.coupling_ok());
    assert(lua.slots@[s as int].meta == Some(lua.registry@[r].table));
    assert(lua.heap@[lua.slots@[s as int].addr as int].key == n);
    assert(lua.contexts_ok());
}

/// Validates `v` as a context handle and hands out the context it refers
/// to; the caller must know the allocation is live (the engine guarantee).
pub(crate) fn context_at<'a>(lua: &'a LuaState, v: Value, index: i32) -> (r: Result<
    &'a Context,
    EngineError,
>)
    requires
        lua.wf(),
        lua.wf_value(v),
        ctx_check(*lua, v, index) matches Ok(a) ==> lua.heap@[a as int].live,
    ensures
        match ctx_check(*lua, v, index) {
            Ok(a) => r matches Ok(c) && lua.heap@[a as int].context == Some(*c),
            Err(e) => r matches Err(e2) && e2 == e,
        },
{
    let addr = match check_context(lua, v, index) {
        Ok(addr) => addr,
        Err(e) => {
            return Err(e);
        },
    };
    proof {
        lemma_ctx_check_sound(*lua, v, index);
    }
    match lua.heap[addr].context.as_ref() {
        Some(c) => Ok(c),
        None => {
            proof {
                assert(false);
            }
            Err(EngineError::NotContext { index })
        },
    }
}

impl Context {
    /// Gets a reference to the context from the engine stack at the
    /// specified index.
    ///
    /// Validation precedes any dereference: the value must be a userdata
    /// slot whose metatable declares a readable name that is a bare,
    /// unreserved module name; a type-qualified object key is rejected.
    pub fn from_lua<'a>(lua: &'a LuaState, index: i32) -> (r: Result<&'a Context, EngineError>)
        requires
            lua.wf(),
            ctx_live(*lua, index),
        ensures
            match ctx_resolve(*lua, index) {
                Ok(a) => r matches Ok(c) && lua.heap@[a as int].context == Some(*c),
                Err(e) => r matches Err(e2) && e2 == e,
            },
    {
        let v = match crate::stack::value_at(lua, index) {
            Some(v) => v,
            None => {
                return Err(EngineError::NotUserData { index });
            },
        };
        context_at(lua, v, index)
    }
}

/// The context allocation a finalizer shim destroys: upvalue 1 carries
/// the metatable name the context was registered under, and the collected
/// slot sits at stack position 1.
pub open spec fn finalize_target(lua: LuaState, func: usize) -> Option<usize> {
    let c = lua.funcs@[func as int];
    match c.func {
        crate::api::NativeFn::FinalizeContext => if c.upvalues@.len() == 1 {
            match c.upvalues@[0] {
                Value::Str(n) => crate::userdata::cud_addr(
                    lua,
                    stack_at(lua, 1),
                    lua.strings@[n as int]@,
                ),
                _ => None,
            }
        } else {
            None
        },
        _ => None,
    }
}

impl Context {
    /// The finalizer for a context: recovers the context's own address
    /// from the collected slot, checked against the metatable name held as
    /// upvalue 1, and destroys it — a single deallocation. The engine's
    /// collector invokes it exactly once per slot; a second invocation on
    /// the same slot is ruled out by the precondition.
    pub fn finalize(lua: &mut LuaState, func: usize) -> (r: Result<i32, EngineError>)
        requires
            old(lua).wf(),
            func < old(lua).funcs@.len(),
            old(lua).funcs@[func as int].func is FinalizeContext,
            finalize_target(*old(lua), func) matches Some(a) ==> old(lua).heap@[a as int].live,
        ensures
            final(lua).wf(),
            match finalize_target(*old(lua), func) {
                Some(a) => {
                    &&& r == Ok::<i32, EngineError>(0)
                    &&& final(lua).heap@.len() == old(lua).heap@.len()
                    &&& forall|i: int|
                        0 <= i < old(lua).heap@.len() && i != a ==> final(lua).heap@[i] == old(
                            lua,
                        ).heap@[i]
                    &&& final(lua).heap@[a as int].key == old(lua).heap@[a as int].key
                    &&& !final(lua).heap@[a as int].live
                    &&& final(lua).heap@[a as int].context is None
                    &&& final(lua).stack@ == old(lua).stack@
                    &&& final(lua).strings@ == old(lua).strings@
                    &&& final(lua).tables@ == old(lua).tables@
                    &&& final(lua).funcs@ == old(lua).funcs@
                    &&& final(lua).slots@ == old(lua).slots@
                    &&& final(lua).registry@ == old(lua).registry@
                },
                None => r is Err && *final(lua) == *old(lua),
            },
    {
        if lua.funcs[func].upvalues.len() != 1 {
            return Err(crate::stack::error_with_message("malformed context finalizer"));
        }
        let up0 = lua.funcs[func].upvalues[0];
        proof {
            assert(lua.funcs_ok());
            assert(lua.wf_value(up0));
        }
        let n = match up0 {
            Value::Str(n) => n,
            _ => {
                return Err(crate::stack::error_with_message("malformed context finalizer"));
            },
        };
        let name = lua.strings[n].clone();
        let receiver = crate::stack::value_at(lua, 1);
        proof {
            assert(receiver matches Some(x) ==> lua.wf_value(x));
        }
        let addr = match crate::userdata::checked_udata(lua, receiver, &name, 1) {
            Ok(a) => a,
            Err(e) => {
                return Err(e);
            },
        };
        crate::api::release_alloc(lua, addr);
        Ok(0)
    }
}

/// Bootstraps a loadable module: builds a context from the descriptor,
/// pushes the module's entry point (the user function numbered `loader`),
/// moves the context into a fresh engine slot, and tags that slot with a
/// metatable named after the module, carrying the context finalizer under
/// `__gc`. On success the entry point and the context handle sit on the
/// stack and the returned arity is 2.
///
/// If a metatable with the module's name already exists — two distinct
/// modules claimed the same identity — every partial effect is undone: the
/// stack is left exactly as it was, the partially built context is
/// destroyed, and the error names the offending module.
#[verifier::rlimit(100)]
pub fn bootstrap(lua: &mut LuaState, descriptor: &BootstrapContext, loader: usize) -> (r: Result<
    u32,
    EngineError,
>)
    requires
        old(lua).wf(),
        old(lua).stack@.len() + 4 <= crate::api::LUAI_MAXSTACK as int,
    ensures
        final(lua).wf(),
        final(lua).strings@.subrange(0, old(lua).strings@.len() as int) == old(lua).strings@,
        final(lua).strings@.len() <= old(lua).strings@.len() + 1,
        old(lua).has_reg_name(descriptor.name@) ==> ({
            &&& r matches Err(e) && (e matches EngineError::DuplicateMetatable { module }
                && module@ == descriptor.name@)
            &&& final(lua).stack@ == old(lua).stack@
            &&& final(lua).tables@ == old(lua).tables@
            &&& final(lua).funcs@ == old(lua).funcs@
            &&& final(lua).slots@ == old(lua).slots@
            &&& final(lua).heap@ == old(lua).heap@
            &&& final(lua).registry@ == old(lua).registry@
            &&& final(lua).revision == old(lua).revision
        }),
        !old(lua).has_reg_name(descriptor.name@) ==> ({
            &&& r == Ok::<u32, EngineError>(2)
            &&& final(lua).stack@ == old(lua).stack@ + seq![
                Value::Function(old(lua).funcs@.len() as usize),
                Value::UserData(old(lua).slots@.len() as usize),
            ]
            &&& final(lua).funcs@.len() == old(lua).funcs@.len() + 2
            &&& (forall|f: int|
                0 <= f < old(lua).funcs@.len() ==> #[trigger] final(lua).funcs@[f] == old(
                    lua,
                ).funcs@[f])
            &&& final(lua).funcs@[old(lua).funcs@.len() as int].func == NativeFn::User(loader)
            &&& final(lua).funcs@[old(lua).funcs@.len() as int].upvalues@.len() == 0
            &&& final(lua).funcs@[old(lua).funcs@.len() + 1 as int].func
                is FinalizeContext
            &&& final(lua).funcs@[old(lua).funcs@.len() + 1 as int].upvalues@.len() == 1
            &&& (final(lua).funcs@[old(lua).funcs@.len() + 1 as int].upvalues@[0]
                matches Value::Str(n) && final(lua).strings@[n as int]@ == descriptor.name@)
            &&& final(lua).heap@.len() == old(lua).heap@.len() + 1
            &&& (forall|i: int|
                0 <= i < old(lua).heap@.len() ==> #[trigger] final(lua).heap@[i] == old(
                    lua,
                ).heap@[i])
            &&& final(lua).heap@.last().live
            &&& final(lua).key_view(old(lua).heap@.len() as int) == descriptor.name@
            &&& (final(lua).heap@.last().context matches Some(c) && c.locenv == descriptor.locenv
                && c.module_name == descriptor.name && c.working_directory
                == descriptor.working_directory)
            &&& final(lua).slots@.len() == old(lua).slots@.len() + 1
            &&& (forall|i: int|
                0 <= i < old(lua).slots@.len() ==> #[trigger] final(lua).slots@[i] == old(
                    lua,
                ).slots@[i])
            &&& final(lua).slots@.last().addr == old(lua).heap@.len()
            &&& final(lua).slots@.last().meta == Some(old(lua).tables@.len() as usize)
            &&& final(lua).tables@.len() == old(lua).tables@.len() + 1
            &&& (forall|t: int|
                0 <= t < old(lua).tables@.len() ==> #[trigger] final(lua).tables@[t] == old(
                    lua,
                ).tables@[t])
            &&& tbl_get(final(lua).tables@[old(lua).tables@.len() as int].fields@, "__gc"@)
                == Some(Value::Function((old(lua).funcs@.len() + 1) as usize))
            &&& final(lua).registry@.len() == old(lua).registry@.len() + 1
            &&& (forall|i: int|
                0 <= i < old(lua).registry@.len() ==> #[trigger] final(lua).registry@[i] == old(
                    lua,
                ).registry@[i])
            &&& final(lua).registry@.last().table == old(lua).tables@.len()
            &&& final(lua).registry@.last().name < final(lua).strings@.len()
            &&& final(lua).strings@[final(lua).registry@.last().name as int]@
                == descriptor.name@
        }),
{
    let context = Context::new(descriptor);
    crate::stack::push_fn(lua, NativeFn::User(loader), 0);
    let ghost s1 = *lua;
    proof {
        assert(s1.stack@ =~= old(lua).stack@.push(
            Value::Function(old(lua).funcs@.len() as usize),
        ));
    }
    // move the context into a fresh engine slot
    let addr = lua.heap.len();
    let nsid = lua.intern(descriptor.name.as_str());
    let ghost s2 = *lua;
    lua.heap.push(Alloc { key: nsid, live: true, context: Some(context) });
    let slot_id = lua.slots.len();
    lua.slots.push(Slot { addr, meta: None });
    lua.stack.push(Value::UserData(slot_id));
    proof {
        assert forall|i2: int| 0 <= i2 < lua.stack@.len() implies lua.wf_value(
            #[trigger] lua.stack@[i2]) by {
            if i2 < lua.stack@.len() - 1 {
                assert(lua.stack@[i2] == s2.stack@[i2]);
                assert(s2.wf_value(s2.stack@[i2]));
                crate::api::lemma_wf_value_frame(s2, *lua, s2.stack@[i2]);
            } else {
                assert(lua.stack@[i2] == Value::UserData(slot_id as usize));
            }
        }
        assert forall|s: int, r2: int|
            s2.slots@.len() <= s < lua.slots@.len() && 0 <= r2 < lua.registry@.len() && (
            #[trigger] lua.slots@[s]).meta == Some((#[trigger] lua.registry@[r2]).table)
            implies lua.heap@[lua.slots@[s].addr as int].key == lua.registry@[r2].name by {
            assert(lua.slots@[s].meta is None);
            assert(false);
        }
        crate::api::lemma_wf_grow(s2, *lua);
    }
    let ghost s3 = *lua;
    let meta_id = lua.tables.len();
    let created = crate::userdata::new_metatable(lua, descriptor.name.as_str());
    let ghost s4 = *lua;
    proof {
        // registration under this name is the same question in the pre-state
        assert forall|r2: int|
            0 <= r2 < s3.registry@.len() implies s3.strings@[(
        #[trigger] s3.registry@[r2]).name as int] == old(lua).strings@[s3.registry@[r2].name
            as int] by {
            assert(old(lua).registry_ok());
        }
        assert(s3.has_reg_name(descriptor.name@) <==> old(lua).has_reg_name(descriptor.name@));
    }
    if !created {
        // naming collision: discard the partial context, rebalance the stack
        crate::stack::pop(lua, 3);
        lua.slots.pop();
        lua.heap.pop();
        lua.funcs.pop();
        proof {
            assert(lua.stack@ =~= old(lua).stack@) by {
                assert(s4.stack@ =~= s3.stack@.push(s4.stack@.last()));
            }
            assert(lua.slots@ =~= old(lua).slots@);
            assert(lua.heap@ =~= old(lua).heap@);
            assert(lua.funcs@ =~= old(lua).funcs@);
            assert(lua.registry@ == old(lua).registry@);
            assert(lua.tables@ == old(lua).tables@);
            assert forall|i2: int| 0 <= i2 < lua.stack@.len() implies lua.wf_value(
                #[trigger] lua.stack@[i2]) by {
                assert(old(lua).wf_value(old(lua).stack@[i2]));
                crate::api::lemma_wf_value_frame(*old(lua), *lua, old(lua).stack@[i2]);
            }
            assert(lua.strings_ok()) by {
                assert forall|x: int, y: int|
                    0 <= x < lua.strings@.len() && 0 <= y < lua.strings@.len() && x != y
                    implies (#[trigger] lua.strings@[x])@ != (#[trigger] lua.strings@[y])@ by {
                    assert(s4.strings_ok());
                    assert(s4.strings@[x] == lua.strings@[x]);
                    assert(s4.strings@[y] == lua.strings@[y]);
                }
            }
            crate::api::lemma_wf_grow(*old(lua), *lua);
        }
        return Err(EngineError::DuplicateMetatable { module: descriptor.name.clone() });
    }
    // first creation: bind the context finalizer to the module's name
    proof {
        assert(s4.stack@ == s3.stack@.push(Value::Table(meta_id)));
        assert(nsid < s2.strings@.len());
        if s4.strings@.len() == s3.strings@.len() + 1 {
            assert(s4.strings@[s3.strings@.len() as int]@ == descriptor.name@);
            assert(s4.strings@.subrange(0, s3.strings@.len() as int)[nsid as int]
                == s4.strings@[nsid as int]);
            assert(s4.strings@[nsid as int]@ == descriptor.name@);
            assert(s4.strings_ok());
            assert(false);
        }
        assert(s4.strings@.len() == s3.strings@.len());
        assert(lua.strings@[nsid as int] == s2.strings@[nsid as int]) by {
            assert(lua.strings@.subrange(0, s3.strings@.len() as int) == s3.strings@);
            assert(lua.strings@.subrange(0, s3.strings@.len() as int)[nsid as int]
                == lua.strings@[nsid as int]);
        }
        assert(lua.strings@[nsid as int]@ == descriptor.name@);
    }
    crate::stack::push_str(lua, descriptor.name.as_str());
    let ghost s5 = *lua;
    proof {
        // the pushed name is the already-interned entry
        assert(s5.stack@.last() matches Value::Str(n2) && {
            &&& n2 == nsid
            &&& s5.strings@ == s4.strings@
        }) by {
            let n2 = s5.stack@.last()->Str_0;
            assert(s5.strings@[n2 as int]@ == descriptor.name@);
            assert(s5.strings@.subrange(0, s4.strings@.len() as int) == s4.strings@);
            assert(s5.strings@.subrange(0, s4.strings@.len() as int)[nsid as int]
                == s5.strings@[nsid as int]);
            assert(s5.strings@[nsid as int]@ == descriptor.name@);
            assert(s5.strings_ok());
            if n2 != nsid {
                assert(s5.strings@[n2 as int]@ != s5.strings@[nsid as int]@);
                assert(false);
            }
            if s5.strings@.len() == s4.strings@.len() + 1 {
                assert(n2 == s4.strings@.len());
                assert(false);
            }
            assert(s5.strings@ =~= s4.strings@);
        }
        assert(s5.stack@.drop_last() == s4.stack@);
    }
    crate::stack::push_fn(lua, NativeFn::FinalizeContext, 1);
    proof {
        assert(lua.funcs@.last().upvalues@ =~= seq![Value::Str(nsid)]);
        assert(lua.stack@ =~= s4.stack@.push(
            Value::Function((old(lua).funcs@.len() + 1) as usize),
        )) by {
            assert(s5.stack@.subrange(0, s5.stack@.len() - 1 as int) =~= s4.stack@);
        }
        assert(stack_at(*lua, -2) == Some(Value::Table(meta_id)));
    }
    crate::stack::set_field(lua, -2, "__gc");
    let ghost s7 = *lua;
    proof {
        assert(s7.stack@ =~= s4.stack@);
        assert(stack_at(s7, -2) == Some(Value::UserData(slot_id)));
        assert(s7.stack@.last() == Value::Table(meta_id));
        // attaching the module metatable respects the slot's key
        assert(crate::api::attach_ok(s7, slot_id, s7.stack@.last())) by {
            assert forall|r2: int|
                0 <= r2 < s7.registry@.len() && s7.stack@.last() == Value::Table((
                #[trigger] s7.registry@[r2]).table) implies s7.heap@[s7.slots@[slot_id
                as int].addr as int].key == s7.registry@[r2].name by {
                assert(s7.heap@[addr as int].key == nsid);
                if r2 < s3.registry@.len() {
                    assert(s3.registry_ok());
                    assert(s3.registry@[r2].table < s3.tables@.len());
                    assert(false);
                }
                assert(s7.strings@[s7.registry@[r2].name as int]@ == descriptor.name@);
                assert(s7.strings@[nsid as int]@ == descriptor.name@);
                assert(s7.strings_ok());
                if s7.registry@[r2].name != nsid {
                    assert(s7.strings@[s7.registry@[r2].name as int]@ != s7.strings@[nsid
                        as int]@);
                    assert(false);
                }
            }
        }
    }
    crate::stack::set_metatable(lua, -2);
    proof {
        assert(lua.stack@ =~= old(lua).stack@ + seq![
            Value::Function(old(lua).funcs@.len() as usize),
            Value::UserData(old(lua).slots@.len() as usize),
        ]);
        assert(tbl_get(lua.tables@[meta_id as int].fields@, "__gc"@) == Some(
            Value::Function((old(lua).funcs@.len() + 1) as usize),
        ));
        assert(lua.key_view(old(lua).heap@.len() as int) == descriptor.name@);
        assert(lua.registry@.last().table == old(lua).tables@.len());
        assert(lua.strings@[lua.registry@.last().name as int]@ == descriptor.name@);
    }
    Ok(2)
}

/// The text of the path under which a module's configuration is stored:
/// `<root>/config/<module>`.
pub open spec fn config_path(root: Seq<char>, module: Seq<char>) -> Seq<char> {
    root + "/config/"@ + module
}

impl Context {
    /// Gets the full path where this module's configuration is stored, in
    /// the form `<host root>/config/<module>`.
    ///
    /// The host reports the required length; the call starts with a
    /// 256-unit buffer and doubles it until the text fits, so the result is
    /// the same on every call.
    pub fn configurations_path(&self, host: &Host) -> (r: String)
        requires
            host.handle == self.locenv,
            config_path(host.config_root@, self.module_name@).len() + 1 <= 0x8000_0000,
        ensures
            r@ == config_path(host.config_root@, self.module_name@),
    {
        let mut size: u32 = 256;
        let (mut required, mut got) = host.module_configurations_path(
            self.module_name.as_str(),
            size,
        );
        while got.is_none()
            invariant
                1 <= size,
                config_path(host.config_root@, self.module_name@).len() + 1 <= 0x8000_0000,
                required as int == config_path(host.config_root@, self.module_name@).len() + 1,
                got is None ==> size < required,
                got matches Some(p) ==> p@ == config_path(host.config_root@, self.module_name@),
            decreases (if required > size { required - size } else { 0 }),
        {
            size = size * 2;
            let (r2, g2) = host.module_configurations_path(self.module_name.as_str(), size);
            required = r2;
            got = g2;
        }
        got.unwrap()
    }
}

impl Host {
    /// The host capability that resolves a module's configuration path into
    /// a caller-provided buffer of `size` units: reports the required
    /// length (text plus terminator) and hands out the text when it fits.
    pub fn module_configurations_path(&self, module: &str, size: u32) -> (r: (u32, Option<
        String,
    >))
        requires
            config_path(self.config_root@, module@).len() + 1 <= u32::MAX as int,
        ensures
            r.0 as int == config_path(self.config_root@, module@).len() + 1,
            r.1 matches Some(p) ==> p@ == config_path(self.config_root@, module@) && r.0 <= size,
            r.1 is None ==> r.0 > size,
    {
        let full = self.config_root.clone().concat("/config/").concat(module);
        let n = full.as_str().unicode_len();
        let required = (n as u32) + 1;
        if required <= size {
            (required, Some(full))
        } else {
            (required, None)
        }
    }
}

} // verus!
