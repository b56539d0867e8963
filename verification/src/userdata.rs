//! The typed object registry: boxing native values, tagging them with
//! qualified metatable names, installing finalizers and method tables, and
//! the dispatch shims the engine calls back into.

use crate::api::{
    lemma_wf_grow, lemma_wf_stack_push, stack_at, tbl_get, Alloc, EngineError, LuaState,
    NativeFn, RegEntry, Slot, Table, Value, LUAI_MAXSTACK,
};
use vstd::prelude::*;
use vstd::string::StringExecFns;

verus! {

/// Fetches the metatable registered under `name`, creating and registering
/// it first if none exists; the metatable is pushed onto the stack. Returns
/// whether it was newly created. On creation the table carries its name
/// under `__name`, as the engine contract prescribes.
pub(crate) fn new_metatable(lua: &mut LuaState, name: &str) -> (created: bool)
    requires
        old(lua).wf(),
        old(lua).stack@.len() + 1 <= LUAI_MAXSTACK as int,
    ensures
        final(lua).wf(),
        created == !old(lua).has_reg_name(name@),
        !created ==> {
            &&& final(lua).same_objects(*old(lua))
            &&& exists|r: int|
                0 <= r < old(lua).registry@.len() && old(lua).strings@[(
                #[trigger] old(lua).registry@[r]).name as int]@ == name@ && final(lua).stack@
                    == old(lua).stack@.push(Value::Table(old(lua).registry@[r].table))
        },
        created ==> {
            &&& final(lua).stack@ == old(lua).stack@.push(
                Value::Table(old(lua).tables@.len() as usize),
            )
            &&& final(lua).tables@.len() == old(lua).tables@.len() + 1
            &&& forall|t: int|
                0 <= t < old(lua).tables@.len() ==> #[trigger] final(lua).tables@[t] == old(
                    lua,
                ).tables@[t]
            &&& final(lua).registry@.len() == old(lua).registry@.len() + 1
            &&& forall|r: int|
                0 <= r < old(lua).registry@.len() ==> #[trigger] final(lua).registry@[r] == old(
                    lua,
                ).registry@[r]
            &&& final(lua).registry@.last().table == old(lua).tables@.len()
            &&& final(lua).registry@.last().name < final(lua).strings@.len()
            &&& final(lua).strings@[final(lua).registry@.last().name as int]@ == name@
            &&& tbl_get(final(lua).tables@.last().fields@, "__name"@) == Some(
                Value::Str(final(lua).registry@.last().name),
            )
            &&& forall|k: Seq<char>|
                k != "__name"@ ==> #[trigger] tbl_get(final(lua).tables@.last().fields@, k)
                    is None
            &&& final(lua).funcs@ == old(lua).funcs@
            &&& final(lua).slots@ == old(lua).slots@
            &&& final(lua).heap@ == old(lua).heap@
            &&& final(lua).revision == old(lua).revision
        },
        old(lua).strings@.len() <= final(lua).strings@.len(),
        final(lua).strings@.len() <= old(lua).strings@.len() + 1,
        final(lua).strings@.len() == old(lua).strings@.len() + 1 ==> final(lua).strings@[old(
            lua,
        ).strings@.len() as int]@ == name@,
        final(lua).strings@.subrange(0, old(lua).strings@.len() as int) == old(lua).strings@,
{
    let sid = lua.intern(name);
    let ghost mid = *lua;
    let n = lua.registry.len();
    let mut i: usize = 0;
    while i < n
        invariant
            *lua == mid,
            mid.wf(),
            old(lua).wf(),
            mid.stack@ == old(lua).stack@,
            mid.tables@ == old(lua).tables@,
            mid.funcs@ == old(lua).funcs@,
            mid.slots@ == old(lua).slots@,
            mid.heap@ == old(lua).heap@,
            mid.registry@ == old(lua).registry@,
            mid.revision == old(lua).revision,
            old(lua).stack@.len() + 1 <= LUAI_MAXSTACK as int,
            old(lua).strings@.len() <= mid.strings@.len(),
            mid.strings@.subrange(0, old(lua).strings@.len() as int) == old(lua).strings@,
            mid.strings@.len() <= old(lua).strings@.len() + 1,
            mid.strings@.len() == old(lua).strings@.len() + 1 ==> sid == old(
                lua,
            ).strings@.len(),
            n == lua.registry@.len(),
            0 <= i <= n,
            sid < lua.strings@.len(),
            lua.strings@[sid as int]@ == name@,
            forall|j: int| 0 <= j < i ==> (#[trigger] lua.registry@[j]).name != sid,
        decreases n - i,
    {
        if lua.registry[i].name == sid {
            let t = lua.registry[i].table;
            let ghost mid2 = *lua;
            lua.stack.push(Value::Table(t));
            proof {
                assert(mid2.registry_ok());
                assert(mid2.wf_value(Value::Table(t)));
                lemma_wf_stack_push(mid2, *lua, Value::Table(t));
                // the registered name has this text in the pre-state too
                assert(old(lua).registry@[i as int].name == sid);
                assert(old(lua).registry_ok());
                assert(old(lua).registry@[i as int].name < old(lua).strings@.len());
                assert(sid < old(lua).strings@.len());
                assert(mid.strings@.len() == old(lua).strings@.len());
                assert(mid.strings@ =~= old(lua).strings@);
                assert(old(lua).strings@[sid as int] == mid.strings@[sid as int]);
                assert(old(lua).has_reg_name(name@));
                assert(lua.strings@.subrange(0, old(lua).strings@.len() as int)
                    =~= old(lua).strings@);
                assert(lua.stack@ == old(lua).stack@.push(Value::Table(
                    old(lua).registry@[i as int].table,
                )));
            }
            return false;
        }
        i += 1;
    }
    proof {
        // no registered name carries this text
        if old(lua).has_reg_name(name@) {
            let r = choose|r: int|
                0 <= r < old(lua).registry@.len() && old(lua).strings@[(
                #[trigger] old(lua).registry@[r]).name as int]@ == name@;
            assert(old(lua).registry_ok());
            assert(old(lua).registry@[r].name < old(lua).strings@.len());
            assert(mid.strings@[old(lua).registry@[r].name as int]@ == name@);
            assert(mid.strings_ok());
            assert(mid.registry@[r].name == sid);
            assert(false);
        }
    }
    let mut fields: Vec<(String, Value)> = Vec::new();
    fields.push((String::from_str("__name"), Value::Str(sid)));
    let ghost gfields = fields@;
    let tid = lua.tables.len();
    lua.tables.push(Table { fields });
    lua.registry.push(RegEntry { name: sid, table: tid });
    lua.stack.push(Value::Table(tid));
    proof {
        assert(lua.tables@.last().fields@ == gfields);
        assert(gfields.len() == 1);
        assert(gfields.last().0@ == "__name"@);
        assert(tbl_get(gfields, "__name"@) == Some(Value::Str(sid)));
        assert forall|k: Seq<char>| k != "__name"@ implies #[trigger] tbl_get(gfields, k)
            is None by {
            assert(gfields.drop_last() =~= Seq::<(String, Value)>::empty());
            assert(tbl_get(gfields.drop_last(), k) is None);
        }
        assert forall|t: int| 0 <= t < mid.tables@.len() implies #[trigger] lua.tables@[t]
            == mid.tables@[t] by {}
        assert forall|r: int| 0 <= r < mid.registry@.len() implies #[trigger] lua.registry@[r]
            == mid.registry@[r] by {}
        assert(lua.registry@.last() == RegEntry { name: sid, table: tid });
        // frame lemma side conditions
        assert forall|i2: int| 0 <= i2 < lua.stack@.len() implies lua.wf_value(
            #[trigger] lua.stack@[i2]) by {
            if i2 < lua.stack@.len() - 1 {
                assert(lua.stack@[i2] == mid.stack@[i2]);
                assert(mid.wf_value(mid.stack@[i2]));
                crate::api::lemma_wf_value_frame(mid, *lua, mid.stack@[i2]);
            } else {
                assert(lua.stack@[i2] == Value::Table(tid as usize));
            }
        }
        assert forall|t: int, j: int|
            mid.tables@.len() <= t < lua.tables@.len() && 0 <= j < lua.tables@[t].fields@.len()
            implies lua.wf_value(#[trigger] lua.tables@[t].fields@[j].1) by {
            assert(lua.tables@[t].fields@[j] == gfields[0]);
        }
        assert forall|t: int| mid.tables@.len() <= t < lua.tables@.len() implies match tbl_get(
            (#[trigger] lua.tables@[t]).fields@,
            "__name"@,
        ) {
            Some(Value::Str(nm)) => lua.reg_maps(nm, t as usize),
            _ => true,
        } by {
            assert(lua.tables@[t].fields@ == gfields);
            assert(lua.registry@[lua.registry@.len() - 1].name == sid);
            assert(lua.registry@[lua.registry@.len() - 1].table == t as usize);
            assert(lua.reg_maps(sid, t as usize));
        }
        assert forall|r1: int, r2: int|
            0 <= r1 < lua.registry@.len() && mid.registry@.len() <= r2 < lua.registry@.len()
                && r1 != r2 implies (#[trigger] lua.registry@[r1]).name != (
        #[trigger] lua.registry@[r2]).name && lua.registry@[r1].table != lua.registry@[r2].table
            by {
            assert(r2 == mid.registry@.len());
            assert(r1 < mid.registry@.len());
            assert(lua.registry@[r1] == mid.registry@[r1]);
            assert(mid.registry@[r1].name != sid);
            assert(mid.registry_ok());
            assert(mid.registry@[r1].table < mid.tables@.len());
        }
        assert forall|s: int, r: int|
            0 <= s < mid.slots@.len() && mid.registry@.len() <= r < lua.registry@.len() && (
            #[trigger] lua.slots@[s]).meta == Some((#[trigger] lua.registry@[r]).table)
            implies lua.heap@[lua.slots@[s].addr as int].key == lua.registry@[r].name by {
            assert(lua.slots@[s] == mid.slots@[s]);
            assert(mid.slots_ok());
            assert(mid.slots@[s].meta matches Some(t2) ==> t2 < mid.tables@.len());
            assert(false);
        }
        lemma_wf_grow(mid, *lua);
        assert(lua.strings@.subrange(0, old(lua).strings@.len() as int)
            =~= old(lua).strings@);
    }
    true
}

/// The address the engine's checked-userdata capability hands out for
/// value `v` under the type key `name`: the slot's stored address when the
/// slot's attached metatable is the one registered under `name`.
pub open spec fn cud_addr(lua: LuaState, v: Option<Value>, name: Seq<char>) -> Option<usize> {
    match v {
        Some(Value::UserData(s)) => match lua.slots@[s as int].meta {
            Some(t) => if exists|r: int|
                0 <= r < lua.registry@.len() && (#[trigger] lua.registry@[r]).table == t
                    && lua.strings@[lua.registry@[r].name as int]@ == name {
                Some(lua.slots@[s as int].addr)
            } else {
                None
            },
            None => None,
        },
        _ => None,
    }
}

/// Checks that `v` is a userdata slot tagged with the metatable registered
/// under `name` and returns its stored address; reports a type error
/// naming the expected key otherwise. Relies on metatable identity, as the
/// engine's checked-userdata capability does.
pub(crate) fn checked_udata(lua: &LuaState, v: Option<Value>, name: &String, arg: i32) -> (r:
    Result<usize, EngineError>)
    requires
        lua.wf(),
        v matches Some(x) ==> lua.wf_value(x),
    ensures
        match cud_addr(*lua, v, name@) {
            Some(a) => r == Ok::<usize, EngineError>(a),
            None => r matches Err(e) && (e matches EngineError::WrongType { index, expected }
                && index == arg && expected@ == name@),
        },
{
    let s = match v {
        Some(Value::UserData(s)) => s,
        _ => {
            return Err(EngineError::WrongType { index: arg, expected: name.clone() });
        },
    };
    let t = match lua.slots[s].meta {
        Some(t) => t,
        None => {
            return Err(EngineError::WrongType { index: arg, expected: name.clone() });
        },
    };
    let n = lua.registry.len();
    let mut i: usize = 0;
    while i < n
        invariant
            lua.wf(),
            v matches Some(Value::UserData(s2)) && s2 == s,
            s < lua.slots@.len(),
            lua.slots@[s as int].meta == Some(t),
            n == lua.registry@.len(),
            0 <= i <= n,
            forall|j: int| 0 <= j < i ==> (#[trigger] lua.registry@[j]).table != t,
        decreases n - i,
    {
        if lua.registry[i].table == t {
            proof {
                assert(lua.registry_ok());
            }
            if lua.strings[lua.registry[i].name] == *name {
                proof {
                    assert(lua.strings@[lua.registry@[i as int].name as int]@ == name@);
                }
                return Ok(lua.slots[s].addr);
            } else {
                proof {
                    if cud_addr(*lua, v, name@) is Some {
                        let r = choose|r: int|
                            0 <= r < lua.registry@.len() && (#[trigger] lua.registry@[r]).table
                                == t && lua.strings@[lua.registry@[r].name as int]@ == name@;
                        assert(lua.registry_ok());
                        assert(r == i as int);
                        assert(false);
                    }
                }
                return Err(EngineError::WrongType { index: arg, expected: name.clone() });
            }
        }
        i += 1;
    }
    proof {
        if cud_addr(*lua, v, name@) is Some {
            let r = choose|r: int|
                0 <= r < lua.registry@.len() && (#[trigger] lua.registry@[r]).table == t
                    && lua.strings@[lua.registry@[r].name as int]@ == name@;
            assert(false);
        }
    }
    Err(EngineError::WrongType { index: arg, expected: name.clone() })
}

/// What metatable identity buys: an address the checked-userdata
/// capability hands out under `name` is tagged with exactly that key in
/// the allocation ledger.
pub proof fn lemma_cud_sound(lua: LuaState, v: Option<Value>, name: Seq<char>)
    requires
        lua.wf(),
        v matches Some(x) ==> lua.wf_value(x),
        cud_addr(lua, v, name) is Some,
    ensures
        cud_addr(lua, v, name) matches Some(a) ==> a < lua.heap@.len() && lua.key_view(a as int)
            == name,
{
    let s = v.unwrap()->UserData_0;
    let t = lua.slots@[s as int].meta->Some_0;
    let r = choose|r: int|
        0 <= r < lua.registry@.len() && (#[trigger] lua.registry@[r]).table == t
            && lua.strings@[lua.registry@[r].name as int]@ == name;
    assert(lua.slots_ok());
    assert(lua.coupling_ok());
    assert(lua.slots@[s as int].meta == Some(lua.registry@[r].table));
    assert(lua.heap@[lua.slots@[s as int].addr as int].key == lua.registry@[r].name);
    assert(lua.registry_ok());
    assert(lua.heap_ok());
}

/// The binding the method table holds for `k` after entries `ms` have been
/// installed in order, the entry at position `i` forwarding to the closure
/// numbered `base + i`: the latest entry with that name wins.
pub open spec fn method_binding(ms: Seq<(Seq<char>, usize)>, base: int, k: Seq<char>) -> Option<
    Value,
>
    decreases ms.len(),
{
    if ms.len() == 0 {
        None
    } else if ms.last().0 == k {
        Some(Value::Function((base + ms.len() - 1) as usize))
    } else {
        method_binding(ms.drop_last(), base, k)
    }
}

/// What every exposure does, first or not: exactly one fresh allocation,
/// tagged with `key` and live; one fresh slot recording its address; and
/// the new handle pushed onto the stack.
pub open spec fn expose_common(a: LuaState, b: LuaState, key: Seq<char>) -> bool {
    &&& b.heap@.len() == a.heap@.len() + 1
    &&& (forall|i: int| 0 <= i < a.heap@.len() ==> #[trigger] b.heap@[i] == a.heap@[i])
    &&& b.heap@.last().live
    &&& b.heap@.last().context is None
    &&& b.key_view(a.heap@.len() as int) == key
    &&& b.slots@.len() == a.slots@.len() + 1
    &&& (forall|i: int| 0 <= i < a.slots@.len() ==> #[trigger] b.slots@[i] == a.slots@[i])
    &&& b.slots@.last().addr == a.heap@.len()
    &&& b.stack@ == a.stack@.push(Value::UserData(a.slots@.len() as usize))
    &&& b.revision == a.revision
    &&& a.strings@.len() <= b.strings@.len()
    &&& b.strings@.subrange(0, a.strings@.len() as int) == a.strings@
    &&& (exists|r: int|
        0 <= r < b.registry@.len() && b.strings@[(#[trigger] b.registry@[r]).name as int]@ == key
            && b.slots@.last().meta == Some(b.registry@[r].table))
}

/// What a repeat exposure under an already-registered key leaves alone:
/// no new metatable, no new closure, no new table — the single metatable
/// per type key is reused.
pub open spec fn expose_reuse(a: LuaState, b: LuaState) -> bool {
    &&& b.strings@ == a.strings@
    &&& b.tables@ == a.tables@
    &&& b.funcs@ == a.funcs@
    &&& b.registry@ == a.registry@
}

/// What the first exposure under `key` builds: the metatable registered
/// under `key`, its finalizer closure over the context handle `ctxv`, and
/// — when the type declares methods `ms` — the method table, with one
/// dispatch closure per entry over `ctxv` and the raw method identifier.
pub open spec fn expose_fresh(
    a: LuaState,
    b: LuaState,
    ctxv: Value,
    tn: Seq<char>,
    key: Seq<char>,
    ms: Seq<(Seq<char>, usize)>,
) -> bool {
    let meta = a.tables@.len() as int;
    let freef = a.funcs@.len() as int;
    &&& b.registry@.len() == a.registry@.len() + 1
    &&& (forall|r: int| 0 <= r < a.registry@.len() ==> #[trigger] b.registry@[r] == a.registry@[r])
    &&& b.registry@.last().table == a.tables@.len()
    &&& b.registry@.last().name < b.strings@.len()
    &&& b.strings@[b.registry@.last().name as int]@ == key
    &&& (forall|t: int| 0 <= t < a.tables@.len() ==> #[trigger] b.tables@[t] == a.tables@[t])
    &&& (forall|f: int| 0 <= f < a.funcs@.len() ==> #[trigger] b.funcs@[f] == a.funcs@[f])
    &&& b.slots@.last().meta == Some(a.tables@.len() as usize)
    &&& tbl_get(b.tables@[meta].fields@, "__gc"@) == Some(Value::Function(a.funcs@.len() as usize))
    &&& (b.funcs@[freef].func matches NativeFn::FreeUserData(s) && s@ == tn)
    &&& b.funcs@[freef].upvalues@ == seq![ctxv]
    &&& if ms.len() == 0 {
        &&& b.tables@.len() == a.tables@.len() + 1
        &&& b.funcs@.len() == a.funcs@.len() + 1
        &&& tbl_get(b.tables@[meta].fields@, "__index"@) is None
    } else {
        let mt = a.tables@.len() + 1 as int;
        &&& b.tables@.len() == a.tables@.len() + 2
        &&& b.funcs@.len() == a.funcs@.len() + 1 + ms.len()
        &&& tbl_get(b.tables@[meta].fields@, "__index"@) == Some(
            Value::Table((a.tables@.len() + 1) as usize),
        )
        &&& (forall|i: int|
            0 <= i < ms.len() ==> ((#[trigger] b.funcs@[freef + 1 + i]).func
                matches NativeFn::InvokeMethod(s) && s@ == tn))
        &&& (forall|i: int|
            0 <= i < ms.len() ==> (#[trigger] b.funcs@[freef + 1 + i]).upvalues@ == seq![
                ctxv,
                Value::LightUserData(ms[i].1),
            ])
        &&& (forall|k: Seq<char>|
            #[trigger] tbl_get(b.tables@[mt].fields@, k) == method_binding(ms, freef + 1, k))
    }
}

/// The engine guarantee that every context handle captured as an upvalue
/// of `func` is still live when the closure runs.
pub open spec fn upvalues_ctx_live(lua: LuaState, func: usize) -> bool {
    forall|j: int|
        0 <= j < lua.funcs@[func as int].upvalues@.len() ==> (crate::context::ctx_addr(
            lua,
            #[trigger] lua.funcs@[func as int].upvalues@[j],
        ) matches Some(a) ==> lua.heap@[a as int].live)
}

/// The native pointer a closure-call shim recovers: upvalue 1 is the
/// owning context, upvalue 2 the closure's own slot, which must be tagged
/// with the context-qualified key of the shim's type.
pub open spec fn closure_target(lua: LuaState, func: usize) -> Option<usize> {
    let c = lua.funcs@[func as int];
    match c.func {
        NativeFn::ExecuteClosure(tn) => if c.upvalues@.len() == 2 {
            match crate::context::ctx_addr(lua, c.upvalues@[0]) {
                Some(ca) => match lua.heap@[ca as int].context {
                    Some(ctx) => cud_addr(
                        lua,
                        Some(c.upvalues@[1]),
                        crate::context::qualified_key(ctx.module_name@, tn@),
                    ),
                    None => None,
                },
                None => None,
            }
        } else {
            None
        },
        _ => None,
    }
}

/// The method pointer and receiver a method-invoke shim recovers: upvalue
/// 1 is the owning context, upvalue 2 the raw method identifier, and the
/// receiver is the value at stack position 1, validated against the
/// method's declaring type.
pub open spec fn method_target(lua: LuaState, func: usize) -> Option<(usize, usize)> {
    let c = lua.funcs@[func as int];
    match c.func {
        NativeFn::InvokeMethod(tn) => if c.upvalues@.len() == 2 {
            match crate::context::ctx_addr(lua, c.upvalues@[0]) {
                Some(ca) => match lua.heap@[ca as int].context {
                    Some(ctx) => match c.upvalues@[1] {
                        Value::LightUserData(m) => match cud_addr(
                            lua,
                            stack_at(lua, 1),
                            crate::context::qualified_key(ctx.module_name@, tn@),
                        ) {
                            Some(a) => Some((m, a)),
                            None => None,
                        },
                        _ => None,
                    },
                    None => None,
                },
                None => None,
            }
        } else {
            None
        },
        _ => None,
    }
}

/// The native pointer a finalizer shim destroys: upvalue 1 is the owning
/// context, and the collected value sits at stack position 1.
pub open spec fn free_target(lua: LuaState, func: usize) -> Option<usize> {
    let c = lua.funcs@[func as int];
    match c.func {
        NativeFn::FreeUserData(tn) => if c.upvalues@.len() == 1 {
            match crate::context::ctx_addr(lua, c.upvalues@[0]) {
                Some(ca) => match lua.heap@[ca as int].context {
                    Some(ctx) => cud_addr(
                        lua,
                        stack_at(lua, 1),
                        crate::context::qualified_key(ctx.module_name@, tn@),
                    ),
                    None => None,
                },
                None => None,
            }
        } else {
            None
        },
        _ => None,
    }
}

/// The closure-call shim's recovery: validates both upvalues and returns
/// the closure's native address; any recovery failure is an engine error
/// and nothing is dereferenced.
pub fn execute_closure(lua: &LuaState, func: usize) -> (r: Result<usize, EngineError>)
    requires
        lua.wf(),
        func < lua.funcs@.len(),
        lua.funcs@[func as int].func is ExecuteClosure,
        upvalues_ctx_live(*lua, func),
    ensures
        match closure_target(*lua, func) {
            Some(a) => r == Ok::<usize, EngineError>(a),
            None => r is Err,
        },
{
    if lua.funcs[func].upvalues.len() != 2 {
        return Err(crate::stack::error_with_message("malformed closure shim"));
    }
    let up0 = lua.funcs[func].upvalues[0];
    let up1 = lua.funcs[func].upvalues[1];
    proof {
        assert(lua.funcs_ok());
        assert(lua.wf_value(up0));
        assert(lua.wf_value(up1));
    }
    let ctx = match crate::context::context_at(lua, up0, crate::stack::upvalue_index(1)) {
        Ok(c) => c,
        Err(e) => {
            return Err(e);
        },
    };
    let tn = match &lua.funcs[func].func {
        NativeFn::ExecuteClosure(tn) => tn,
        _ => {
            proof {
                assert(false);
            }
            return Err(crate::stack::error_with_message("malformed closure shim"));
        },
    };
    let key = ctx.get_type_label(tn.as_str());
    checked_udata(lua, Some(up1), &key, crate::stack::upvalue_index(2))
}

/// The method-invoke shim's recovery: validates the context, the raw
/// method identifier, and the receiver at stack position 1, and returns
/// the method identifier with the receiver's native address.
pub fn invoke_method(lua: &LuaState, func: usize) -> (r: Result<(usize, usize), EngineError>)
    requires
        lua.wf(),
        func < lua.funcs@.len(),
        lua.funcs@[func as int].func is InvokeMethod,
        upvalues_ctx_live(*lua, func),
    ensures
        match method_target(*lua, func) {
            Some(ma) => r == Ok::<(usize, usize), EngineError>(ma),
            None => r is Err,
        },
{
    if lua.funcs[func].upvalues.len() != 2 {
        return Err(crate::stack::error_with_message("malformed method shim"));
    }
    let up0 = lua.funcs[func].upvalues[0];
    let up1 = lua.funcs[func].upvalues[1];
    proof {
        assert(lua.funcs_ok());
        assert(lua.wf_value(up0));
    }
    let ctx = match crate::context::context_at(lua, up0, crate::stack::upvalue_index(1)) {
        Ok(c) => c,
        Err(e) => {
            return Err(e);
        },
    };
    let m = match up1 {
        Value::LightUserData(m) => m,
        _ => {
            return Err(crate::stack::error_with_message("malformed method shim"));
        },
    };
    let tn = match &lua.funcs[func].func {
        NativeFn::InvokeMethod(tn) => tn,
        _ => {
            proof {
                assert(false);
            }
            return Err(crate::stack::error_with_message("malformed method shim"));
        },
    };
    let key = ctx.get_type_label(tn.as_str());
    let receiver = crate::stack::value_at(lua, 1);
    proof {
        assert(receiver matches Some(x) ==> lua.wf_value(x));
    }
    match checked_udata(lua, receiver, &key, 1) {
        Ok(a) => Ok((m, a)),
        Err(e) => Err(e),
    }
}

/// The finalizer shim for exposed values: recovers the collected slot's
/// native address through the owning context's qualified key and releases
/// the allocation. The engine invokes it exactly once per slot; calling it
/// on an already-released allocation is ruled out by the precondition.
pub fn free_userdata(lua: &mut LuaState, func: usize) -> (r: Result<usize, EngineError>)
    requires
        old(lua).wf(),
        func < old(lua).funcs@.len(),
        old(lua).funcs@[func as int].func is FreeUserData,
        upvalues_ctx_live(*old(lua), func),
        free_target(*old(lua), func) matches Some(a) ==> old(lua).heap@[a as int].live,
    ensures
        final(lua).wf(),
        match free_target(*old(lua), func) {
            Some(a) => {
                &&& r == Ok::<usize, EngineError>(a)
                &&& final(lua).heap@.len() == old(lua).heap@.len()
                &&& forall|i: int|
                    0 <= i < old(lua).heap@.len() && i != a ==> final(lua).heap@[i] == old(
                        lua,
                    ).heap@[i]
                &&& final(lua).heap@[a as int].key == old(lua).heap@[a as int].key
                &&& !final(lua).heap@[a as int].live
                &&& final(lua).heap@[a as int].context is None
                &&& final(lua).stack@ == old(lua).stack@
                &&& final(lua).strings@ == old(lua).strings@
                &&& final(lua).tables@ == old(lua).tables@
                &&& final(lua).funcs@ == old(lua).funcs@
                &&& final(lua).slots@ == old(lua).slots@
                &&& final(lua).registry@ == old(lua).registry@
            },
            None => r is Err && *final(lua) == *old(lua),
        },
{
    if lua.funcs[func].upvalues.len() != 1 {
        return Err(crate::stack::error_with_message("malformed finalizer shim"));
    }
    let up0 = lua.funcs[func].upvalues[0];
    proof {
        assert(lua.funcs_ok());
        assert(lua.wf_value(up0));
    }
    let key = {
        let ctx = match crate::context::context_at(lua, up0, crate::stack::upvalue_index(1)) {
            Ok(c) => c,
            Err(e) => {
                return Err(e);
            },
        };
        let tn = match &lua.funcs[func].func {
            NativeFn::FreeUserData(tn) => tn,
            _ => {
                proof {
                    assert(false);
                }
                return Err(crate::stack::error_with_message("malformed finalizer shim"));
            },
        };
        ctx.get_type_label(tn.as_str())
    };
    let receiver = crate::stack::value_at(lua, 1);
    proof {
        assert(receiver matches Some(x) ==> lua.wf_value(x));
    }
    let addr = match checked_udata(lua, receiver, &key, 1) {
        Ok(a) => a,
        Err(e) => {
            return Err(e);
        },
    };
    proof {
        lemma_cud_sound(*lua, receiver, key@);
    }
    crate::api::release_alloc(lua, addr);
    Ok(addr)
}

/// A native value that can be exposed to the engine and collected by it.
pub trait UserData {
    /// The text of the unique name of this type within its module.
    spec fn spec_type_label() -> Seq<char>;

    /// Gets a unique name for this type within its module.
    fn type_label() -> (r: &'static str)
        ensures
            r@ == Self::spec_type_label(),
    ;
}

/// A native value that is callable from the engine.
pub trait Closure: UserData {
    /// Invoked with the engine state when the engine calls the closure;
    /// returns the count of values the call pushed, or an engine error.
    /// Implementations drive the engine only through the capability
    /// operations, so they keep the engine state well formed.
    fn call(&mut self, lua: &mut LuaState) -> (r: Result<i32, EngineError>)
        requires
            old(lua).wf(),
        ensures
            final(lua).wf(),
    ;
}

/// Represents a method of an engine-visible object.
#[derive(Clone, Copy)]
pub struct MethodEntry {
    pub name: &'static str,
    /// The identifier of the native function implementing this method.
    ///
    /// When the method is invoked as `v:method('abc')`, the receiver is at
    /// stack position 1 and `'abc'` at position 2.
    pub function: usize,
}

/// A native value that is exposed to the engine with a set of methods.
pub trait Object: UserData {
    /// The names and native function identifiers of the methods, in order.
    spec fn spec_methods() -> Seq<(Seq<char>, usize)>;

    /// Gets the set of available methods.
    fn methods() -> (r: Vec<MethodEntry>)
        ensures
            r@.len() == Self::spec_methods().len(),
            forall|i: int|
                0 <= i < r@.len() ==> (#[trigger] r@[i]).name@ == Self::spec_methods()[i].0
                    && r@[i].function == Self::spec_methods()[i].1,
    ;

    /// Forwards an invocation to the method with raw identifier `method`,
    /// with the receiver as `self`. Implementations drive the engine only
    /// through the capability operations, so they keep the engine state
    /// well formed.
    fn invoke(&mut self, method: usize, lua: &mut LuaState) -> (r: Result<i32, EngineError>)
        requires
            old(lua).wf(),
        ensures
            final(lua).wf(),
    ;
}

/// Represents a function to add to an engine table.
pub struct FunctionEntry<'a> {
    pub name: &'a str,
    pub function: Option<usize>,
}

/// Populates a freshly created metatable sitting on top of the stack: the
/// finalizer closure bound to a copy of the context handle at `cabs`, and
/// — when methods are given — the `__index` method table holding one
/// dispatch closure per entry over the context handle and the raw method
/// identifier. This runs at most once per type key, on first creation.
#[verifier::rlimit(100)]
fn install_behaviors(
    lua: &mut LuaState,
    cabs: i32,
    type_label: &str,
    methods: Option<&Vec<MethodEntry>>,
    meta_id: usize,
    Ghost(ctxv): Ghost<Value>,
)
    requires
        old(lua).wf(),
        old(lua).stack@.len() >= 2,
        old(lua).stack@.len() + 4 <= LUAI_MAXSTACK as int,
        old(lua).stack@.last() == Value::Table(meta_id),
        meta_id as int == old(lua).tables@.len() - 1,
        1 <= cabs as int <= old(lua).stack@.len() - 2,
        old(lua).stack@[cabs - 1] == ctxv,
        forall|k: Seq<char>|
            k != "__name"@ ==> #[trigger] tbl_get(
                old(lua).tables@[meta_id as int].fields@,
                k,
            ) is None,
    ensures
        final(lua).wf(),
        final(lua).stack@ == old(lua).stack@,
        final(lua).strings@ == old(lua).strings@,
        final(lua).slots@ == old(lua).slots@,
        final(lua).heap@ == old(lua).heap@,
        final(lua).registry@ == old(lua).registry@,
        final(lua).revision == old(lua).revision,
        forall|t: int|
            0 <= t < old(lua).tables@.len() && t != meta_id ==> #[trigger] final(lua).tables@[t]
                == old(lua).tables@[t],
        forall|f: int|
            0 <= f < old(lua).funcs@.len() ==> #[trigger] final(lua).funcs@[f] == old(
                lua,
            ).funcs@[f],
        tbl_get(final(lua).tables@[meta_id as int].fields@, "__gc"@) == Some(
            Value::Function(old(lua).funcs@.len() as usize),
        ),
        final(lua).funcs@[old(lua).funcs@.len() as int].func matches NativeFn::FreeUserData(s)
            && s@ == type_label@,
        final(lua).funcs@[old(lua).funcs@.len() as int].upvalues@ == seq![ctxv],
        ({
            let ms = methods_view(methods);
            if ms.len() == 0 {
                &&& final(lua).tables@.len() == old(lua).tables@.len()
                &&& final(lua).funcs@.len() == old(lua).funcs@.len() + 1
                &&& tbl_get(final(lua).tables@[meta_id as int].fields@, "__index"@) is None
            } else {
                &&& final(lua).tables@.len() == old(lua).tables@.len() + 1
                &&& final(lua).funcs@.len() == old(lua).funcs@.len() + 1 + ms.len()
                &&& tbl_get(final(lua).tables@[meta_id as int].fields@, "__index"@) == Some(
                    Value::Table(old(lua).tables@.len() as usize),
                )
                &&& (forall|i: int|
                    0 <= i < ms.len() ==> ((#[trigger] final(lua).funcs@[old(lua).funcs@.len()
                        + 1 + i]).func matches NativeFn::InvokeMethod(s) && s@ == type_label@))
                &&& (forall|i: int|
                    0 <= i < ms.len() ==> (#[trigger] final(lua).funcs@[old(lua).funcs@.len() + 1
                        + i]).upvalues@ == seq![ctxv, Value::LightUserData(ms[i].1)])
                &&& (forall|k: Seq<char>|
                    #[trigger] tbl_get(
                        final(lua).tables@[old(lua).tables@.len() as int].fields@,
                        k,
                    ) == method_binding(ms, old(lua).funcs@.len() + 1 as int, k))
            }
        }),
{
    // install the finalizer closure over a copy of the context handle
    crate::stack::push_value(lua, cabs);
    let f_free = lua.funcs.len();
    crate::stack::push_fn(lua, NativeFn::FreeUserData(String::from_str(type_label)), 1);
    proof {
        assert(lua.funcs@.last().upvalues@ =~= seq![ctxv]);
        assert(lua.stack@ =~= old(lua).stack@.push(Value::Function(f_free)));
        assert(stack_at(*lua, -2) == Some(Value::Table(meta_id)));
    }
    crate::stack::set_field(lua, -2, "__gc");
    let ghost s6 = *lua;
    proof {
        assert(lua.stack@ =~= old(lua).stack@);
        reveal_strlit("__gc");
        reveal_strlit("__index");
        reveal_strlit("__name");
        assert("__gc"@.len() == 4 && "__index"@.len() == 7 && "__name"@.len() == 6);
        assert(tbl_get(s6.tables@[meta_id as int].fields@, "__gc"@) == Some(
            Value::Function(f_free),
        ));
        assert(tbl_get(s6.tables@[meta_id as int].fields@, "__index"@) is None);
    }
    let has_methods = match methods {
        Some(ms) => ms.len() > 0,
        None => false,
    };
    if has_methods {
        let ms = match methods {
            Some(ms) => ms,
            None => {
                proof {
                    assert(false);
                }
                return ;
            },
        };
        crate::stack::create_table(lua, 0, 0);
        let ghost msv = methods_view(methods);
        let ghost base = lua.stack@;
        let mt = lua.tables.len() - 1;
        let ghost base_fid = lua.funcs@.len();
        let ghost sl = *lua;
        let tn_owned = String::from_str(type_label);
        proof {
            assert(base =~= old(lua).stack@.push(Value::Table(mt)));
            assert(base.last() == Value::Table(mt));
            assert(base[base.len() - 2] == Value::Table(meta_id));
            assert(base[cabs - 1] == old(lua).stack@[cabs - 1]);
            assert(mt as int == lua.tables@.len() - 1);
            assert(lua.tables@[mt as int] == lua.tables@.last());
            assert(lua.tables@[mt as int].fields@.len() == 0);
            assert forall|k: Seq<char>| #[trigger] tbl_get(
                lua.tables@[mt as int].fields@,
                k,
            ) == method_binding(msv.subrange(0, 0), base_fid as int, k) by {
                assert(lua.tables@[mt as int].fields@.len() == 0);
            }
        }
        let mut i: usize = 0;
        while i < ms.len()
            invariant
                lua.wf(),
                0 <= i <= ms.len(),
                msv == methods_view(Some(ms)),
                msv.len() == ms@.len(),
                tn_owned@ == type_label@,
                base == sl.stack@,
                base.len() >= 2,
                base.len() + 3 <= LUAI_MAXSTACK as int,
                base.last() == Value::Table(mt),
                base[base.len() - 2] == Value::Table(meta_id),
                1 <= cabs as int <= base.len() - 2,
                base[cabs - 1] == ctxv,
                mt < sl.tables@.len(),
                mt != meta_id,
                lua.stack@ == base,
                lua.strings@ == sl.strings@,
                lua.slots@ == sl.slots@,
                lua.heap@ == sl.heap@,
                lua.registry@ == sl.registry@,
                lua.revision == sl.revision,
                lua.tables@.len() == sl.tables@.len(),
                forall|t: int|
                    0 <= t < sl.tables@.len() && t != mt ==> #[trigger] lua.tables@[t]
                        == sl.tables@[t],
                forall|k: Seq<char>|
                    #[trigger] tbl_get(lua.tables@[mt as int].fields@, k) == method_binding(
                        msv.subrange(0, i as int),
                        base_fid as int,
                        k,
                    ),
                lua.funcs@.len() == base_fid + i,
                forall|f: int| 0 <= f < base_fid ==> #[trigger] lua.funcs@[f] == sl.funcs@[f],
                forall|j: int|
                    0 <= j < i ==> ((#[trigger] lua.funcs@[base_fid + j]).func
                        matches NativeFn::InvokeMethod(s) && s@ == type_label@),
                forall|j: int|
                    0 <= j < i ==> (#[trigger] lua.funcs@[base_fid + j]).upvalues@ == seq![
                        ctxv,
                        Value::LightUserData(msv[j].1),
                    ],
            decreases ms@.len() - i,
        {
            let ghost it0 = *lua;
            let m = ms[i];
            proof {
                assert(stack_at(*lua, cabs as int) == Some(ctxv));
            }
            crate::stack::push_value(lua, cabs);
            crate::stack::push_light(lua, m.function);
            proof {
                assert(lua.stack@ =~= base + seq![ctxv, Value::LightUserData(m.function)]);
            }
            crate::stack::push_fn(lua, NativeFn::InvokeMethod(tn_owned.clone()), 2);
            let ghost it1 = *lua;
            proof {
                assert(lua.funcs@.last().upvalues@ =~= seq![
                    ctxv,
                    Value::LightUserData(m.function),
                ]);
                assert(lua.stack@ =~= base.push(Value::Function((base_fid + i) as usize)));
                assert(stack_at(*lua, -2) == Some(Value::Table(mt)));
            }
            crate::stack::set_field(lua, -2, m.name);
            proof {
                assert(lua.stack@ =~= base);
                assert(msv.subrange(0, i + 1).drop_last() =~= msv.subrange(0, i as int));
                assert(msv.subrange(0, i + 1).last() == msv[i as int]);
                assert(msv[i as int].0 == m.name@);
                assert(msv[i as int].1 == m.function);
                assert forall|k: Seq<char>| #[trigger] tbl_get(
                    lua.tables@[mt as int].fields@,
                    k,
                ) == method_binding(msv.subrange(0, i + 1), base_fid as int, k) by {
                    assert(tbl_get(lua.tables@[mt as int].fields@, k) == if k == m.name@ {
                        Some(Value::Function((it1.funcs@.len() - 1) as usize))
                    } else {
                        tbl_get(it0.tables@[mt as int].fields@, k)
                    });
                    assert(it1.funcs@.len() - 1 == base_fid + i);
                }
                assert forall|f: int| 0 <= f < base_fid implies #[trigger] lua.funcs@[f]
                    == sl.funcs@[f] by {
                    assert(it1.funcs@[f] == it0.funcs@[f]);
                    assert(lua.funcs@[f] == it1.funcs@[f]);
                }
                assert forall|j: int|
                    0 <= j < i + 1 implies ((#[trigger] lua.funcs@[base_fid + j]).func
                    matches NativeFn::InvokeMethod(s) && s@ == type_label@) by {
                    if j < i {
                        assert(it1.funcs@[base_fid + j] == it0.funcs@[base_fid + j]);
                        assert(lua.funcs@[base_fid + j] == it1.funcs@[base_fid + j]);
                    } else {
                        assert(lua.funcs@[base_fid + j] == it1.funcs@.last());
                        assert(it1.funcs@.last().func == NativeFn::InvokeMethod(tn_owned));
                    }
                }
                assert forall|j: int|
                    0 <= j < i + 1 implies (#[trigger] lua.funcs@[base_fid + j]).upvalues@
                    == seq![ctxv, Value::LightUserData(msv[j].1)] by {
                    if j < i {
                        assert(it1.funcs@[base_fid + j] == it0.funcs@[base_fid + j]);
                        assert(lua.funcs@[base_fid + j] == it1.funcs@[base_fid + j]);
                    } else {
                        assert(lua.funcs@[base_fid + j] == it1.funcs@.last());
                    }
                }
            }
            i += 1;
        }
        proof {
            assert(msv.subrange(0, msv.len() as int) =~= msv);
            assert(stack_at(*lua, -2) == Some(Value::Table(meta_id)));
        }
        crate::stack::set_field(lua, -2, "__index");
        proof {
            assert(lua.stack@ =~= old(lua).stack@);
            reveal_strlit("__gc");
            reveal_strlit("__index");
            reveal_strlit("__name");
            assert("__gc"@.len() == 4 && "__index"@.len() == 7 && "__name"@.len() == 6);
            assert(tbl_get(lua.tables@[meta_id as int].fields@, "__gc"@) == Some(
                Value::Function(f_free),
            ));
            assert(tbl_get(lua.tables@[meta_id as int].fields@, "__index"@) == Some(
                Value::Table(mt),
            ));
            assert(mt as int == old(lua).tables@.len());
            assert(f_free as int == old(lua).funcs@.len());
            assert(base_fid == old(lua).funcs@.len() + 1);
            assert forall|f: int| 0 <= f < old(lua).funcs@.len() implies #[trigger] lua.funcs@[f]
                == old(lua).funcs@[f] by {
                assert(lua.funcs@[f] == sl.funcs@[f]);
                assert(sl.funcs@[f] == s6.funcs@[f]);
            }
            assert(lua.funcs@[f_free as int] == sl.funcs@[f_free as int]);
            assert(sl.funcs@[f_free as int] == s6.funcs@[f_free as int]);
        }
    }
}

/// The view of a method list: each entry's name and raw function
/// identifier, in declaration order.
pub open spec fn methods_view(methods: Option<&Vec<MethodEntry>>) -> Seq<(Seq<char>, usize)> {
    match methods {
        Some(m) => m@.map_values(|e: MethodEntry| (e.name@, e.function)),
        None => Seq::empty(),
    }
}

/// Boxes a value of the exposed type labelled `type_label`, tags the new
/// slot with the context-qualified key, installs the finalizer and — when
/// methods are given — the method table on the key's metatable (built at
/// most once per key), attaches the metatable, and pushes the handle.
/// Returns the fresh allocation address.
#[verifier::rlimit(100)]
pub(crate) fn create_userdata(
    lua: &mut LuaState,
    context: i32,
    type_label: &str,
    methods: Option<&Vec<MethodEntry>>,
) -> (r: Result<usize, EngineError>)
    requires
        old(lua).wf(),
        crate::api::acceptable_index(*old(lua), context as int),
        crate::context::ctx_live(*old(lua), context),
        old(lua).stack@.len() + 6 <= LUAI_MAXSTACK as int,
    ensures
        final(lua).wf(),
        crate::context::ctx_resolve(*old(lua), context) is Err ==> r is Err && *final(lua)
            == *old(lua),
        crate::context::ctx_resolve(*old(lua), context) matches Ok(ca) ==> ({
            let ctx = old(lua).heap@[ca as int].context.unwrap();
            let key = crate::context::qualified_key(ctx.module_name@, type_label@);
            let ctxv = stack_at(*old(lua), context as int).unwrap();
            &&& r == Ok::<usize, EngineError>(old(lua).heap@.len() as usize)
            &&& expose_common(*old(lua), *final(lua), key)
            &&& (old(lua).has_reg_name(key) ==> expose_reuse(*old(lua), *final(lua)))
            &&& (!old(lua).has_reg_name(key) ==> expose_fresh(
                *old(lua),
                *final(lua),
                ctxv,
                type_label@,
                key,
                methods_view(methods),
            ))
        }),
{
    let cabs = crate::stack::abs_index(lua, context);
    proof {
        crate::api::lemma_stack_at_abs(*lua, context as int);
        assert(stack_at(*lua, cabs as int) == stack_at(*lua, context as int));
    }
    let key = {
        let ctx = match crate::context::Context::from_lua(lua, cabs) {
            Ok(c) => c,
            Err(e) => {
                return Err(e);
            },
        };
        ctx.get_type_label(type_label)
    };
    let ghost ca = crate::context::ctx_resolve(*old(lua), context)->Ok_0;
    let ghost gctx = old(lua).heap@[ca as int].context.unwrap();
    let ghost gkey = crate::context::qualified_key(gctx.module_name@, type_label@);
    let ghost ctxv = stack_at(*old(lua), context as int).unwrap();
    proof {
        assert(key@ == gkey);
        crate::context::lemma_qualified_key_has_dot(gctx.module_name@, type_label@);
    }
    // move the value's address into a fresh engine slot
    let addr = lua.heap.len();
    let ksid = lua.intern(key.as_str());
    let ghost s1 = *lua;
    lua.heap.push(Alloc { key: ksid, live: true, context: None });
    let slot_id = lua.slots.len();
    lua.slots.push(Slot { addr, meta: None });
    lua.stack.push(Value::UserData(slot_id));
    proof {
        assert forall|i2: int| 0 <= i2 < lua.stack@.len() implies lua.wf_value(
            #[trigger] lua.stack@[i2]) by {
            if i2 < lua.stack@.len() - 1 {
                assert(lua.stack@[i2] == s1.stack@[i2]);
                assert(s1.wf_value(s1.stack@[i2]));
                crate::api::lemma_wf_value_frame(s1, *lua, s1.stack@[i2]);
            } else {
                assert(lua.stack@[i2] == Value::UserData(slot_id as usize));
            }
        }
        assert forall|i2: int|
            s1.heap@.len() <= i2 < lua.heap@.len() implies (#[trigger] lua.heap@[i2]).key
            < lua.strings@.len() && (lua.heap@[i2].live && !crate::api::has_dot(
            lua.key_view(i2),
        ) && !crate::api::reserved_name(lua.key_view(i2)) ==> lua.heap@[i2].context is Some) by {
            assert(lua.heap@[i2] == (Alloc { key: ksid, live: true, context: None }));
            assert(lua.key_view(i2) == gkey);
        }
        assert forall|s: int, r2: int|
            s1.slots@.len() <= s < lua.slots@.len() && 0 <= r2 < lua.registry@.len() && (
            #[trigger] lua.slots@[s]).meta == Some((#[trigger] lua.registry@[r2]).table)
            implies lua.heap@[lua.slots@[s].addr as int].key == lua.registry@[r2].name by {
            assert(lua.slots@[s].meta is None);
            assert(false);
        }
        lemma_wf_grow(s1, *lua);
    }
    let ghost s2 = *lua;
    let meta_id = lua.tables.len();
    let created = new_metatable(lua, key.as_str());
    proof {
        // key registration is the same question before and after allocation
        assert forall|r2: int|
            0 <= r2 < s2.registry@.len() implies s2.strings@[(
        #[trigger] s2.registry@[r2]).name as int] == old(lua).strings@[s2.registry@[r2].name
            as int] by {
            assert(old(lua).registry_ok());
        }
        assert(s2.has_reg_name(gkey) <==> old(lua).has_reg_name(gkey));
    }
    let ghost s3 = *lua;
    proof {
        assert(meta_id == s2.tables@.len());
        assert(s2.strings@ == s1.strings@);
        assert(ksid < s2.strings@.len());
        assert(lua.strings@[ksid as int] == s1.strings@[ksid as int]) by {
            assert(lua.strings@.subrange(0, s2.strings@.len() as int) == s2.strings@);
            assert(lua.strings@.subrange(0, s2.strings@.len() as int)[ksid as int]
                == lua.strings@[ksid as int]);
        }
        assert(lua.strings@[ksid as int]@ == gkey);
    }
    if created {
        proof {
            assert(s3.stack@ == s2.stack@.push(Value::Table(meta_id)));
            assert(s3.stack@.last() == Value::Table(meta_id));
            assert(s3.stack@[cabs - 1] == s2.stack@[cabs - 1]);
            assert(s2.stack@[cabs - 1] == old(lua).stack@[cabs - 1]);
            assert forall|k: Seq<char>| k != "__name"@ implies #[trigger] tbl_get(
                s3.tables@[meta_id as int].fields@,
                k,
            ) is None by {
                assert(s3.tables@[meta_id as int] == s3.tables@.last());
            }
        }
        install_behaviors(lua, cabs, type_label, methods, meta_id, Ghost(ctxv));
    }
    proof {
        reveal_strlit("__gc");
        reveal_strlit("__index");
        reveal_strlit("__name");
        assert("__gc"@.len() == 4 && "__index"@.len() == 7 && "__name"@.len() == 6);
        assert(lua.stack@.last() matches Value::Table(_));
        assert(stack_at(*lua, -2) == Some(Value::UserData(slot_id)));
        // attaching respects the key the slot's allocation is tagged with
        assert(crate::api::attach_ok(*lua, slot_id, lua.stack@.last())) by {
            let tid = lua.stack@.last()->Table_0;
            assert forall|r2: int|
                0 <= r2 < lua.registry@.len() && lua.stack@.last() == Value::Table((
                #[trigger] lua.registry@[r2]).table) implies lua.heap@[lua.slots@[slot_id
                as int].addr as int].key == lua.registry@[r2].name by {
                assert(lua.strings@ == s3.strings@);
                assert(lua.heap@[addr as int].key == ksid);
                assert(lua.strings@[lua.registry@[r2].name as int]@ == gkey) by {
                    if created {
                        assert(lua.registry@[r2].table == meta_id);
                        if r2 < s2.registry@.len() {
                            assert(s2.registry_ok());
                            assert(s2.registry@[r2].table < s2.tables@.len());
                            assert(false);
                        }
                    } else {
                        let rw = choose|rw: int|
                            0 <= rw < s2.registry@.len() && s2.strings@[(
                            #[trigger] s2.registry@[rw]).name as int]@ == key@ && s3.stack@
                                == s2.stack@.push(Value::Table(s2.registry@[rw].table));
                        assert(s2.registry_ok());
                        if rw != r2 {
                            assert(s2.registry@[rw].table != s2.registry@[r2].table);
                            assert(false);
                        }
                    }
                }
                assert(lua.strings@[ksid as int]@ == gkey);
                assert(lua.strings_ok());
                assert(lua.registry@[r2].name == ksid) by {
                    assert(lua.registry_ok());
                    if lua.registry@[r2].name != ksid {
                        assert(lua.strings@[lua.registry@[r2].name as int]@ != lua.strings@[ksid
                            as int]@);
                        assert(false);
                    }
                }
            }
        }
    }
    crate::stack::set_metatable(lua, -2);
    proof {
        assert(lua.stack@ =~= old(lua).stack@.push(Value::UserData(slot_id)));
        assert(expose_common(*old(lua), *lua, gkey)) by {
            assert(lua.heap@.last() == (Alloc { key: ksid, live: true, context: None }));
            assert(lua.key_view(old(lua).heap@.len() as int) == gkey);
            assert(lua.slots@.last().addr == old(lua).heap@.len());
            assert(lua.strings@.subrange(0, old(lua).strings@.len() as int) =~= old(
                lua,
            ).strings@);
            assert(lua.slots@.last().meta matches Some(_));
            let tid = lua.slots@.last().meta->Some_0;
            if created {
                let r2 = (lua.registry@.len() - 1) as int;
                assert(lua.registry@[r2].table == meta_id);
                assert(lua.strings@[lua.registry@[r2].name as int]@ == gkey);
            } else {
                let rw = choose|rw: int|
                    0 <= rw < s2.registry@.len() && s2.strings@[(
                    #[trigger] s2.registry@[rw]).name as int]@ == key@ && s3.stack@ == s2.stack@
                        .push(Value::Table(s2.registry@[rw].table));
                assert(lua.strings@[lua.registry@[rw].name as int]@ == gkey);
                assert(lua.slots@.last().meta == Some(lua.registry@[rw].table));
            }
        }
        if old(lua).has_reg_name(gkey) {
            assert(!created);
            assert(expose_reuse(*old(lua), *lua)) by {
                assert(lua.tables@ == s2.tables@ && s2.tables@ == old(lua).tables@);
                assert(lua.funcs@ == s2.funcs@ && s2.funcs@ == old(lua).funcs@);
                assert(lua.registry@ == s2.registry@ && s2.registry@ == old(lua).registry@);
                // the key was already interned, so the string table is unchanged
                let rw = choose|rw: int|
                    0 <= rw < old(lua).registry@.len() && old(lua).strings@[(
                    #[trigger] old(lua).registry@[rw]).name as int]@ == gkey;
                assert(old(lua).registry_ok());
                assert(old(lua).registry@[rw].name < old(lua).strings@.len());
                assert(s1.strings@[old(lua).registry@[rw].name as int]@ == gkey);
                assert(s1.strings_ok());
                if s1.strings@.len() == old(lua).strings@.len() + 1 {
                    assert(ksid == old(lua).strings@.len());
                    assert(s1.strings@[ksid as int]@ == gkey);
                    assert(old(lua).registry@[rw].name as int != ksid as int);
                    assert(false);
                }
                assert(s1.strings@ =~= old(lua).strings@);
            }
        } else {
            assert(created);
            assert(expose_fresh(
                *old(lua),
                *lua,
                ctxv,
                type_label@,
                gkey,
                methods_view(methods),
            )) by {
                let msv2 = methods_view(methods);
                assert(lua.registry@.last().table == s2.tables@.len());
                assert(s2.tables@.len() == old(lua).tables@.len());
                assert(lua.strings@[lua.registry@.last().name as int]@ == gkey);
                assert(lua.funcs@[old(lua).funcs@.len() as int].func
                    matches NativeFn::FreeUserData(s) && s@ == type_label@);
                assert(lua.funcs@[old(lua).funcs@.len() as int].upvalues@ == seq![ctxv]);
                assert(tbl_get(lua.tables@[meta_id as int].fields@, "__gc"@) == Some(
                    Value::Function(old(lua).funcs@.len() as usize),
                ));
                if msv2.len() == 0 {
                    assert(tbl_get(lua.tables@[meta_id as int].fields@, "__index"@) is None);
                } else {
                    assert(tbl_get(lua.tables@[meta_id as int].fields@, "__index"@) == Some(
                        Value::Table((old(lua).tables@.len() + 1) as usize),
                    ));
                }
            }
        }
    }
    Ok(addr)
}

/// This function creates and pushes on the stack a new full userdata
/// holding the address of `value`, which moves into the native heap
/// `values` for its type. The userdata is owned by the context at the
/// given stack `index`, tagged with the type's qualified key, and carries
/// the type's method table (built once per key) behind `__index`.
pub fn new_userdata<T: Object>(
    lua: &mut LuaState,
    values: &mut NativeHeap<T>,
    context: i32,
    value: T,
) -> (r: Result<(), EngineError>)
    requires
        old(lua).wf(),
        crate::api::acceptable_index(*old(lua), context as int),
        crate::context::ctx_live(*old(lua), context),
        old(lua).stack@.len() + 6 <= LUAI_MAXSTACK as int,
        old(values).cells@.len() <= old(lua).heap@.len(),
    ensures
        final(lua).wf(),
        final(values).cells@.len() <= final(lua).heap@.len(),
        crate::context::ctx_resolve(*old(lua), context) is Err ==> r is Err && *final(lua)
            == *old(lua) && *final(values) == *old(values),
        crate::context::ctx_resolve(*old(lua), context) matches Ok(ca) ==> ({
            let ctx = old(lua).heap@[ca as int].context.unwrap();
            let key = crate::context::qualified_key(ctx.module_name@, T::spec_type_label());
            let ctxv = stack_at(*old(lua), context as int).unwrap();
            &&& r is Ok
            &&& expose_common(*old(lua), *final(lua), key)
            &&& final(values).spec_get(old(lua).heap@.len() as int) == Some(value)
            &&& (forall|a: int|
                a != old(lua).heap@.len() ==> final(values).spec_get(a) == old(
                    values,
                ).spec_get(a))
            &&& (old(lua).has_reg_name(key) ==> expose_reuse(*old(lua), *final(lua)))
            &&& (!old(lua).has_reg_name(key) ==> expose_fresh(
                *old(lua),
                *final(lua),
                ctxv,
                T::spec_type_label(),
                key,
                T::spec_methods(),
            ))
        }),
{
    let ms = T::methods();
    proof {
        assert(methods_view(Some(&ms)) =~= T::spec_methods());
    }
    match create_userdata(lua, context, T::type_label(), Some(&ms)) {
        Ok(addr) => {
            values.insert(addr, value);
            Ok(())
        },
        Err(e) => Err(e),
    }
}

/// Pushes a new closure onto the stack: the boxed `value` moves into the
/// native heap `values`, is exposed as a userdata owned by the context at
/// the given stack `index`, and the resulting value — a dispatch closure
/// capturing the context handle and the boxed value's slot — is directly
/// callable.
pub fn push_closure<T: Closure>(
    lua: &mut LuaState,
    values: &mut NativeHeap<T>,
    context: i32,
    value: T,
) -> (r: Result<(), EngineError>)
    requires
        old(lua).wf(),
        crate::api::acceptable_index(*old(lua), context as int),
        crate::context::ctx_live(*old(lua), context),
        old(lua).stack@.len() + 7 <= LUAI_MAXSTACK as int,
        old(values).cells@.len() <= old(lua).heap@.len(),
    ensures
        final(lua).wf(),
        final(values).cells@.len() <= final(lua).heap@.len(),
        crate::context::ctx_resolve(*old(lua), context) is Err ==> r is Err && final(lua).stack@
            == old(lua).stack@ && final(lua).same_objects(*old(lua)) && *final(values) == *old(
            values,
        ),
        crate::context::ctx_resolve(*old(lua), context) matches Ok(ca) ==> ({
            let ctx = old(lua).heap@[ca as int].context.unwrap();
            let key = crate::context::qualified_key(ctx.module_name@, T::spec_type_label());
            let ctxv = stack_at(*old(lua), context as int).unwrap();
            &&& r is Ok
            &&& final(lua).heap@.len() == old(lua).heap@.len() + 1
            &&& (forall|i: int|
                0 <= i < old(lua).heap@.len() ==> #[trigger] final(lua).heap@[i] == old(
                    lua,
                ).heap@[i])
            &&& final(lua).heap@.last().live
            &&& final(lua).key_view(old(lua).heap@.len() as int) == key
            &&& final(values).spec_get(old(lua).heap@.len() as int) == Some(value)
            &&& (forall|a: int|
                a != old(lua).heap@.len() ==> final(values).spec_get(a) == old(
                    values,
                ).spec_get(a))
            &&& final(lua).stack@.len() == old(lua).stack@.len() + 1
            &&& final(lua).stack@.drop_last() == old(lua).stack@
            &&& (final(lua).stack@.last() matches Value::Function(fid) && {
                &&& fid < final(lua).funcs@.len()
                &&& (final(lua).funcs@[fid as int].func matches NativeFn::ExecuteClosure(s)
                    && s@ == T::spec_type_label())
                &&& final(lua).funcs@[fid as int].upvalues@ == seq![
                    ctxv,
                    Value::UserData(old(lua).slots@.len() as usize),
                ]
            })
            &&& (old(lua).has_reg_name(key) ==> {
                &&& final(lua).funcs@.len() == old(lua).funcs@.len() + 1
                &&& final(lua).registry@ == old(lua).registry@
                &&& final(lua).tables@ == old(lua).tables@
            })
            &&& (!old(lua).has_reg_name(key) ==> {
                &&& final(lua).funcs@.len() == old(lua).funcs@.len() + 2
                &&& final(lua).registry@.len() == old(lua).registry@.len() + 1
            })
        }),
{
    let cabs = crate::stack::abs_index(lua, context);
    proof {
        crate::api::lemma_stack_at_abs(*lua, context as int);
    }
    let ctxv_e = match crate::stack::value_at(lua, cabs) {
        Some(v) => v,
        None => {
            return Err(EngineError::NotUserData { index: context });
        },
    };
    crate::stack::push_value(lua, cabs);
    let ghost s1 = *lua;
    proof {
        assert(stack_at(s1, cabs as int) == stack_at(*old(lua), cabs as int));
        assert(crate::context::ctx_resolve(s1, cabs) == crate::context::ctx_resolve(
            *old(lua),
            cabs,
        ));
    }
    let addr = match create_userdata(lua, cabs, T::type_label(), None) {
        Ok(addr) => addr,
        Err(e) => {
            crate::stack::pop(lua, 1);
            proof {
                assert(lua.stack@ =~= old(lua).stack@);
            }
            return Err(e);
        },
    };
    values.insert(addr, value);
    let fid = lua.funcs.len();
    let shim = NativeFn::ExecuteClosure(String::from_str(T::type_label()));
    crate::stack::push_fn(lua, shim, 2);
    proof {
        assert(lua.funcs@.last().upvalues@ =~= seq![
            ctxv_e,
            Value::UserData(old(lua).slots@.len() as usize),
        ]);
        assert(lua.stack@.drop_last() =~= old(lua).stack@);
    }
    Ok(())
}

/// Performs a closure call: recovers the boxed value through the
/// closure-call shim's validation and forwards to its call behavior. On a
/// recovery failure the error is reported and nothing is touched.
pub fn dispatch_closure<T: Closure>(
    lua: &mut LuaState,
    values: &mut NativeHeap<T>,
    func: usize,
) -> (r: Result<i32, EngineError>)
    requires
        old(lua).wf(),
        func < old(lua).funcs@.len(),
        old(lua).funcs@[func as int].func is ExecuteClosure,
        upvalues_ctx_live(*old(lua), func),
        closure_target(*old(lua), func) matches Some(a) ==> old(values).spec_get(a as int)
            is Some,
    ensures
        final(lua).wf(),
        closure_target(*old(lua), func) is None ==> r is Err && *final(lua) == *old(lua)
            && *final(values) == *old(values),
        closure_target(*old(lua), func) matches Some(a) ==> final(values).cells@.len() == old(
            values,
        ).cells@.len() && final(values).spec_get(a as int) is Some && (forall|b: int|
            b != a ==> final(values).spec_get(b) == old(values).spec_get(b)),
{
    let addr = match execute_closure(lua, func) {
        Ok(a) => a,
        Err(e) => {
            return Err(e);
        },
    };
    let mut v = values.remove(addr);
    let r = v.call(lua);
    values.put(addr, v);
    r
}

/// Performs a method invocation: recovers the receiver and the raw method
/// identifier through the method-invoke shim's validation, with the
/// receiver taken from stack position 1, and forwards to the receiver's
/// own dispatch. On a recovery failure the error is reported and nothing
/// is touched.
pub fn dispatch_method<T: Object>(
    lua: &mut LuaState,
    values: &mut NativeHeap<T>,
    func: usize,
) -> (r: Result<i32, EngineError>)
    requires
        old(lua).wf(),
        func < old(lua).funcs@.len(),
        old(lua).funcs@[func as int].func is InvokeMethod,
        upvalues_ctx_live(*old(lua), func),
        method_target(*old(lua), func) matches Some(ma) ==> old(values).spec_get(ma.1 as int)
            is Some,
    ensures
        final(lua).wf(),
        method_target(*old(lua), func) is None ==> r is Err && *final(lua) == *old(lua)
            && *final(values) == *old(values),
        method_target(*old(lua), func) matches Some(ma) ==> final(values).cells@.len() == old(
            values,
        ).cells@.len() && final(values).spec_get(ma.1 as int) is Some && (forall|b: int|
            b != ma.1 ==> final(values).spec_get(b) == old(values).spec_get(b)),
{
    let (mid, addr) = match invoke_method(lua, func) {
        Ok(ma) => ma,
        Err(e) => {
            return Err(e);
        },
    };
    let mut v = values.remove(addr);
    let r = v.invoke(mid, lua);
    values.put(addr, v);
    r
}

/// Performs a finalization: recovers the collected slot's native address
/// through the finalizer shim's validation, releases the engine-side
/// allocation, and drops the boxed value — one deallocation, exactly once
/// per exposed value.
pub fn dispatch_free<T: UserData>(
    lua: &mut LuaState,
    values: &mut NativeHeap<T>,
    func: usize,
) -> (r: Result<i32, EngineError>)
    requires
        old(lua).wf(),
        func < old(lua).funcs@.len(),
        old(lua).funcs@[func as int].func is FreeUserData,
        upvalues_ctx_live(*old(lua), func),
        free_target(*old(lua), func) matches Some(a) ==> old(lua).heap@[a as int].live && old(
            values,
        ).spec_get(a as int) is Some,
    ensures
        final(lua).wf(),
        match free_target(*old(lua), func) {
            Some(a) => {
                &&& r == Ok::<i32, EngineError>(0)
                &&& final(lua).heap@.len() == old(lua).heap@.len()
                &&& (forall|i: int|
                    0 <= i < old(lua).heap@.len() && i != a ==> final(lua).heap@[i] == old(
                        lua,
                    ).heap@[i])
                &&& !final(lua).heap@[a as int].live
                &&& final(values).spec_get(a as int) is None
                &&& (forall|b: int|
                    b != a ==> final(values).spec_get(b) == old(values).spec_get(b))
                &&& final(lua).stack@ == old(lua).stack@
                &&& final(lua).strings@ == old(lua).strings@
                &&& final(lua).tables@ == old(lua).tables@
                &&& final(lua).funcs@ == old(lua).funcs@
                &&& final(lua).slots@ == old(lua).slots@
                &&& final(lua).registry@ == old(lua).registry@
            },
            None => r is Err && *final(lua) == *old(lua) && *final(values) == *old(values),
        },
{
    let addr = match free_userdata(lua, func) {
        Ok(a) => a,
        Err(e) => {
            return Err(e);
        },
    };
    let _ = values.remove(addr);
    Ok(0)
}

/// Entry `i` of `es` is the latest binding of its name among the entries
/// that carry a function, up to (excluding) `end`.
pub open spec fn last_named<'a>(es: Seq<FunctionEntry<'a>>, i: int, end: int) -> bool {
    forall|j: int|
        i < j < end && (#[trigger] es[j]).function is Some ==> es[j].name@ != es[i].name@
}

/// Table `t` binds `name` to a closure for the registered function `f`
/// with upvalues `ups`.
pub open spec fn entry_registered(
    lua: LuaState,
    t: usize,
    name: Seq<char>,
    f: usize,
    ups: Seq<Value>,
) -> bool {
    tbl_get(lua.tables@[t as int].fields@, name) matches Some(Value::Function(fid)) && fid
        < lua.funcs@.len() && lua.funcs@[fid as int].func == NativeFn::User(f)
        && lua.funcs@[fid as int].upvalues@ == ups
}

/// Registers one function into the table below the topmost `upvalues`
/// stack values: pushes copies of those values, builds the closure, and
/// binds it in the table under `name`. The shared values stay on the
/// stack.
#[verifier::rlimit(60)]
fn register_function(lua: &mut LuaState, name: &str, f: usize, upvalues: i32)
    requires
        old(lua).wf(),
        0 <= upvalues,
        upvalues as int + 1 <= old(lua).stack@.len(),
        old(lua).stack@[old(lua).stack@.len() - upvalues - 1] matches Value::Table(_),
        old(lua).stack@.len() + upvalues as int + 1 <= LUAI_MAXSTACK as int,
    ensures
        final(lua).wf(),
        final(lua).stack@ == old(lua).stack@,
        final(lua).strings@ == old(lua).strings@,
        final(lua).slots@ == old(lua).slots@,
        final(lua).heap@ == old(lua).heap@,
        final(lua).registry@ == old(lua).registry@,
        final(lua).revision == old(lua).revision,
        final(lua).funcs@.len() == old(lua).funcs@.len() + 1,
        forall|g: int|
            0 <= g < old(lua).funcs@.len() ==> #[trigger] final(lua).funcs@[g] == old(
                lua,
            ).funcs@[g],
        final(lua).funcs@.last().func == NativeFn::User(f),
        final(lua).funcs@.last().upvalues@ == old(lua).stack@.subrange(
            old(lua).stack@.len() - upvalues as int,
            old(lua).stack@.len() as int,
        ),
        final(lua).tables@.len() == old(lua).tables@.len(),
        old(lua).stack@[old(lua).stack@.len() - upvalues - 1] matches Value::Table(t) ==> {
            &&& (forall|u: int|
                0 <= u < old(lua).tables@.len() && u != t ==> #[trigger] final(lua).tables@[u]
                    == old(lua).tables@[u])
            &&& (forall|k: Seq<char>|
                #[trigger] tbl_get(final(lua).tables@[t as int].fields@, k) == if k == name@ {
                    Some(Value::Function(old(lua).funcs@.len() as usize))
                } else {
                    tbl_get(old(lua).tables@[t as int].fields@, k)
                })
        },
{
    let n = upvalues as usize;
    let ghost base = old(lua).stack@;
    let ghost ups = base.subrange(base.len() - upvalues as int, base.len() as int);
    let mut j: usize = 0;
    while j < n
        invariant
            0 <= j <= n,
            n == upvalues as usize,
            old(lua).wf(),
            lua.wf(),
            base == old(lua).stack@,
            upvalues as int + 1 <= base.len(),
            base.len() + upvalues as int + 1 <= LUAI_MAXSTACK as int,
            ups == base.subrange(base.len() - upvalues as int, base.len() as int),
            ups.len() == upvalues as int,
            lua.stack@ == base + ups.subrange(0, j as int),
            lua.stack@.len() == base.len() + j,
            lua.same_objects(*old(lua)),
        decreases n - j,
    {
        proof {
            assert(ups[j as int] == base[base.len() - upvalues as int + j]);
            assert(stack_at(*lua, -(upvalues as int)) == Some(
                base[base.len() - upvalues as int + j],
            )) by {
                assert(lua.stack@[base.len() + j - upvalues as int] == base[base.len() + j
                    - upvalues as int]);
            }
        }
        crate::stack::push_value(lua, -upvalues);
        proof {
            assert(lua.stack@ =~= base + ups.subrange(0, j + 1));
        }
        j += 1;
    }
    proof {
        assert(ups.subrange(0, n as int) =~= ups);
        assert(lua.stack@ =~= base + ups);
    }
    crate::stack::push_fn(lua, NativeFn::User(f), upvalues);
    let ghost it1 = *lua;
    proof {
        assert(it1.funcs@.last().upvalues@ =~= ups);
        assert(it1.stack@ =~= base.push(Value::Function((it1.funcs@.len() - 1) as usize)));
        assert(stack_at(it1, -(upvalues + 2) as int) == Some(
            base[base.len() - upvalues - 1],
        )) by {
            assert(it1.stack@[it1.stack@.len() - upvalues - 2] == base[base.len() - upvalues
                - 1]);
        }
    }
    crate::stack::set_field(lua, -(upvalues + 2), name);
    proof {
        assert(lua.stack@ =~= base);
    }
}

/// Registers all functions in `entries` into the table below the topmost
/// `upvalues` stack values. Each registered function becomes a closure
/// capturing copies of those shared values as its upvalues; the shared
/// values are popped after registration. Entries without a function are
/// skipped.
#[verifier::rlimit(60)]
pub fn set_functions(lua: &mut LuaState, entries: &[FunctionEntry], upvalues: i32)
    requires
        old(lua).wf(),
        0 <= upvalues,
        upvalues as int + 1 <= old(lua).stack@.len(),
        old(lua).stack@[old(lua).stack@.len() - upvalues - 1] matches Value::Table(_),
        old(lua).stack@.len() + upvalues as int + 1 <= LUAI_MAXSTACK as int,
    ensures
        final(lua).wf(),
        final(lua).stack@ == old(lua).stack@.subrange(
            0,
            old(lua).stack@.len() - upvalues as int,
        ),
        final(lua).strings@ == old(lua).strings@,
        final(lua).slots@ == old(lua).slots@,
        final(lua).heap@ == old(lua).heap@,
        final(lua).registry@ == old(lua).registry@,
        final(lua).revision == old(lua).revision,
        old(lua).funcs@.len() <= final(lua).funcs@.len(),
        forall|g: int|
            0 <= g < old(lua).funcs@.len() ==> #[trigger] final(lua).funcs@[g] == old(
                lua,
            ).funcs@[g],
        old(lua).stack@[old(lua).stack@.len() - upvalues - 1] matches Value::Table(t) ==> {
            &&& final(lua).tables@.len() == old(lua).tables@.len()
            &&& (forall|u: int|
                0 <= u < old(lua).tables@.len() && u != t ==> #[trigger] final(lua).tables@[u]
                    == old(lua).tables@[u])
            &&& (forall|i: int|
                0 <= i < entries@.len() && (#[trigger] entries@[i]).function is Some
                    && last_named(entries@, i, entries@.len() as int) ==> entry_registered(
                    *final(lua),
                    t,
                    entries@[i].name@,
                    entries@[i].function.unwrap(),
                    old(lua).stack@.subrange(
                        old(lua).stack@.len() - upvalues as int,
                        old(lua).stack@.len() as int,
                    ),
                ))
        },
{
    let t = match crate::stack::value_at(lua, -(upvalues + 1)) {
        Some(Value::Table(t)) => t,
        _ => {
            proof {
                assert(false);
            }
            0
        },
    };
    let ghost base = lua.stack@;
    let ghost ups = old(lua).stack@.subrange(
        old(lua).stack@.len() - upvalues as int,
        old(lua).stack@.len() as int,
    );
    let mut i: usize = 0;
    while i < entries.len()
        invariant
            lua.wf(),
            old(lua).wf(),
            0 <= i <= entries@.len(),
            0 <= upvalues,
            base == old(lua).stack@,
            upvalues as int + 1 <= base.len(),
            base.len() + upvalues as int + 1 <= LUAI_MAXSTACK as int,
            base[base.len() - upvalues - 1] == Value::Table(t),
            ups == base.subrange(base.len() - upvalues as int, base.len() as int),
            lua.stack@ == base,
            lua.strings@ == old(lua).strings@,
            lua.slots@ == old(lua).slots@,
            lua.heap@ == old(lua).heap@,
            lua.registry@ == old(lua).registry@,
            lua.revision == old(lua).revision,
            lua.tables@.len() == old(lua).tables@.len(),
            t < old(lua).tables@.len(),
            forall|u: int|
                0 <= u < old(lua).tables@.len() && u != t ==> #[trigger] lua.tables@[u] == old(
                    lua,
                ).tables@[u],
            old(lua).funcs@.len() <= lua.funcs@.len(),
            forall|g: int|
                0 <= g < old(lua).funcs@.len() ==> #[trigger] lua.funcs@[g] == old(
                    lua,
                ).funcs@[g],
            forall|j: int|
                0 <= j < i && (#[trigger] entries@[j]).function is Some && last_named(
                    entries@,
                    j,
                    i as int,
                ) ==> entry_registered(
                    *lua,
                    t,
                    entries@[j].name@,
                    entries@[j].function.unwrap(),
                    ups,
                ),
        decreases entries@.len() - i,
    {
        let ghost it0 = *lua;
        let entry_fn = entries[i].function;
        match entry_fn {
            Some(f) => {
                register_function(lua, entries[i].name, f, upvalues);
                proof {
                    assert forall|j: int|
                        0 <= j < i + 1 && (#[trigger] entries@[j]).function is Some
                            && last_named(entries@, j, i + 1) implies entry_registered(
                        *lua,
                        t,
                        entries@[j].name@,
                        entries@[j].function.unwrap(),
                        ups,
                    ) by {
                        assert(entries@[i as int].function is Some);
                        assert(it0.funcs.len() == it0.funcs@.len());
                        assert((it0.funcs@.len() as usize) as int == it0.funcs@.len());
                        if j == i {
                            assert(tbl_get(lua.tables@[t as int].fields@, entries@[j].name@)
                                == Some(Value::Function(it0.funcs@.len() as usize)));
                            assert(lua.funcs@.len() == it0.funcs@.len() + 1);
                            assert(lua.funcs@[it0.funcs@.len() as int] == lua.funcs@.last());
                            assert(lua.funcs@.last().func == NativeFn::User(f));
                            assert(entries@[i as int].function.unwrap() == f);
                            assert(lua.funcs@.last().upvalues@ == it0.stack@.subrange(
                                it0.stack@.len() - upvalues as int,
                                it0.stack@.len() as int,
                            ));
                            assert(it0.stack@ == base);
                            assert(lua.funcs@.last().upvalues@ == ups);
                            assert(entry_registered(
                                *lua,
                                t,
                                entries@[j].name@,
                                entries@[j].function.unwrap(),
                                ups,
                            ));
                        } else {
                            assert(entries@[j].name@ != entries@[i as int].name@);
                            assert(last_named(entries@, j, i as int));
                            assert(entry_registered(
                                it0,
                                t,
                                entries@[j].name@,
                                entries@[j].function.unwrap(),
                                ups,
                            ));
                            assert(tbl_get(lua.tables@[t as int].fields@, entries@[j].name@)
                                == tbl_get(it0.tables@[t as int].fields@, entries@[j].name@));
                            let fid = tbl_get(
                                it0.tables@[t as int].fields@,
                                entries@[j].name@,
                            ).unwrap()->Function_0;
                            assert(lua.funcs@[fid as int] == it0.funcs@[fid as int]);
                            assert(entry_registered(
                                *lua,
                                t,
                                entries@[j].name@,
                                entries@[j].function.unwrap(),
                                ups,
                            ));
                        }
                    }
                }
            },
            None => {
            },
        }
        i += 1;
    }
    crate::stack::pop(lua, upvalues);
    proof {
        assert(lua.stack@ =~= old(lua).stack@.subrange(
            0,
            old(lua).stack@.len() - upvalues as int,
        ));
    }
}

/// The native heap holding the exposed values of one type, addressed by the
/// allocation addresses the engine records. This is the single owner of the
/// boxed values between exposure and finalization.
pub struct NativeHeap<T> {
    pub cells: Vec<Option<T>>,
}

impl<T> NativeHeap<T> {
    /// The value stored at address `a`, if any.
    pub open spec fn spec_get(self, a: int) -> Option<T> {
        if 0 <= a < self.cells@.len() {
            self.cells@[a]
        } else {
            None
        }
    }

    /// An empty heap.
    pub fn new() -> (r: NativeHeap<T>)
        ensures
            forall|a: int| r.spec_get(a) is None,
    {
        NativeHeap { cells: Vec::new() }
    }

    /// The least address at or above which every cell is empty.
    pub fn frontier(&self) -> (n: usize)
        ensures
            n == self.cells@.len(),
            forall|a: int| a >= n ==> self.spec_get(a) is None,
    {
        self.cells.len()
    }

    /// Whether a value is stored at address `addr`.
    pub fn contains(&self, addr: usize) -> (r: bool)
        ensures
            r == (self.spec_get(addr as int) is Some),
    {
        addr < self.cells.len() && self.cells[addr].is_some()
    }

    /// A borrow of the value stored at address `addr`.
    pub fn get(&self, addr: usize) -> (r: Option<&T>)
        ensures
            match r {
                Some(v) => self.spec_get(addr as int) == Some(*v),
                None => self.spec_get(addr as int) is None,
            },
    {
        if addr < self.cells.len() {
            self.cells[addr].as_ref()
        } else {
            None
        }
    }

    /// Stores `value` at the fresh address `addr`.
    pub fn insert(&mut self, addr: usize, value: T)
        requires
            old(self).cells@.len() <= addr,
        ensures
            final(self).spec_get(addr as int) == Some(value),
            forall|a: int| a != addr ==> final(self).spec_get(a) == old(self).spec_get(a),
            final(self).cells@.len() == addr + 1,
    {
        while self.cells.len() < addr
            invariant
                old(self).cells@.len() <= self.cells@.len() <= addr,
                forall|a: int|
                    0 <= a < old(self).cells@.len() ==> #[trigger] self.cells@[a] == old(
                        self,
                    ).cells@[a],
                forall|a: int|
                    old(self).cells@.len() <= a < self.cells@.len()
                        ==> (#[trigger] self.cells@[a]) is None,
            decreases addr - self.cells@.len(),
        {
            self.cells.push(None);
        }
        self.cells.push(Some(value));
    }

    /// Removes and returns the value stored at address `addr`.
    pub fn remove(&mut self, addr: usize) -> (r: T)
        requires
            old(self).spec_get(addr as int) is Some,
        ensures
            Some(r) == old(self).spec_get(addr as int),
            final(self).spec_get(addr as int) is None,
            forall|a: int| a != addr ==> final(self).spec_get(a) == old(self).spec_get(a),
            final(self).cells@.len() == old(self).cells@.len(),
    {
        let cell = vstd::std_specs::vec::vec_index_mut(&mut self.cells, addr);
        let r = cell.take();
        proof {
            assert(final(self).cells@ =~= old(self).cells@.update(addr as int, None));
        }
        r.unwrap()
    }

    /// Puts `value` back into the empty cell at address `addr`.
    pub fn put(&mut self, addr: usize, value: T)
        requires
            addr < old(self).cells@.len(),
            old(self).spec_get(addr as int) is None,
        ensures
            final(self).spec_get(addr as int) == Some(value),
            forall|a: int| a != addr ==> final(self).spec_get(a) == old(self).spec_get(a),
            final(self).cells@.len() == old(self).cells@.len(),
    {
        let cell = vstd::std_specs::vec::vec_index_mut(&mut self.cells, addr);
        *cell = Some(value);
        proof {
            assert(final(self).cells@ =~= old(self).cells@.update(addr as int, Some(value)));
        }
    }
}

} // verus!
