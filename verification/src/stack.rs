//! Stack and argument helpers: each wraps a single operation of the
//! engine's capability contract, stated exactly over the engine model.

use crate::api::{
    lemma_wf_stack_change, lemma_wf_stack_prefix, lemma_wf_stack_push, spec_abs, stack_at,
    tbl_get, type_code, CClosure, EngineError, LuaState, NativeFn, Slot, Table, Value,
    LUAI_MAXSTACK, LUA_REGISTRYINDEX, LUA_TBOOLEAN, LUA_TFUNCTION, LUA_TLIGHTUSERDATA, LUA_TNIL,
    LUA_TSTRING, LUA_TTABLE, LUA_TUSERDATA,
};
use vstd::prelude::*;
use vstd::string::StringExecFns;

verus! {

/// The text of the engine type name of a value.
pub open spec fn spec_type_name_of(v: Option<Value>) -> Seq<char> {
    match v {
        None => "no value"@,
        Some(Value::Nil) => "nil"@,
        Some(Value::Boolean(_)) => "boolean"@,
        Some(Value::LightUserData(_)) => "userdata"@,
        Some(Value::Str(_)) => "string"@,
        Some(Value::Table(_)) => "table"@,
        Some(Value::Function(_)) => "function"@,
        Some(Value::UserData(_)) => "userdata"@,
    }
}

fn type_name_of(v: Option<Value>) -> (r: &'static str)
    ensures
        r@ == spec_type_name_of(v),
{
    match v {
        None => "no value",
        Some(Value::Nil) => "nil",
        Some(Value::Boolean(_)) => "boolean",
        Some(Value::LightUserData(_)) => "userdata",
        Some(Value::Str(_)) => "string",
        Some(Value::Table(_)) => "table",
        Some(Value::Function(_)) => "function",
        Some(Value::UserData(_)) => "userdata",
    }
}

/// Returns the pseudo-index that represents the i-th upvalue of the running
/// function. `i` must be in the range \[1,256\].
pub fn upvalue_index(i: i32) -> (r: i32)
    requires
        1 <= i <= 256,
    ensures
        r == LUA_REGISTRYINDEX - i,
{
    LUA_REGISTRYINDEX - i
}

/// Converts the acceptable index `index` into an equivalent absolute index
/// (that is, one that does not depend on the stack size).
pub fn abs_index(lua: &LuaState, index: i32) -> (r: i32)
    requires
        lua.wf(),
    ensures
        r as int == spec_abs(*lua, index as int),
{
    if index > 0 || index <= LUA_REGISTRYINDEX {
        index
    } else {
        proof {
            assert(lua.stack@.len() <= LUAI_MAXSTACK as int);
        }
        (lua.stack.len() as i32) + index + 1
    }
}

/// The value the acceptable index `index` denotes, if any.
pub fn value_at(lua: &LuaState, index: i32) -> (r: Option<Value>)
    requires
        lua.wf(),
    ensures
        r == stack_at(*lua, index as int),
{
    let n = lua.stack.len();
    proof {
        assert(lua.stack@.len() <= LUAI_MAXSTACK as int);
    }
    if index >= 1 && index <= (n as i32) {
        Some(lua.stack[(index - 1) as usize])
    } else if index <= -1 && index >= -(n as i32) {
        Some(lua.stack[(n as i32 + index) as usize])
    } else {
        None
    }
}

/// Pops `count` elements from the stack.
pub fn pop(lua: &mut LuaState, count: i32)
    requires
        old(lua).wf(),
        0 <= count as int <= old(lua).stack@.len(),
    ensures
        final(lua).wf(),
        final(lua).stack@ == old(lua).stack@.subrange(
            0,
            old(lua).stack@.len() - count as int,
        ),
        final(lua).same_objects(*old(lua)),
{
    let target = lua.stack.len() - (count as usize);
    lua.stack.truncate(target);
    proof {
        lemma_wf_stack_prefix(*old(lua), *lua, target as int);
    }
}

/// Pushes a copy of the element at the given `index` onto the stack.
pub fn push_value(lua: &mut LuaState, index: i32)
    requires
        old(lua).wf(),
        stack_at(*old(lua), index as int) is Some,
        old(lua).stack@.len() + 1 <= LUAI_MAXSTACK as int,
    ensures
        final(lua).wf(),
        final(lua).stack@ == old(lua).stack@.push(
            stack_at(*old(lua), index as int).unwrap(),
        ),
        final(lua).same_objects(*old(lua)),
{
    let v = match value_at(lua, index) {
        Some(v) => v,
        None => {
            proof {
                assert(false);
            }
            Value::Nil
        },
    };
    lua.stack.push(v);
    proof {
        lemma_wf_stack_push(*old(lua), *lua, v);
    }
}

/// Pushes a nil value onto the stack.
pub fn push_nil(lua: &mut LuaState)
    requires
        old(lua).wf(),
        old(lua).stack@.len() + 1 <= LUAI_MAXSTACK as int,
    ensures
        final(lua).wf(),
        final(lua).stack@ == old(lua).stack@.push(Value::Nil),
        final(lua).same_objects(*old(lua)),
{
    lua.stack.push(Value::Nil);
    proof {
        lemma_wf_stack_push(*old(lua), *lua, Value::Nil);
    }
}

/// Pushes a string onto the stack. Equal texts are interned to the same
/// string-table entry, so equal strings are one engine value.
pub fn push_str(lua: &mut LuaState, value: &str)
    requires
        old(lua).wf(),
        old(lua).stack@.len() + 1 <= LUAI_MAXSTACK as int,
    ensures
        final(lua).wf(),
        final(lua).stack@.len() == old(lua).stack@.len() + 1,
        final(lua).stack@.drop_last() == old(lua).stack@,
        final(lua).stack@.last() matches Value::Str(sid) && final(lua).strings@[sid as int]@
            == value@,
        final(lua).strings@.subrange(0, old(lua).strings@.len() as int) == old(lua).strings@,
        old(lua).strings@.len() <= final(lua).strings@.len(),
        final(lua).strings@.len() <= old(lua).strings@.len() + 1,
        final(lua).strings@.len() == old(lua).strings@.len() + 1 ==> (final(lua).stack@.last()
            matches Value::Str(sid2) && sid2 == old(lua).strings@.len()),
        final(lua).tables@ == old(lua).tables@,
        final(lua).funcs@ == old(lua).funcs@,
        final(lua).slots@ == old(lua).slots@,
        final(lua).heap@ == old(lua).heap@,
        final(lua).registry@ == old(lua).registry@,
        final(lua).revision == old(lua).revision,
    {
    let sid = lua.intern(value);
    let ghost mid = *lua;
    lua.stack.push(Value::Str(sid));
    proof {
        lemma_wf_stack_push(mid, *lua, Value::Str(sid));
        assert(final(lua).stack@.drop_last() =~= old(lua).stack@);
    }
}

/// Pushes a light userdata carrying the raw identifier `m`.
pub(crate) fn push_light(lua: &mut LuaState, m: usize)
    requires
        old(lua).wf(),
        old(lua).stack@.len() + 1 <= LUAI_MAXSTACK as int,
    ensures
        final(lua).wf(),
        final(lua).stack@ == old(lua).stack@.push(Value::LightUserData(m)),
        final(lua).same_objects(*old(lua)),
{
    lua.stack.push(Value::LightUserData(m));
    proof {
        lemma_wf_stack_push(*old(lua), *lua, Value::LightUserData(m));
    }
}

/// Pushes a new native closure onto the stack, capturing the topmost `up`
/// values (in push order) as its upvalues; the captured values are popped.
pub fn push_fn(lua: &mut LuaState, value: NativeFn, up: i32)
    requires
        old(lua).wf(),
        0 <= up as int <= old(lua).stack@.len(),
        old(lua).stack@.len() - up as int + 1 <= LUAI_MAXSTACK as int,
    ensures
        final(lua).wf(),
        final(lua).funcs@.len() == old(lua).funcs@.len() + 1,
        final(lua).funcs@.subrange(0, old(lua).funcs@.len() as int) == old(lua).funcs@,
        final(lua).funcs@.last().func == value,
        final(lua).funcs@.last().upvalues@ == old(lua).stack@.subrange(
            old(lua).stack@.len() - up as int,
            old(lua).stack@.len() as int,
        ),
        final(lua).stack@ == old(lua).stack@.subrange(
            0,
            old(lua).stack@.len() - up as int,
        ).push(Value::Function(old(lua).funcs@.len() as usize)),
        final(lua).strings@ == old(lua).strings@,
        final(lua).tables@ == old(lua).tables@,
        final(lua).slots@ == old(lua).slots@,
        final(lua).heap@ == old(lua).heap@,
        final(lua).registry@ == old(lua).registry@,
        final(lua).revision == old(lua).revision,
{
    let n = up as usize;
    let start = lua.stack.len() - n;
    let mut ups: Vec<Value> = Vec::new();
    let mut i = start;
    while i < lua.stack.len()
        invariant
            start <= i <= lua.stack@.len(),
            lua == old(lua),
            ups@ == lua.stack@.subrange(start as int, i as int),
        decreases lua.stack@.len() - i,
    {
        let v = lua.stack[i];
        ups.push(v);
        proof {
            assert(ups@ =~= lua.stack@.subrange(start as int, i + 1 as int));
        }
        i += 1;
    }
    proof {
        assert(ups@ =~= old(lua).stack@.subrange(
            old(lua).stack@.len() - up as int,
            old(lua).stack@.len() as int,
        ));
    }
    lua.stack.truncate(start);
    let fid = lua.funcs.len();
    lua.funcs.push(CClosure { func: value, upvalues: ups });
    lua.stack.push(Value::Function(fid));
    proof {
        assert(lua.funcs@.subrange(0, old(lua).funcs@.len() as int) =~= old(lua).funcs@);
        assert forall|i: int| 0 <= i < lua.stack@.len() implies lua.wf_value(
            #[trigger] lua.stack@[i]) by {
            if i < lua.stack@.len() - 1 {
                assert(lua.stack@[i] == old(lua).stack@[i]);
                assert(old(lua).wf_value(old(lua).stack@[i]));
                crate::api::lemma_wf_value_frame(*old(lua), *lua, old(lua).stack@[i]);
            } else {
                assert(lua.stack@[i] == Value::Function(old(lua).funcs@.len() as usize));
            }
        }
        assert forall|f: int, j: int|
            old(lua).funcs@.len() <= f < lua.funcs@.len() && 0 <= j
                < lua.funcs@[f].upvalues@.len() implies lua.wf_value(
            #[trigger] lua.funcs@[f].upvalues@[j]) by {
            assert(f == old(lua).funcs@.len());
            assert(lua.funcs@[f].upvalues@[j] == old(lua).stack@[old(lua).stack@.len()
                - up as int + j]);
            assert(old(lua).wf_value(old(lua).stack@[old(lua).stack@.len() - up as int + j]));
            crate::api::lemma_wf_value_frame(
                *old(lua),
                *lua,
                old(lua).stack@[old(lua).stack@.len() - up as int + j],
            );
        }
        crate::api::lemma_wf_grow(*old(lua), *lua);
    }
}

/// Creates a new empty table and pushes it onto the stack. The `elements`
/// and `fields` parameters are preallocation hints only.
pub fn create_table(lua: &mut LuaState, elements: i32, fields: i32)
    requires
        old(lua).wf(),
        old(lua).stack@.len() + 1 <= LUAI_MAXSTACK as int,
    ensures
        final(lua).wf(),
        final(lua).stack@ == old(lua).stack@.push(
            Value::Table(old(lua).tables@.len() as usize),
        ),
        final(lua).tables@.len() == old(lua).tables@.len() + 1,
        final(lua).tables@.subrange(0, old(lua).tables@.len() as int) == old(lua).tables@,
        final(lua).tables@.last().fields@.len() == 0,
        final(lua).strings@ == old(lua).strings@,
        final(lua).funcs@ == old(lua).funcs@,
        final(lua).slots@ == old(lua).slots@,
        final(lua).heap@ == old(lua).heap@,
        final(lua).registry@ == old(lua).registry@,
        final(lua).revision == old(lua).revision,
{
    let _ = elements;
    let _ = fields;
    let tid = lua.tables.len();
    lua.tables.push(Table { fields: Vec::new() });
    lua.stack.push(Value::Table(tid));
    proof {
        assert(lua.tables@.subrange(0, old(lua).tables@.len() as int) =~= old(lua).tables@);
        assert(tbl_get(lua.tables@.last().fields@, "__name"@) is None);
        assert forall|i: int| 0 <= i < lua.stack@.len() implies lua.wf_value(
            #[trigger] lua.stack@[i]) by {
            if i < lua.stack@.len() - 1 {
                assert(lua.stack@[i] == old(lua).stack@[i]);
                assert(old(lua).wf_value(old(lua).stack@[i]));
                crate::api::lemma_wf_value_frame(*old(lua), *lua, old(lua).stack@[i]);
            } else {
                assert(lua.stack@[i] == Value::Table(old(lua).tables@.len() as usize));
            }
        }
        crate::api::lemma_wf_grow(*old(lua), *lua);
    }
}

/// The latest binding for `key` in `t`, if any.
pub(crate) fn table_get(t: &Table, key: &String) -> (r: Option<Value>)
    ensures
        r == tbl_get(t.fields@, key@),
{
    let mut r: Option<Value> = None;
    let mut j: usize = 0;
    while j < t.fields.len()
        invariant
            0 <= j <= t.fields@.len(),
            r == tbl_get(t.fields@.subrange(0, j as int), key@),
        decreases t.fields@.len() - j,
    {
        proof {
            assert(t.fields@.subrange(0, j + 1) =~= t.fields@.subrange(0, j as int).push(
                t.fields@[j as int],
            ));
            crate::api::lemma_tbl_get_push(
                t.fields@.subrange(0, j as int),
                t.fields@[j as int],
                key@,
            );
        }
        if t.fields[j].0 == *key {
            r = Some(t.fields[j].1);
        }
        j += 1;
    }
    proof {
        assert(t.fields@.subrange(0, t.fields@.len() as int) =~= t.fields@);
    }
    r
}

/// Does the equivalent to `t[key] = v`, where `t` is the value at the given
/// `index` and `v` is the value on the top of the stack; the value is
/// popped. The engine owns the string stored under `__name` in metatables,
/// so no string value may be written under that key here.
pub fn set_field(lua: &mut LuaState, index: i32, key: &str)
    requires
        old(lua).wf(),
        old(lua).stack@.len() >= 1,
        stack_at(*old(lua), index as int) matches Some(Value::Table(_)),
        key@ == "__name"@ ==> !(old(lua).stack@.last() matches Value::Str(_)),
    ensures
        final(lua).wf(),
        final(lua).stack@ == old(lua).stack@.drop_last(),
        stack_at(*old(lua), index as int) matches Some(Value::Table(t)) ==> {
            &&& final(lua).tables@.len() == old(lua).tables@.len()
            &&& forall|u: int|
                0 <= u < old(lua).tables@.len() && u != t ==> final(lua).tables@[u] == old(
                    lua,
                ).tables@[u]
            &&& final(lua).tables@[t as int].fields@.len() == old(lua).tables@[t
                as int].fields@.len() + 1
            &&& final(lua).tables@[t as int].fields@.drop_last() == old(lua).tables@[t
                as int].fields@
            &&& final(lua).tables@[t as int].fields@.last().0@ == key@
            &&& final(lua).tables@[t as int].fields@.last().1 == old(lua).stack@.last()
            &&& forall|k: Seq<char>|
                #[trigger] tbl_get(final(lua).tables@[t as int].fields@, k) == if k == key@ {
                    Some(old(lua).stack@.last())
                } else {
                    tbl_get(old(lua).tables@[t as int].fields@, k)
                }
        },
        final(lua).strings@ == old(lua).strings@,
        final(lua).funcs@ == old(lua).funcs@,
        final(lua).slots@ == old(lua).slots@,
        final(lua).heap@ == old(lua).heap@,
        final(lua).registry@ == old(lua).registry@,
        final(lua).revision == old(lua).revision,
{
    let t = match value_at(lua, index) {
        Some(Value::Table(t)) => t,
        _ => {
            proof {
                assert(false);
            }
            0
        },
    };
    let v = match lua.stack.pop() {
        Some(v) => v,
        None => {
            proof {
                assert(false);
            }
            Value::Nil
        },
    };
    let pair = (String::from_str(key), v);
    let ghost gpair = pair;
    let tb = vstd::std_specs::vec::vec_index_mut(&mut lua.tables, t);
    tb.fields.push(pair);
    proof {
        assert(lua.tables@ =~= old(lua).tables@.update(
            t as int,
            lua.tables@[t as int],
        ));
        assert(lua.tables@[t as int].fields@ == old(lua).tables@[t as int].fields@.push(gpair));
        assert(lua.tables@[t as int].fields@.drop_last() =~= old(lua).tables@[t
            as int].fields@);
        assert forall|k: Seq<char>| #[trigger] tbl_get(lua.tables@[t as int].fields@, k)
            == if k == key@ {
            Some(old(lua).stack@.last())
        } else {
            tbl_get(old(lua).tables@[t as int].fields@, k)
        } by {
            crate::api::lemma_tbl_get_push(old(lua).tables@[t as int].fields@, gpair, k);
        }
        assert(lua.stack@ =~= old(lua).stack@.drop_last());
        // well-formedness
        assert forall|i: int| 0 <= i < lua.stack@.len() implies lua.wf_value(
            #[trigger] lua.stack@[i]) by {
            assert(lua.stack@[i] == old(lua).stack@[i]);
            assert(old(lua).wf_value(old(lua).stack@[i]));
        }
        assert(lua.stack_ok());
        assert forall|u: int, j: int|
            0 <= u < lua.tables@.len() && 0 <= j < lua.tables@[u].fields@.len()
            implies lua.wf_value(#[trigger] lua.tables@[u].fields@[j].1) by {
            if u == t as int && j == lua.tables@[u].fields@.len() - 1 {
                assert(lua.tables@[u].fields@[j].1 == old(lua).stack@.last());
                assert(old(lua).wf_value(old(lua).stack@.last()));
            } else {
                assert(old(lua).tables@[u].fields@[j] == lua.tables@[u].fields@[j]);
                assert(old(lua).wf_value(old(lua).tables@[u].fields@[j].1));
            }
        }
        assert(lua.tables_ok());
        assert(lua.funcs_ok()) by {
            assert forall|f: int, j: int|
                0 <= f < lua.funcs@.len() && 0 <= j < lua.funcs@[f].upvalues@.len()
                implies lua.wf_value(#[trigger] lua.funcs@[f].upvalues@[j]) by {
                assert(old(lua).wf_value(old(lua).funcs@[f].upvalues@[j]));
            }
        }
        assert(lua.names_ok()) by {
            assert forall|u: int| 0 <= u < lua.tables@.len() implies match tbl_get(
                (#[trigger] lua.tables@[u]).fields@,
                "__name"@,
            ) {
                Some(Value::Str(n)) => lua.reg_maps(n, u as usize),
                _ => true,
            } by {
                assert(old(lua).names_ok());
                if u == t as int {
                    crate::api::lemma_tbl_get_push(
                        old(lua).tables@[u].fields@,
                        gpair,
                        "__name"@,
                    );
                } else {
                    assert(lua.tables@[u] == old(lua).tables@[u]);
                }
                if u == t as int && gpair.0@ == "__name"@ {
                    assert(tbl_get(lua.tables@[u].fields@, "__name"@) == Some(gpair.1));
                    assert(!(gpair.1 matches Value::Str(_)));
                }
                if !(u == t as int && gpair.0@ == "__name"@) {
                    match tbl_get(old(lua).tables@[u].fields@, "__name"@) {
                        Some(Value::Str(n)) => {
                            assert(old(lua).reg_maps(n, u as usize));
                            let r = choose|r: int|
                                0 <= r < old(lua).registry@.len() && (
                                #[trigger] old(lua).registry@[r]).name == n && old(
                                    lua,
                                ).registry@[r].table == u as usize;
                            assert(lua.registry@[r].name == n && lua.registry@[r].table == u
                                as usize);
                        },
                        _ => {},
                    }
                }
            }
        }
        assert(lua.contexts_ok()) by {
            assert forall|i: int|
                0 <= i < lua.heap@.len() && (#[trigger] lua.heap@[i]).live && !crate::api::has_dot(
                    lua.key_view(i),
                ) && !crate::api::reserved_name(lua.key_view(i)) implies lua.heap@[i].context
                is Some by {
                assert(lua.key_view(i) == old(lua).key_view(i));
                assert(old(lua).contexts_ok());
            }
        }
        assert(lua.wf());
    }
}

/// Pushes onto the stack the value `t[key]`, where `t` is the value at the
/// given `index` (nil when the key is unbound). Returns the type of the
/// pushed value.
pub fn get_field(lua: &mut LuaState, index: i32, key: &str) -> (r: i32)
    requires
        old(lua).wf(),
        stack_at(*old(lua), index as int) matches Some(Value::Table(_)),
        old(lua).stack@.len() + 1 <= LUAI_MAXSTACK as int,
    ensures
        final(lua).wf(),
        final(lua).same_objects(*old(lua)),
        stack_at(*old(lua), index as int) matches Some(Value::Table(t)) ==> {
            let got = tbl_get(old(lua).tables@[t as int].fields@, key@);
            let pushed = match got {
                Some(v) => v,
                None => Value::Nil,
            };
            &&& final(lua).stack@ == old(lua).stack@.push(pushed)
            &&& r as int == type_code(Some(pushed))
        },
{
    let t = match value_at(lua, index) {
        Some(Value::Table(t)) => t,
        _ => {
            proof {
                assert(false);
            }
            0
        },
    };
    let owned = String::from_str(key);
    let got = table_get(&lua.tables[t], &owned);
    let pushed = match got {
        Some(v) => v,
        None => Value::Nil,
    };
    proof {
        crate::api::lemma_tbl_get_is_field(lua.tables@[t as int].fields@, owned@);
        assert(lua.wf_value(pushed)) by {
            match got {
                Some(v) => {
                    let j = choose|j: int|
                        0 <= j < lua.tables@[t as int].fields@.len() && #[trigger] lua.tables@[t
                            as int].fields@[j].1 == v;
                    assert(lua.wf_value(lua.tables@[t as int].fields@[j].1));
                },
                None => {},
            }
        }
    }
    let ghost mid = *lua;
    lua.stack.push(pushed);
    proof {
        crate::api::lemma_wf_stack_push(mid, *lua, pushed);
    }
    match pushed {
        Value::Nil => LUA_TNIL,
        Value::Boolean(_) => LUA_TBOOLEAN,
        Value::LightUserData(_) => LUA_TLIGHTUSERDATA,
        Value::Str(_) => LUA_TSTRING,
        Value::Table(_) => LUA_TTABLE,
        Value::Function(_) => LUA_TFUNCTION,
        Value::UserData(_) => LUA_TUSERDATA,
    }
}

/// If the value at the given `index` has a metatable, pushes that metatable
/// onto the stack and returns `true`; otherwise returns `false` and pushes
/// nothing. In this model only userdata slots carry metatables.
pub fn get_metatable(lua: &mut LuaState, index: i32) -> (r: bool)
    requires
        old(lua).wf(),
        old(lua).stack@.len() + 1 <= LUAI_MAXSTACK as int,
    ensures
        final(lua).wf(),
        final(lua).same_objects(*old(lua)),
        match stack_at(*old(lua), index as int) {
            Some(Value::UserData(s)) => match old(lua).slots@[s as int].meta {
                Some(t) => r && final(lua).stack@ == old(lua).stack@.push(Value::Table(t)),
                None => !r && final(lua).stack@ == old(lua).stack@,
            },
            _ => !r && final(lua).stack@ == old(lua).stack@,
        },
{
    match value_at(lua, index) {
        Some(Value::UserData(s)) => {
            match lua.slots[s].meta {
                Some(t) => {
                    let ghost mid = *lua;
                    lua.stack.push(Value::Table(t));
                    proof {
                        lemma_wf_stack_push(mid, *lua, Value::Table(t));
                    }
                    true
                },
                None => false,
            }
        },
        _ => false,
    }
}

/// Pops a table or nil from the stack and sets that value as the new
/// metatable for the userdata slot at the given `index` (nil means no
/// metatable). The engine contract only permits attaching a registered
/// metatable to a slot tagged with the matching key.
pub fn set_metatable(lua: &mut LuaState, index: i32)
    requires
        old(lua).wf(),
        old(lua).stack@.len() >= 1,
        old(lua).stack@.last() matches Value::Table(_) || old(lua).stack@.last()
            matches Value::Nil,
        stack_at(*old(lua), index as int) matches Some(Value::UserData(_)),
        stack_at(*old(lua), index as int) matches Some(Value::UserData(s))
            ==> crate::api::attach_ok(*old(lua), s, old(lua).stack@.last()),
    ensures
        final(lua).wf(),
        final(lua).stack@ == old(lua).stack@.drop_last(),
        stack_at(*old(lua), index as int) matches Some(Value::UserData(s)) ==> {
            &&& final(lua).slots@.len() == old(lua).slots@.len()
            &&& forall|u: int|
                0 <= u < old(lua).slots@.len() && u != s ==> final(lua).slots@[u] == old(
                    lua,
                ).slots@[u]
            &&& final(lua).slots@[s as int].addr == old(lua).slots@[s as int].addr
            &&& final(lua).slots@[s as int].meta == (match old(lua).stack@.last() {
                Value::Table(t) => Some(t),
                _ => None::<usize>,
            })
        },
        final(lua).strings@ == old(lua).strings@,
        final(lua).tables@ == old(lua).tables@,
        final(lua).funcs@ == old(lua).funcs@,
        final(lua).heap@ == old(lua).heap@,
        final(lua).registry@ == old(lua).registry@,
        final(lua).revision == old(lua).revision,
{
    let s = match value_at(lua, index) {
        Some(Value::UserData(s)) => s,
        _ => {
            proof {
                assert(false);
            }
            0
        },
    };
    let top = match lua.stack.pop() {
        Some(v) => v,
        None => {
            proof {
                assert(false);
            }
            Value::Nil
        },
    };
    let meta = match top {
        Value::Table(t) => Some(t),
        _ => None,
    };
    let addr = lua.slots[s].addr;
    lua.slots[s] = Slot { addr, meta };
    proof {
        assert(lua.stack@ =~= old(lua).stack@.drop_last());
        assert(lua.slots@ =~= old(lua).slots@.update(s as int, Slot { addr, meta }));
        assert forall|i: int| 0 <= i < lua.stack@.len() implies lua.wf_value(
            #[trigger] lua.stack@[i]) by {
            assert(lua.stack@[i] == old(lua).stack@[i]);
            assert(old(lua).wf_value(old(lua).stack@[i]));
        }
        assert(lua.stack_ok());
        assert(lua.tables_ok()) by {
            assert forall|u: int, j: int|
                0 <= u < lua.tables@.len() && 0 <= j < lua.tables@[u].fields@.len()
                implies lua.wf_value(#[trigger] lua.tables@[u].fields@[j].1) by {
                assert(old(lua).wf_value(old(lua).tables@[u].fields@[j].1));
            }
        }
        assert(lua.funcs_ok()) by {
            assert forall|f: int, j: int|
                0 <= f < lua.funcs@.len() && 0 <= j < lua.funcs@[f].upvalues@.len()
                implies lua.wf_value(#[trigger] lua.funcs@[f].upvalues@[j]) by {
                assert(old(lua).wf_value(old(lua).funcs@[f].upvalues@[j]));
            }
        }
        assert(lua.slots_ok()) by {
            assert forall|i: int| 0 <= i < lua.slots@.len() implies {
                &&& (#[trigger] lua.slots@[i]).addr < lua.heap@.len()
                &&& (lua.slots@[i].meta matches Some(t) ==> t < lua.tables@.len())
            } by {
                if i != s as int {
                    assert(lua.slots@[i] == old(lua).slots@[i]);
                }
                assert(old(lua).slots_ok());
                assert(old(lua).slots@[i].addr < old(lua).heap@.len());
            }
        }
        assert(lua.coupling_ok()) by {
            assert forall|i: int, r: int|
                0 <= i < lua.slots@.len() && 0 <= r < lua.registry@.len() && (
                #[trigger] lua.slots@[i]).meta == Some((#[trigger] lua.registry@[r]).table)
                implies lua.heap@[lua.slots@[i].addr as int].key == lua.registry@[r].name by {
                if i == s as int {
                    assert(crate::api::attach_ok(*old(lua), s, old(lua).stack@.last()));
                    assert(old(lua).stack@.last() == Value::Table(old(lua).registry@[r].table));
                } else {
                    assert(lua.slots@[i] == old(lua).slots@[i]);
                    assert(old(lua).coupling_ok());
                }
            }
        }
        assert(lua.contexts_ok()) by {
            assert forall|i: int|
                0 <= i < lua.heap@.len() && (#[trigger] lua.heap@[i]).live && !crate::api::has_dot(
                    lua.key_view(i),
                ) && !crate::api::reserved_name(lua.key_view(i)) implies lua.heap@[i].context
                is Some by {
                assert(lua.key_view(i) == old(lua).key_view(i));
                assert(old(lua).contexts_ok());
            }
        }
        assert(lua.names_ok()) by {
            assert forall|u: int| 0 <= u < lua.tables@.len() implies match tbl_get(
                (#[trigger] lua.tables@[u]).fields@,
                "__name"@,
            ) {
                Some(Value::Str(n)) => lua.reg_maps(n, u as usize),
                _ => true,
            } by {
                assert(old(lua).names_ok());
                assert(lua.tables@[u] == old(lua).tables@[u]);
                match tbl_get(old(lua).tables@[u].fields@, "__name"@) {
                    Some(Value::Str(n)) => {
                        assert(old(lua).reg_maps(n, u as usize));
                        let r = choose|r: int|
                            0 <= r < old(lua).registry@.len() && (
                            #[trigger] old(lua).registry@[r]).name == n && old(
                                lua,
                            ).registry@[r].table == u as usize;
                        assert(lua.registry@[r].name == n && lua.registry@[r].table == u
                            as usize);
                    },
                    _ => {},
                }
            }
        }
        assert(lua.wf());
    }
}

/// Returns `true` if the given `index` is not valid or if the value at this
/// `index` is nil, and `false` otherwise.
pub fn is_none_or_nil(lua: &LuaState, index: i32) -> (r: bool)
    requires
        lua.wf(),
    ensures
        r == (type_code(stack_at(*lua, index as int)) <= 0),
{
    match value_at(lua, index) {
        None => true,
        Some(Value::Nil) => true,
        Some(_) => false,
    }
}

/// Converts the engine value at the given `index` to a string.
///
/// The value must be a string; otherwise, the function returns [`None`].
pub fn to_string(lua: &LuaState, index: i32) -> (r: Option<String>)
    requires
        lua.wf(),
    ensures
        match stack_at(*lua, index as int) {
            Some(Value::Str(sid)) => r matches Some(s) && s == lua.strings@[sid as int],
            _ => r is None,
        },
{
    match value_at(lua, index) {
        Some(Value::Str(sid)) => Some(lua.strings[sid].clone()),
        _ => None,
    }
}

/// Checks whether the function argument `arg` is a string and returns this
/// string; reports a type mismatch for any other value.
pub fn check_string(lua: &LuaState, arg: i32) -> (r: Result<String, EngineError>)
    requires
        lua.wf(),
    ensures
        match stack_at(*lua, arg as int) {
            Some(Value::Str(sid)) => r matches Ok(s) && s == lua.strings@[sid as int],
            v => r matches Err(e) && (e matches EngineError::TypeMismatch {
                arg: a,
                expected: x,
                got: g,
            } && a == arg && x@ == "string"@ && g@ == spec_type_name_of(v)),
        },
{
    match value_at(lua, arg) {
        Some(Value::Str(sid)) => Ok(lua.strings[sid].clone()),
        v => Err(type_error(lua, arg, "string")),
    }
}

/// If the function argument `arg` is a string, returns this string. If this
/// argument is absent or is nil, returns [`None`]. Any other value reports
/// a type mismatch.
pub fn opt_string(lua: &LuaState, arg: i32) -> (r: Result<Option<String>, EngineError>)
    requires
        lua.wf(),
    ensures
        match stack_at(*lua, arg as int) {
            Some(Value::Str(sid)) => r matches Ok(Some(s)) && s == lua.strings@[sid as int],
            None | Some(Value::Nil) => r matches Ok(None),
            v => r matches Err(e) && (e matches EngineError::TypeMismatch {
                arg: a,
                expected: x,
                got: g,
            } && a == arg && x@ == "string"@ && g@ == spec_type_name_of(v)),
        },
{
    if is_none_or_nil(lua, arg) {
        Ok(None)
    } else {
        match check_string(lua, arg) {
            Ok(s) => Ok(Some(s)),
            Err(e) => Err(e),
        }
    }
}

/// Raises a type error for the argument `arg` of the running function,
/// using a standard message; `expect` is a name for the expected type.
pub fn type_error(lua: &LuaState, arg: i32, expect: &str) -> (r: EngineError)
    requires
        lua.wf(),
    ensures
        r matches EngineError::TypeMismatch { arg: a, expected: x, got: g } && a == arg && x@
            == expect@ && g@ == spec_type_name_of(stack_at(*lua, arg as int)),
{
    let got = type_name_of(value_at(lua, arg));
    EngineError::TypeMismatch {
        arg,
        expected: String::from_str(expect),
        got: String::from_str(got),
    }
}

/// Reports a problem with argument `arg` of the running function, carrying
/// `comment` as the explanation.
pub fn argument_error(arg: i32, comment: &str) -> (r: EngineError)
    ensures
        r matches EngineError::BadArgument { arg: a, comment: c } && a == arg && c@ == comment@,
{
    EngineError::BadArgument { arg, comment: String::from_str(comment) }
}

/// An engine error carrying the given message.
pub fn error_with_message(message: &str) -> (r: EngineError)
    ensures
        r matches EngineError::Message { message: m } && m@ == message@,
{
    EngineError::Message { message: String::from_str(message) }
}

/// An engine error carrying the value on the top of the stack as the error
/// object; the value is popped.
pub fn error(lua: &mut LuaState) -> (r: EngineError)
    requires
        old(lua).wf(),
        old(lua).stack@.len() >= 1,
    ensures
        final(lua).wf(),
        final(lua).stack@ == old(lua).stack@.drop_last(),
        final(lua).same_objects(*old(lua)),
        r == (EngineError::Thrown { value: old(lua).stack@.last() }),
{
    let v = match lua.stack.pop() {
        Some(v) => v,
        None => {
            proof {
                assert(false);
            }
            Value::Nil
        },
    };
    proof {
        assert(final(lua).stack@ =~= old(lua).stack@.subrange(
            0,
            old(lua).stack@.len() - 1,
        ));
        lemma_wf_stack_prefix(*old(lua), *lua, old(lua).stack@.len() - 1);
    }
    EngineError::Thrown { value: v }
}

} // verus!
