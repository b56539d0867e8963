//! The model of the scripting engine that the binding layer drives.
//!
//! The engine is specified, not reimplemented: `LuaState` holds exactly the
//! state the documented capability contract exposes to a native module — a
//! value stack, an interned string table, tables, native closures, opaque
//! userdata slots, an allocation ledger, and the named-metatable registry.
//! Every capability call the binding layer relies on is a verified operation
//! on this state.

use crate::context::Context;
use vstd::prelude::*;
use vstd::string::StringExecFns;

verus! {

/// Upper bound the engine places on the value stack.
pub const LUAI_MAXSTACK: i32 = 1000000;

/// Base of the pseudo-index range used to address upvalues.
pub const LUA_REGISTRYINDEX: i32 = -LUAI_MAXSTACK - 1000;

pub const LUA_TNONE: i32 = -1;

pub const LUA_TNIL: i32 = 0;

pub const LUA_TBOOLEAN: i32 = 1;

pub const LUA_TLIGHTUSERDATA: i32 = 2;

pub const LUA_TSTRING: i32 = 4;

pub const LUA_TTABLE: i32 = 5;

pub const LUA_TFUNCTION: i32 = 6;

pub const LUA_TUSERDATA: i32 = 7;

/// An engine value. Strings are interned: a `Str` holds an index into the
/// engine's string table, and two `Str` values with equal text hold the same
/// index. The other indices name tables, native closures, and userdata slots.
#[derive(Clone, Copy, PartialEq, Eq, Debug)]
pub enum Value {
    Nil,
    Boolean(bool),
    LightUserData(usize),
    Str(usize),
    Table(usize),
    Function(usize),
    UserData(usize),
}

/// The native function a pushed closure forwards to: either a function the
/// module registered by identifier, or one of the binding layer's fixed
/// dispatch shims, each carrying the type name it was instantiated for.
#[derive(Clone, PartialEq, Eq, Debug)]
pub enum NativeFn {
    User(usize),
    ExecuteClosure(String),
    InvokeMethod(String),
    FreeUserData(String),
    FinalizeContext,
}

/// A table: a sequence of field bindings; the latest binding for a key wins.
#[derive(Debug)]
pub struct Table {
    pub fields: Vec<(String, Value)>,
}

/// A native closure: the target function plus its captured upvalues.
#[derive(Debug)]
pub struct CClosure {
    pub func: NativeFn,
    pub upvalues: Vec<Value>,
}

/// An opaque userdata slot: engine-owned storage holding one native address
/// and, optionally, an attached metatable.
#[derive(Clone, Copy, PartialEq, Eq, Debug)]
pub struct Slot {
    pub addr: usize,
    pub meta: Option<usize>,
}

/// One entry of the allocation ledger: the interned type key the allocation
/// was tagged with, whether it is still live, and — for the per-module
/// context allocation only — the context value itself.
#[derive(Debug)]
pub struct Alloc {
    pub key: usize,
    pub live: bool,
    pub context: Option<Context>,
}

/// One entry of the named-metatable registry.
#[derive(Clone, Copy, PartialEq, Eq, Debug)]
pub struct RegEntry {
    pub name: usize,
    pub table: usize,
}

/// The host side of the capability table: the handle the module was given at
/// bootstrap and the root under which per-module configuration lives.
#[derive(Debug)]
pub struct Host {
    pub handle: usize,
    pub config_root: String,
}

/// The descriptor a host passes to `bootstrap`: capability revision, module
/// name, host handle, and the module's working directory.
#[derive(Debug)]
pub struct BootstrapContext {
    pub revision: u32,
    pub name: String,
    pub locenv: usize,
    pub working_directory: String,
}

/// An engine-level error. The original protocol reports these through the
/// engine's non-returning error mechanism; here they are ordinary values
/// that propagate to the dispatch boundary.
#[derive(Clone, PartialEq, Eq, Debug)]
pub enum EngineError {
    /// The value at `index` is not a userdata slot.
    NotUserData { index: i32 },
    /// The value at `index` is not a module context.
    NotContext { index: i32 },
    /// The metatable of the value at `index` carries no readable name.
    BadMetatable { index: i32 },
    /// The value at `index` is tagged with a different type key.
    WrongType { index: i32, expected: String },
    /// A metatable with this module's name already exists.
    DuplicateMetatable { module: String },
    /// A complaint about argument `arg` of the running function.
    BadArgument { arg: i32, comment: String },
    /// Argument `arg` had the wrong engine type.
    TypeMismatch { arg: i32, expected: String, got: String },
    /// An error carrying a plain message.
    Message { message: String },
    /// An error carrying an arbitrary engine value.
    Thrown { value: Value },
}

/// The engine state visible through the capability table.
#[derive(Debug)]
pub struct LuaState {
    pub revision: u32,
    pub stack: Vec<Value>,
    pub strings: Vec<String>,
    pub tables: Vec<Table>,
    pub funcs: Vec<CClosure>,
    pub slots: Vec<Slot>,
    pub heap: Vec<Alloc>,
    pub registry: Vec<RegEntry>,
}

/// True if `s` contains a `'.'` — the mark of a type-qualified metatable
/// name, as opposed to the bare module name that tags a context.
pub open spec fn has_dot(s: Seq<char>) -> bool {
    exists|i: int| 0 <= i < s.len() && s[i] == '.'
}

/// The name the engine reserves for the module manager itself.
pub open spec fn reserved_name(s: Seq<char>) -> bool {
    s == "locenv"@
}

/// Field lookup in a table: the latest binding for `key`, if any.
pub open spec fn tbl_get(fields: Seq<(String, Value)>, key: Seq<char>) -> Option<Value>
    decreases fields.len(),
{
    if fields.len() == 0 {
        None
    } else if fields.last().0@ == key {
        Some(fields.last().1)
    } else {
        tbl_get(fields.drop_last(), key)
    }
}

/// The value an acceptable index denotes: positive indices count from the
/// bottom of the stack (1-based), negative ones from the top.
pub open spec fn stack_at(s: LuaState, index: int) -> Option<Value> {
    let n = s.stack@.len() as int;
    if 1 <= index <= n {
        Some(s.stack@[index - 1])
    } else if -n <= index <= -1 {
        Some(s.stack@[n + index])
    } else {
        None
    }
}

/// The absolute index equivalent to `index` (pseudo-indices are kept as is).
pub open spec fn spec_abs(s: LuaState, index: int) -> int {
    if index > 0 || index <= LUA_REGISTRYINDEX as int {
        index
    } else {
        s.stack@.len() + index + 1
    }
}

/// The engine type code of the value an index denotes.
pub open spec fn type_code(v: Option<Value>) -> int {
    match v {
        None => LUA_TNONE as int,
        Some(Value::Nil) => LUA_TNIL as int,
        Some(Value::Boolean(_)) => LUA_TBOOLEAN as int,
        Some(Value::LightUserData(_)) => LUA_TLIGHTUSERDATA as int,
        Some(Value::Str(_)) => LUA_TSTRING as int,
        Some(Value::Table(_)) => LUA_TTABLE as int,
        Some(Value::Function(_)) => LUA_TFUNCTION as int,
        Some(Value::UserData(_)) => LUA_TUSERDATA as int,
    }
}

/// An index the engine contract accepts: a pseudo-index, or one that does
/// not reach below the bottom of the stack.
pub open spec fn acceptable_index(s: LuaState, i: int) -> bool {
    i <= LUA_REGISTRYINDEX as int || -s.stack@.len() <= i
}

/// An acceptable index and its absolute form denote the same value.
pub proof fn lemma_stack_at_abs(s: LuaState, i: int)
    requires
        acceptable_index(s, i),
    ensures
        stack_at(s, spec_abs(s, i)) == stack_at(s, i),
{
    let n = s.stack@.len() as int;
    if i > 0 || i <= LUA_REGISTRYINDEX as int {
    } else if -n <= i <= -1 {
        assert(spec_abs(s, i) == n + i + 1);
        assert(stack_at(s, n + i + 1) == Some(s.stack@[n + i]));
    } else {
    }
}

/// Appending a binding makes it the latest: lookups of its key now see it,
/// lookups of other keys are unchanged.
pub proof fn lemma_tbl_get_push(fields: Seq<(String, Value)>, p: (String, Value), k: Seq<char>)
    ensures
        tbl_get(fields.push(p), k) == if p.0@ == k {
            Some(p.1)
        } else {
            tbl_get(fields, k)
        },
{
    assert(fields.push(p).drop_last() =~= fields);
    assert(fields.push(p).last() == p);
}

/// A successful lookup returns one of the table's field values.
pub proof fn lemma_tbl_get_is_field(fields: Seq<(String, Value)>, k: Seq<char>)
    ensures
        tbl_get(fields, k) matches Some(v) ==> exists|j: int|
            0 <= j < fields.len() && #[trigger] fields[j].1 == v,
    decreases fields.len(),
{
    if fields.len() > 0 && fields.last().0@ != k {
        lemma_tbl_get_is_field(fields.drop_last(), k);
        if tbl_get(fields, k) is Some {
            let v = tbl_get(fields, k).unwrap();
            let j = choose|j: int|
                0 <= j < fields.drop_last().len() && #[trigger] fields.drop_last()[j].1 == v;
            assert(fields[j].1 == v);
        }
    }
}

/// Attaching the table value `v` as the metatable of slot `s` respects the
/// key the slot's allocation is tagged with: if `v` is a registered
/// metatable, its registered name is that key. This is the discipline the
/// engine contract demands of metatable attachment.
pub open spec fn attach_ok(a: LuaState, s: usize, v: Value) -> bool {
    forall|r: int|
        0 <= r < a.registry@.len() && v == Value::Table((#[trigger] a.registry@[r]).table)
            ==> a.heap@[a.slots@[s as int].addr as int].key == a.registry@[r].name
}

/// A value well formed in `a` stays well formed in any state whose object
/// tables are at least as large.
pub proof fn lemma_wf_value_frame(a: LuaState, b: LuaState, v: Value)
    requires
        a.wf_value(v),
        a.strings@.len() <= b.strings@.len(),
        a.tables@.len() <= b.tables@.len(),
        a.funcs@.len() <= b.funcs@.len(),
        a.slots@.len() <= b.slots@.len(),
    ensures
        b.wf_value(v),
{
}

/// Well-formedness is preserved by operations that only rearrange the
/// stack, as long as every value on the new stack was well formed before.
pub proof fn lemma_wf_stack_change(a: LuaState, b: LuaState)
    requires
        a.wf(),
        b.strings@ == a.strings@,
        b.tables@ == a.tables@,
        b.funcs@ == a.funcs@,
        b.slots@ == a.slots@,
        b.heap@ == a.heap@,
        b.registry@ == a.registry@,
        b.stack@.len() <= LUAI_MAXSTACK as int,
        forall|i: int| 0 <= i < b.stack@.len() ==> a.wf_value(#[trigger] b.stack@[i]),
    ensures
        b.wf(),
{
    assert forall|i: int| 0 <= i < b.stack@.len() implies b.wf_value(#[trigger] b.stack@[i]) by {
        lemma_wf_value_frame(a, b, b.stack@[i]);
    }
    assert forall|t: int, j: int|
        0 <= t < b.tables@.len() && 0 <= j < b.tables@[t].fields@.len() implies b.wf_value(
        #[trigger] b.tables@[t].fields@[j].1) by {
        assert(a.wf_value(a.tables@[t].fields@[j].1));
        lemma_wf_value_frame(a, b, a.tables@[t].fields@[j].1);
    }
    assert forall|f: int, j: int|
        0 <= f < b.funcs@.len() && 0 <= j < b.funcs@[f].upvalues@.len() implies b.wf_value(
        #[trigger] b.funcs@[f].upvalues@[j]) by {
        assert(a.wf_value(a.funcs@[f].upvalues@[j]));
        lemma_wf_value_frame(a, b, a.funcs@[f].upvalues@[j]);
    }
    assert(b.contexts_ok()) by {
        assert forall|i: int|
            0 <= i < b.heap@.len() && (#[trigger] b.heap@[i]).live && !has_dot(b.key_view(i))
                && !reserved_name(b.key_view(i)) implies b.heap@[i].context is Some by {
            assert(b.key_view(i) == a.key_view(i));
            assert(a.contexts_ok());
        }
    }
    assert(b.names_ok()) by {
        assert forall|t: int| 0 <= t < b.tables@.len() implies match tbl_get(
            (#[trigger] b.tables@[t]).fields@,
            "__name"@,
        ) {
            Some(Value::Str(n)) => b.reg_maps(n, t as usize),
            _ => true,
        } by {
            assert(a.names_ok());
            assert(b.tables@[t] == a.tables@[t]);
            match tbl_get(a.tables@[t].fields@, "__name"@) {
                Some(Value::Str(n)) => {
                    assert(a.reg_maps(n, t as usize));
                    let r = choose|r: int|
                        0 <= r < a.registry@.len() && (#[trigger] a.registry@[r]).name == n
                            && a.registry@[r].table == t as usize;
                    assert(0 <= r < b.registry@.len());
                    assert(b.registry@[r].name == n && b.registry@[r].table == t as usize);
                },
                _ => {},
            }
        }
    }
}

/// The workhorse frame lemma: well-formedness is preserved by any
/// operation that only appends to the object tables, provided the appended
/// entries satisfy their own invariant clauses.
pub proof fn lemma_wf_grow(a: LuaState, b: LuaState)
    requires
        a.wf(),
        a.strings@.len() <= b.strings@.len(),
        forall|i: int| 0 <= i < a.strings@.len() ==> #[trigger] b.strings@[i] == a.strings@[i],
        b.strings_ok(),
        a.tables@.len() <= b.tables@.len(),
        forall|t: int| 0 <= t < a.tables@.len() ==> #[trigger] b.tables@[t] == a.tables@[t],
        forall|t: int, j: int|
            a.tables@.len() <= t < b.tables@.len() && 0 <= j < b.tables@[t].fields@.len()
                ==> b.wf_value(#[trigger] b.tables@[t].fields@[j].1),
        forall|t: int|
            a.tables@.len() <= t < b.tables@.len() ==> match tbl_get(
                (#[trigger] b.tables@[t]).fields@,
                "__name"@,
            ) {
                Some(Value::Str(n)) => b.reg_maps(n, t as usize),
                _ => true,
            },
        a.funcs@.len() <= b.funcs@.len(),
        forall|f: int| 0 <= f < a.funcs@.len() ==> #[trigger] b.funcs@[f] == a.funcs@[f],
        forall|f: int, j: int|
            a.funcs@.len() <= f < b.funcs@.len() && 0 <= j < b.funcs@[f].upvalues@.len()
                ==> b.wf_value(#[trigger] b.funcs@[f].upvalues@[j]),
        a.slots@.len() <= b.slots@.len(),
        forall|s: int| 0 <= s < a.slots@.len() ==> #[trigger] b.slots@[s] == a.slots@[s],
        forall|s: int|
            a.slots@.len() <= s < b.slots@.len() ==> (#[trigger] b.slots@[s]).addr
                < b.heap@.len() && (b.slots@[s].meta matches Some(t) ==> t < b.tables@.len()),
        forall|s: int, r: int|
            a.slots@.len() <= s < b.slots@.len() && 0 <= r < b.registry@.len() && (
            #[trigger] b.slots@[s]).meta == Some((#[trigger] b.registry@[r]).table)
                ==> b.heap@[b.slots@[s].addr as int].key == b.registry@[r].name,
        a.heap@.len() <= b.heap@.len(),
        forall|i: int| 0 <= i < a.heap@.len() ==> #[trigger] b.heap@[i] == a.heap@[i],
        forall|i: int|
            a.heap@.len() <= i < b.heap@.len() ==> (#[trigger] b.heap@[i]).key
                < b.strings@.len() && (b.heap@[i].live && !has_dot(b.key_view(i))
                && !reserved_name(b.key_view(i)) ==> b.heap@[i].context is Some),
        a.registry@.len() <= b.registry@.len(),
        forall|r: int| 0 <= r < a.registry@.len() ==> #[trigger] b.registry@[r] == a.registry@[r],
        forall|r: int|
            a.registry@.len() <= r < b.registry@.len() ==> (#[trigger] b.registry@[r]).name
                < b.strings@.len() && b.registry@[r].table < b.tables@.len(),
        forall|r1: int, r2: int|
            0 <= r1 < b.registry@.len() && a.registry@.len() <= r2 < b.registry@.len() && r1 != r2
                ==> (#[trigger] b.registry@[r1]).name != (#[trigger] b.registry@[r2]).name
                && b.registry@[r1].table != b.registry@[r2].table,
        forall|s: int, r: int|
            0 <= s < a.slots@.len() && a.registry@.len() <= r < b.registry@.len() && (
            #[trigger] b.slots@[s]).meta == Some((#[trigger] b.registry@[r]).table)
                ==> b.heap@[b.slots@[s].addr as int].key == b.registry@[r].name,
        b.stack@.len() <= LUAI_MAXSTACK as int,
        forall|i: int| 0 <= i < b.stack@.len() ==> b.wf_value(#[trigger] b.stack@[i]),
    ensures
        b.wf(),
{
    assert(b.stack_ok());
    assert forall|t: int, j: int|
        0 <= t < b.tables@.len() && 0 <= j < b.tables@[t].fields@.len() implies b.wf_value(
        #[trigger] b.tables@[t].fields@[j].1) by {
        if t < a.tables@.len() {
            assert(b.tables@[t] == a.tables@[t]);
            assert(a.wf_value(a.tables@[t].fields@[j].1));
            lemma_wf_value_frame(a, b, a.tables@[t].fields@[j].1);
        }
    }
    assert forall|f: int, j: int|
        0 <= f < b.funcs@.len() && 0 <= j < b.funcs@[f].upvalues@.len() implies b.wf_value(
        #[trigger] b.funcs@[f].upvalues@[j]) by {
        if f < a.funcs@.len() {
            assert(b.funcs@[f] == a.funcs@[f]);
            assert(a.wf_value(a.funcs@[f].upvalues@[j]));
            lemma_wf_value_frame(a, b, a.funcs@[f].upvalues@[j]);
        }
    }
    assert forall|s: int| 0 <= s < b.slots@.len() implies {
        &&& (#[trigger] b.slots@[s]).addr < b.heap@.len()
        &&& (b.slots@[s].meta matches Some(t) ==> t < b.tables@.len())
    } by {
        if s < a.slots@.len() {
            assert(b.slots@[s] == a.slots@[s]);
            assert(a.slots@[s].addr < a.heap@.len());
        }
    }
    assert(b.registry_ok()) by {
        assert forall|r1: int, r2: int|
            0 <= r1 < b.registry@.len() && 0 <= r2 < b.registry@.len() && r1 != r2 implies {
            &&& (#[trigger] b.registry@[r1]).name != (#[trigger] b.registry@[r2]).name
            &&& b.registry@[r1].table != b.registry@[r2].table
        } by {
            if r1 < a.registry@.len() && r2 < a.registry@.len() {
                assert(b.registry@[r1] == a.registry@[r1]);
                assert(b.registry@[r2] == a.registry@[r2]);
                assert(a.registry_ok());
            }
        }
    }
    assert(b.heap_ok()) by {
        assert forall|i: int| 0 <= i < b.heap@.len() implies (#[trigger] b.heap@[i]).key
            < b.strings@.len() by {
            if i < a.heap@.len() {
                assert(b.heap@[i] == a.heap@[i]);
                assert(a.heap@[i].key < a.strings@.len());
            }
        }
    }
    assert(b.contexts_ok()) by {
        assert forall|i: int|
            0 <= i < b.heap@.len() && (#[trigger] b.heap@[i]).live && !has_dot(b.key_view(i))
                && !reserved_name(b.key_view(i)) implies b.heap@[i].context is Some by {
            if i < a.heap@.len() {
                assert(b.heap@[i] == a.heap@[i]);
                assert(a.heap@[i].key < a.strings@.len());
                assert(b.key_view(i) == a.key_view(i));
                assert(a.contexts_ok());
            }
        }
    }
    assert(b.names_ok()) by {
        assert forall|t: int| 0 <= t < b.tables@.len() implies match tbl_get(
            (#[trigger] b.tables@[t]).fields@,
            "__name"@,
        ) {
            Some(Value::Str(n)) => b.reg_maps(n, t as usize),
            _ => true,
        } by {
            if t < a.tables@.len() {
                assert(b.tables@[t] == a.tables@[t]);
                assert(a.names_ok());
                match tbl_get(a.tables@[t].fields@, "__name"@) {
                    Some(Value::Str(n)) => {
                        assert(a.reg_maps(n, t as usize));
                        let r = choose|r: int|
                            0 <= r < a.registry@.len() && (#[trigger] a.registry@[r]).name == n
                                && a.registry@[r].table == t as usize;
                        assert(0 <= r < b.registry@.len());
                        assert(b.registry@[r] == a.registry@[r]);
                        assert(b.reg_maps(n, t as usize));
                    },
                    _ => {},
                }
            }
        }
    }
    assert(b.coupling_ok()) by {
        assert forall|s: int, r: int|
            0 <= s < b.slots@.len() && 0 <= r < b.registry@.len() && (#[trigger] b.slots@[s]).meta
                == Some((#[trigger] b.registry@[r]).table) implies b.heap@[b.slots@[s].addr
                as int].key == b.registry@[r].name by {
            if s < a.slots@.len() && r < a.registry@.len() {
                assert(b.slots@[s] == a.slots@[s]);
                assert(b.registry@[r] == a.registry@[r]);
                assert(a.coupling_ok());
                assert(a.heap@[a.slots@[s].addr as int].key == a.registry@[r].name);
                assert(b.heap@[a.slots@[s].addr as int] == a.heap@[a.slots@[s].addr as int]);
            }
        }
    }
}

/// Marks the allocation at `addr` as reclaimed: it is no longer live and
/// holds no context. The key stays, so the ledger records what the address
/// was, and a second release of the same address is ruled out by the
/// precondition on liveness at the call sites.
pub(crate) fn release_alloc(lua: &mut LuaState, addr: usize)
    requires
        old(lua).wf(),
        addr < old(lua).heap@.len(),
    ensures
        final(lua).wf(),
        final(lua).heap@.len() == old(lua).heap@.len(),
        forall|i: int| 0 <= i < old(lua).heap@.len() && i != addr ==> final(lua).heap@[i] == old(
            lua,
        ).heap@[i],
        final(lua).heap@[addr as int].key == old(lua).heap@[addr as int].key,
        !final(lua).heap@[addr as int].live,
        final(lua).heap@[addr as int].context is None,
        final(lua).stack@ == old(lua).stack@,
        final(lua).strings@ == old(lua).strings@,
        final(lua).tables@ == old(lua).tables@,
        final(lua).funcs@ == old(lua).funcs@,
        final(lua).slots@ == old(lua).slots@,
        final(lua).registry@ == old(lua).registry@,
        final(lua).revision == old(lua).revision,
{
    let key = lua.heap[addr].key;
    lua.heap[addr] = Alloc { key, live: false, context: None };
    proof {
        assert(lua.heap@ =~= old(lua).heap@.update(
            addr as int,
            Alloc { key, live: false, context: None },
        ));
        assert forall|i: int| 0 <= i < lua.stack@.len() implies lua.wf_value(
            #[trigger] lua.stack@[i]) by {
            assert(old(lua).wf_value(old(lua).stack@[i]));
        }
        assert(lua.stack_ok());
        assert(lua.tables_ok()) by {
            assert forall|t: int, j: int|
                0 <= t < lua.tables@.len() && 0 <= j < lua.tables@[t].fields@.len()
                implies lua.wf_value(#[trigger] lua.tables@[t].fields@[j].1) by {
                assert(old(lua).wf_value(old(lua).tables@[t].fields@[j].1));
            }
        }
        assert(lua.funcs_ok()) by {
            assert forall|f: int, j: int|
                0 <= f < lua.funcs@.len() && 0 <= j < lua.funcs@[f].upvalues@.len()
                implies lua.wf_value(#[trigger] lua.funcs@[f].upvalues@[j]) by {
                assert(old(lua).wf_value(old(lua).funcs@[f].upvalues@[j]));
            }
        }
        assert(lua.slots_ok()) by {
            assert forall|i: int| 0 <= i < lua.slots@.len() implies {
                &&& (#[trigger] lua.slots@[i]).addr < lua.heap@.len()
                &&& (lua.slots@[i].meta matches Some(t) ==> t < lua.tables@.len())
            } by {
                assert(old(lua).slots_ok());
                assert(old(lua).slots@[i].addr < old(lua).heap@.len());
            }
        }
        assert(lua.heap_ok()) by {
            assert forall|i: int| 0 <= i < lua.heap@.len() implies (#[trigger] lua.heap@[i]).key
                < lua.strings@.len() by {
                assert(old(lua).heap_ok());
                assert(old(lua).heap@[i].key < old(lua).strings@.len());
            }
        }
        assert(lua.contexts_ok()) by {
            assert forall|i: int|
                0 <= i < lua.heap@.len() && (#[trigger] lua.heap@[i]).live && !has_dot(
                    lua.key_view(i),
                ) && !reserved_name(lua.key_view(i)) implies lua.heap@[i].context is Some by {
                assert(i != addr);
                assert(lua.heap@[i] == old(lua).heap@[i]);
                assert(lua.key_view(i) == old(lua).key_view(i));
                assert(old(lua).contexts_ok());
            }
        }
        assert(lua.names_ok()) by {
            assert forall|t: int| 0 <= t < lua.tables@.len() implies match tbl_get(
                (#[trigger] lua.tables@[t]).fields@,
                "__name"@,
            ) {
                Some(Value::Str(n)) => lua.reg_maps(n, t as usize),
                _ => true,
            } by {
                assert(old(lua).names_ok());
                match tbl_get(old(lua).tables@[t].fields@, "__name"@) {
                    Some(Value::Str(n)) => {
                        assert(old(lua).reg_maps(n, t as usize));
                        let r = choose|r: int|
                            0 <= r < old(lua).registry@.len() && (
                            #[trigger] old(lua).registry@[r]).name == n && old(
                                lua,
                            ).registry@[r].table == t as usize;
                        assert(lua.registry@[r].name == n && lua.registry@[r].table == t
                            as usize);
                    },
                    _ => {},
                }
            }
        }
        assert(lua.coupling_ok()) by {
            assert forall|i: int, r: int|
                0 <= i < lua.slots@.len() && 0 <= r < lua.registry@.len() && (
                #[trigger] lua.slots@[i]).meta == Some((#[trigger] lua.registry@[r]).table)
                implies lua.heap@[lua.slots@[i].addr as int].key == lua.registry@[r].name by {
                assert(old(lua).coupling_ok());
                assert(old(lua).heap@[old(lua).slots@[i].addr as int].key == old(
                    lua,
                ).registry@[r].name);
                if old(lua).slots@[i].addr == addr {
                } else {
                    assert(lua.heap@[old(lua).slots@[i].addr as int] == old(lua).heap@[old(
                        lua,
                    ).slots@[i].addr as int]);
                }
            }
        }
        assert(lua.wf());
    }
}

/// Well-formedness is preserved by pushing one well-formed value.
pub proof fn lemma_wf_stack_push(a: LuaState, b: LuaState, v: Value)
    requires
        a.wf(),
        b.same_objects(a),
        b.stack@ == a.stack@.push(v),
        a.wf_value(v),
        b.stack@.len() <= LUAI_MAXSTACK as int,
    ensures
        b.wf(),
{
    assert forall|i: int| 0 <= i < b.stack@.len() implies a.wf_value(#[trigger] b.stack@[i]) by {
        if i < a.stack@.len() {
            assert(b.stack@[i] == a.stack@[i]);
        } else {
            assert(b.stack@[i] == v);
        }
    }
    lemma_wf_stack_change(a, b);
}

/// Well-formedness is preserved by dropping values from the top.
pub proof fn lemma_wf_stack_prefix(a: LuaState, b: LuaState, k: int)
    requires
        a.wf(),
        b.same_objects(a),
        0 <= k <= a.stack@.len(),
        b.stack@ == a.stack@.subrange(0, k),
    ensures
        b.wf(),
{
    assert forall|i: int| 0 <= i < b.stack@.len() implies a.wf_value(#[trigger] b.stack@[i]) by {
        assert(b.stack@[i] == a.stack@[i]);
    }
    lemma_wf_stack_change(a, b);
}

impl LuaState {
    /// A value is well formed when every index it carries is in range.
    pub open spec fn wf_value(self, v: Value) -> bool {
        match v {
            Value::Str(i) => i < self.strings@.len(),
            Value::Table(i) => i < self.tables@.len(),
            Value::Function(i) => i < self.funcs@.len(),
            Value::UserData(i) => i < self.slots@.len(),
            _ => true,
        }
    }

    pub open spec fn stack_ok(self) -> bool {
        &&& self.stack@.len() <= LUAI_MAXSTACK as int
        &&& forall|i: int|
            0 <= i < self.stack@.len() ==> self.wf_value(#[trigger] self.stack@[i])
    }

    pub open spec fn tables_ok(self) -> bool {
        forall|t: int, j: int|
            0 <= t < self.tables@.len() && 0 <= j < self.tables@[t].fields@.len()
                ==> self.wf_value(#[trigger] self.tables@[t].fields@[j].1)
    }

    pub open spec fn funcs_ok(self) -> bool {
        forall|f: int, j: int|
            0 <= f < self.funcs@.len() && 0 <= j < self.funcs@[f].upvalues@.len()
                ==> self.wf_value(#[trigger] self.funcs@[f].upvalues@[j])
    }

    pub open spec fn slots_ok(self) -> bool {
        forall|i: int|
            0 <= i < self.slots@.len() ==> {
                &&& (#[trigger] self.slots@[i]).addr < self.heap@.len()
                &&& (self.slots@[i].meta matches Some(t) ==> t < self.tables@.len())
            }
    }

    pub open spec fn registry_ok(self) -> bool {
        &&& forall|i: int|
            0 <= i < self.registry@.len() ==> {
                &&& (#[trigger] self.registry@[i]).name < self.strings@.len()
                &&& self.registry@[i].table < self.tables@.len()
            }
        &&& forall|i: int, j: int|
            0 <= i < self.registry@.len() && 0 <= j < self.registry@.len() && i != j ==> {
                &&& (#[trigger] self.registry@[i]).name != (#[trigger] self.registry@[j]).name
                &&& self.registry@[i].table != self.registry@[j].table
            }
    }

    /// Interning keeps the string table free of duplicates, so equality of
    /// string indices coincides with equality of string contents.
    pub open spec fn strings_ok(self) -> bool {
        forall|i: int, j: int|
            0 <= i < self.strings@.len() && 0 <= j < self.strings@.len() && i != j
                ==> (#[trigger] self.strings@[i])@ != (#[trigger] self.strings@[j])@
    }

    pub open spec fn heap_ok(self) -> bool {
        forall|i: int|
            0 <= i < self.heap@.len() ==> (#[trigger] self.heap@[i]).key < self.strings@.len()
    }

    /// The text of the type key of allocation `i`.
    pub open spec fn key_view(self, i: int) -> Seq<char> {
        self.strings@[self.heap@[i].key as int]@
    }

    /// Every live allocation whose key is a bare, unreserved module name
    /// holds a context: only bootstrap tags allocations with such names.
    pub open spec fn contexts_ok(self) -> bool {
        forall|i: int|
            0 <= i < self.heap@.len() && (#[trigger] self.heap@[i]).live && !has_dot(
                self.key_view(i),
            ) && !reserved_name(self.key_view(i)) ==> self.heap@[i].context is Some
    }

    /// `name` is registered and maps to table `t`.
    pub open spec fn reg_maps(self, name: usize, t: usize) -> bool {
        exists|r: int|
            0 <= r < self.registry@.len() && (#[trigger] self.registry@[r]).name == name
                && self.registry@[r].table == t
    }

    /// Some registered name has text `x`.
    pub open spec fn has_reg_name(self, x: Seq<char>) -> bool {
        exists|r: int|
            0 <= r < self.registry@.len() && self.strings@[(
            #[trigger] self.registry@[r]).name as int]@ == x
    }

    /// A `__name` field is only ever written by metatable creation, so a
    /// table declaring a registered name is that registry entry's table.
    pub open spec fn names_ok(self) -> bool {
        forall|t: int|
            0 <= t < self.tables@.len() ==> match tbl_get(
                (#[trigger] self.tables@[t]).fields@,
                "__name"@,
            ) {
                Some(Value::Str(n)) => self.reg_maps(n, t as usize),
                _ => true,
            }
    }

    /// A slot's attached metatable names the key its allocation is tagged
    /// with: attaching is only done right after tagging.
    pub open spec fn coupling_ok(self) -> bool {
        forall|i: int, r: int|
            0 <= i < self.slots@.len() && 0 <= r < self.registry@.len() && (
            #[trigger] self.slots@[i]).meta == Some((#[trigger] self.registry@[r]).table)
                ==> self.heap@[self.slots@[i].addr as int].key == self.registry@[r].name
    }

    /// The engine-state invariant every operation preserves.
    pub open spec fn wf(self) -> bool {
        &&& self.stack_ok()
        &&& self.tables_ok()
        &&& self.funcs_ok()
        &&& self.slots_ok()
        &&& self.registry_ok()
        &&& self.strings_ok()
        &&& self.heap_ok()
        &&& self.contexts_ok()
        &&& self.names_ok()
        &&& self.coupling_ok()
    }

    /// Everything that gives values their identity — all components except
    /// the stack — is unchanged between `self` and `other`.
    pub open spec fn same_objects(self, other: LuaState) -> bool {
        &&& self.revision == other.revision
        &&& self.strings@ == other.strings@
        &&& self.tables@ == other.tables@
        &&& self.funcs@ == other.funcs@
        &&& self.slots@ == other.slots@
        &&& self.heap@ == other.heap@
        &&& self.registry@ == other.registry@
    }

    /// A fresh engine state: empty stack, no objects.
    pub fn new(revision: u32) -> (s: LuaState)
        ensures
            s.wf(),
            s.revision == revision,
            s.stack@.len() == 0,
            s.strings@.len() == 0,
            s.tables@.len() == 0,
            s.funcs@.len() == 0,
            s.slots@.len() == 0,
            s.heap@.len() == 0,
            s.registry@.len() == 0,
    {
        LuaState {
            revision,
            stack: Vec::new(),
            strings: Vec::new(),
            tables: Vec::new(),
            funcs: Vec::new(),
            slots: Vec::new(),
            heap: Vec::new(),
            registry: Vec::new(),
        }
    }

    /// Number of values on the stack.
    pub fn stack_size(&self) -> (n: usize)
        ensures
            n == self.stack@.len(),
    {
        self.stack.len()
    }

    /// Number of named metatables created so far.
    pub fn metatable_count(&self) -> (n: usize)
        ensures
            n == self.registry@.len(),
    {
        self.registry.len()
    }

    /// Number of native closures created so far.
    pub fn closure_count(&self) -> (n: usize)
        ensures
            n == self.funcs@.len(),
    {
        self.funcs.len()
    }

    /// Number of tables created so far.
    pub fn table_count(&self) -> (n: usize)
        ensures
            n == self.tables@.len(),
    {
        self.tables.len()
    }

    /// Whether the allocation at `addr` is still live.
    pub fn allocation_live(&self, addr: usize) -> (r: bool)
        ensures
            r == (addr < self.heap@.len() && self.heap@[addr as int].live),
    {
        addr < self.heap.len() && self.heap[addr].live
    }

    /// Intern `s`: return the index of the string-table entry whose text is
    /// `s`, adding one if none exists. Only the string table changes.
    pub(crate) fn intern(&mut self, s: &str) -> (sid: usize)
        requires
            old(self).wf(),
        ensures
            final(self).wf(),
            sid < final(self).strings@.len(),
            final(self).strings@[sid as int]@ == s@,
            final(self).strings@.len() >= old(self).strings@.len(),
            final(self).strings@.len() <= old(self).strings@.len() + 1,
            final(self).strings@.subrange(0, old(self).strings@.len() as int) == old(
                self,
            ).strings@,
            final(self).strings@.len() == old(self).strings@.len() + 1 ==> sid == old(
                self,
            ).strings@.len(),
            final(self).stack@ == old(self).stack@,
            final(self).tables@ == old(self).tables@,
            final(self).funcs@ == old(self).funcs@,
            final(self).slots@ == old(self).slots@,
            final(self).heap@ == old(self).heap@,
            final(self).registry@ == old(self).registry@,
            final(self).revision == old(self).revision,
    {
        let owned = String::from_str(s);
        let n = self.strings.len();
        let mut i: usize = 0;
        while i < n
            invariant
                *self == *old(self),
                old(self).wf(),
                owned@ == s@,
                n == self.strings@.len(),
                0 <= i <= n,
                forall|j: int| 0 <= j < i ==> (#[trigger] self.strings@[j])@ != s@,
            decreases n - i,
        {
            if self.strings[i] == owned {
                proof {
                    assert(self.strings@.subrange(0, self.strings@.len() as int)
                        =~= self.strings@);
                }
                return i;
            }
            i += 1;
        }
        self.strings.push(owned);
        proof {
            assert(self.strings@.subrange(0, old(self).strings@.len() as int)
                =~= old(self).strings@);
            assert forall|x: int, y: int|
                0 <= x < self.strings@.len() && 0 <= y < self.strings@.len() && x != y implies (
            #[trigger] self.strings@[x])@ != (#[trigger] self.strings@[y])@ by {
                if x < old(self).strings@.len() && y < old(self).strings@.len() {
                    assert(self.strings@[x] == old(self).strings@[x]);
                    assert(self.strings@[y] == old(self).strings@[y]);
                    assert(old(self).strings_ok());
                } else if x < old(self).strings@.len() {
                    assert(self.strings@[y]@ == s@);
                    assert(self.strings@[x]@ != s@);
                } else {
                    assert(self.strings@[x]@ == s@);
                    assert(self.strings@[y]@ != s@);
                }
            }
            assert forall|i: int| 0 <= i < self.stack@.len() implies self.wf_value(
                #[trigger] self.stack@[i]) by {
                assert(old(self).wf_value(old(self).stack@[i]));
                lemma_wf_value_frame(*old(self), *self, old(self).stack@[i]);
            }
            lemma_wf_grow(*old(self), *self);
        }
        n
    }
}

} // verus!
