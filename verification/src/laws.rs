//! Laws the binding protocol guarantees, stated and proved over the model.

use crate::api::{tbl_get, EngineError, LuaState, NativeFn, Value};
use crate::context::{config_path, ctx_check, qualified_key};
use crate::userdata::{expose_common, expose_fresh, expose_reuse, free_target, method_binding};
use vstd::prelude::*;

verus! {

/// Single metatable per type key: the first exposure under `key` leaves
/// the key registered, so the contract of every further exposure forces
/// the reuse branch — no new metatable, finalizer closure, or method
/// table can be built for that key again.
pub proof fn lemma_single_metatable(
    a: LuaState,
    b: LuaState,
    ctxv: Value,
    tn: Seq<char>,
    key: Seq<char>,
    ms: Seq<(Seq<char>, usize)>,
)
    requires
        expose_fresh(a, b, ctxv, tn, key, ms),
    ensures
        b.has_reg_name(key),
{
    let r = b.registry@.len() - 1;
    assert(b.strings@[b.registry@[r].name as int]@ == key);
}

/// The second exposure under one key builds nothing: given the first
/// exposure and the contract every exposure satisfies, the follow-up
/// leaves registry, tables, and closures untouched.
pub proof fn lemma_second_exposure_reuses(
    a: LuaState,
    b: LuaState,
    c: LuaState,
    ctxv: Value,
    tn: Seq<char>,
    key: Seq<char>,
    ms: Seq<(Seq<char>, usize)>,
)
    requires
        expose_fresh(a, b, ctxv, tn, key, ms),
        b.has_reg_name(key) ==> expose_reuse(b, c),
    ensures
        c.registry@ == b.registry@,
        c.tables@ == b.tables@,
        c.funcs@ == b.funcs@,
{
    lemma_single_metatable(a, b, ctxv, tn, key, ms);
}

/// No double free: once a finalization step has run for an allocation,
/// the liveness precondition of every further finalizer invocation that
/// would resolve to the same allocation is false — destruction logic
/// cannot run twice for one allocation.
pub proof fn lemma_no_double_free(b: LuaState, func: usize, addr: usize)
    requires
        !b.heap@[addr as int].live,
        free_target(b, func) == Some(addr),
    ensures
        !(free_target(b, func) matches Some(x) ==> b.heap@[x as int].live),
{
}

/// Type-confusion rejection: a handle whose metatable declares an exposed
/// object's qualified key — any `<module>.<type>` name — is never
/// accepted as a context; the recovery reports an error instead.
pub proof fn lemma_type_confusion_rejected(
    lua: LuaState,
    index: i32,
    module: Seq<char>,
    type_label: Seq<char>,
    s: usize,
    t: usize,
    n: usize,
)
    requires
        lua.slots@[s as int].meta == Some(t),
        tbl_get(lua.tables@[t as int].fields@, "__name"@) == Some(Value::Str(n)),
        lua.strings@[n as int]@ == qualified_key(module, type_label),
    ensures
        ctx_check(lua, Value::UserData(s), index) == Err::<usize, EngineError>(
            EngineError::NotContext { index },
        ),
{
    crate::context::lemma_qualified_key_has_dot(module, type_label);
}

/// Path resolution idempotence: the configuration path is a function of
/// the host root and the module name alone, so any two resolutions for
/// the same module under the same host agree.
pub proof fn lemma_configurations_path_idempotent(
    root: Seq<char>,
    name: Seq<char>,
    r1: Seq<char>,
    r2: Seq<char>,
)
    requires
        r1 == config_path(root, name),
        r2 == config_path(root, name),
    ensures
        r1 == r2,
{
}

/// The method table resolves a declared name to the dispatch closure of
/// its latest declaration.
pub proof fn lemma_method_binding_resolves(
    ms: Seq<(Seq<char>, usize)>,
    base: int,
    i: int,
)
    requires
        0 <= i < ms.len(),
        forall|j: int| i < j < ms.len() ==> ms[j].0 != ms[i].0,
    ensures
        method_binding(ms, base, ms[i].0) == Some(Value::Function((base + i) as usize)),
    decreases ms.len(),
{
    if i == ms.len() - 1 {
    } else {
        assert(ms.last().0 != ms[i].0);
        assert(ms.drop_last()[i] == ms[i]);
        lemma_method_binding_resolves(ms.drop_last(), base, i);
    }
}

/// Method dispatch correctness: after a type's first exposure, resolving
/// the latest declaration of a method name through the metatable's
/// `__index` table yields exactly the dispatch closure that carries the
/// declared raw method identifier and the owning context handle — the
/// closure whose invocation recovers that identifier and validates the
/// receiver at stack position 1 (see `invoke_method`).
pub proof fn lemma_method_dispatch(
    a: LuaState,
    b: LuaState,
    ctxv: Value,
    tn: Seq<char>,
    key: Seq<char>,
    ms: Seq<(Seq<char>, usize)>,
    i: int,
)
    requires
        expose_fresh(a, b, ctxv, tn, key, ms),
        0 < ms.len(),
        0 <= i < ms.len(),
        forall|j: int| i < j < ms.len() ==> ms[j].0 != ms[i].0,
    ensures
        tbl_get(b.tables@[a.tables@.len() as int].fields@, "__index"@) == Some(
            Value::Table((a.tables@.len() + 1) as usize),
        ),
        tbl_get(b.tables@[(a.tables@.len() + 1) as int].fields@, ms[i].0) == Some(
            Value::Function((a.funcs@.len() + 1 + i) as usize),
        ),
        b.funcs@[a.funcs@.len() + 1 + i].func matches NativeFn::InvokeMethod(s2) && s2@ == tn,
        b.funcs@[a.funcs@.len() + 1 + i].upvalues@ == seq![
            ctxv,
            Value::LightUserData(ms[i].1),
        ],
{
    lemma_method_binding_resolves(ms, a.funcs@.len() + 1 as int, i);
}

/// Closure upvalue isolation: two exposures — of the same type or not —
/// yield distinct heap allocations, and the first allocation is untouched
/// by the second exposure, so two exposed values never share or alias one
/// native box.
pub proof fn lemma_closure_isolation(
    s0: LuaState,
    s1: LuaState,
    s2: LuaState,
    k1: Seq<char>,
    k2: Seq<char>,
)
    requires
        expose_common(s0, s1, k1),
        expose_common(s1, s2, k2),
    ensures
        s0.heap@.len() != s1.heap@.len(),
        s2.heap@[s0.heap@.len() as int] == s1.heap@[s0.heap@.len() as int],
        s1.heap@[s0.heap@.len() as int].live,
{
    assert(s2.heap@[s0.heap@.len() as int] == s1.heap@[s0.heap@.len() as int]);
    assert(s1.heap@[s0.heap@.len() as int] == s1.heap@.last());
}

/// A qualified type key determines its parts: for dot-free module names,
/// equal keys mean equal module and equal type name. Only code instantiated
/// for a type ever builds that type's key, and no other module can collide
/// with it.
pub proof fn lemma_qualified_key_injective(
    m1: Seq<char>,
    t1: Seq<char>,
    m2: Seq<char>,
    t2: Seq<char>,
)
    requires
        !crate::api::has_dot(m1),
        !crate::api::has_dot(m2),
        crate::context::qualified_key(m1, t1) == crate::context::qualified_key(m2, t2),
    ensures
        m1 == m2,
        t1 == t2,
{
    let d = seq!['.'];
    let k1 = crate::context::qualified_key(m1, t1);
    let k2 = crate::context::qualified_key(m2, t2);
    assert(k1 == (m1 + d) + t1);
    assert(k2 == (m2 + d) + t2);
    assert((m1 + d).len() == m1.len() + 1);
    assert((m2 + d).len() == m2.len() + 1);
    if m1.len() < m2.len() {
        assert(k2[m1.len() as int] == (m2 + d)[m1.len() as int]);
        assert(k2[m1.len() as int] == m2[m1.len() as int]);
        assert(k1[m1.len() as int] == (m1 + d)[m1.len() as int]);
        assert(k1[m1.len() as int] == d[0]);
        assert(false);
    }
    if m2.len() < m1.len() {
        assert(k1[m2.len() as int] == (m1 + d)[m2.len() as int]);
        assert(k1[m2.len() as int] == m1[m2.len() as int]);
        assert(k2[m2.len() as int] == (m2 + d)[m2.len() as int]);
        assert(k2[m2.len() as int] == d[0]);
        assert(false);
    }
    assert(m1 =~= m2) by {
        assert forall|i: int| 0 <= i < m1.len() implies m1[i] == m2[i] by {
            assert(k1[i] == (m1 + d)[i]);
            assert(k2[i] == (m2 + d)[i]);
        }
    }
    assert(t1 =~= t2) by {
        assert(t1.len() == t2.len());
        assert forall|i: int| 0 <= i < t1.len() implies t1[i] == t2[i] by {
            assert(k1[m1.len() + 1 + i] == t1[i]);
            assert(k2[m2.len() + 1 + i] == t2[i]);
        }
    }
}

} // verus!
