//! The typing rules of the intermediate representation, and the
//! invariants of the function store.
//!
//! Every expression the compiler emits is well-typed: its `ty` field
//! is the type the rules assign to its instruction, every local
//! variable it reads is bound by exactly one binding along its
//! evaluation path, and every call it makes targets a store entry
//! that promises the call's type.

use vstd::prelude::*;
use crate::ast::BodyItem;
use crate::id::{IdItem, TypeId};
use crate::mir::{CustomInstructionCode, Instruction, StaticExpression};
use crate::modules::Module;
use crate::project::mm_lookup;
use crate::store::{info_args, info_ret, FunctionInfo};
use crate::types::{type_name_find, BuildinTypeId, Type};
use crate::value::{Int, Value};

verus! {

/// The type of a literal value; a bare void carries no type.
pub open spec fn const_ty(v: Value, bt: BuildinTypeId) -> Option<TypeId> {
    match v {
        Value::Void => None,
        Value::Bool(_) => Some(bt.bool_id),
        Value::Int(i) => Some(
            match i {
                Int::Int64(_) => bt.int_id,
                Int::Int32(_) => bt.int32_id,
                Int::Int16(_) => bt.int16_id,
                Int::Int8(_) => bt.int8_id,
                Int::Uint64(_) => bt.uint_id,
                Int::Uint32(_) => bt.uint32_id,
                Int::Uint16(_) => bt.uint16_id,
                Int::Uint8(_) => bt.uint8_id,
            },
        ),
        Value::Float(_) => Some(bt.float_id),
        Value::String(_) => Some(bt.string_id),
    }
}

/// The types of a list of typed expressions.
pub open spec fn tys_of(args: Seq<StaticExpression>) -> Seq<TypeId> {
    args.map_values(|a: StaticExpression| a.ty)
}

/// The typing rule of a built-in opcode: which argument types it
/// admits and which result type it produces.
pub open spec fn custom_ok(
    code: CustomInstructionCode,
    arg_tys: Seq<TypeId>,
    ty: TypeId,
    bt: BuildinTypeId,
) -> bool {
    match code {
        CustomInstructionCode::StrConcat => {
            &&& forall|i: int| 0 <= i < arg_tys.len() ==> #[trigger] arg_tys[i] == bt.string_id
            &&& ty == bt.string_id
        },
        CustomInstructionCode::Print => {
            &&& forall|i: int| 0 <= i < arg_tys.len() ==> #[trigger] arg_tys[i] == bt.string_id
            &&& ty == bt.uint_id
        },
        CustomInstructionCode::Readline => {
            &&& arg_tys.len() <= 1
            &&& forall|i: int| 0 <= i < arg_tys.len() ==> #[trigger] arg_tys[i] == bt.string_id
            &&& ty == bt.string_id
        },
        CustomInstructionCode::Identity => {
            &&& arg_tys.len() == 1
            &&& ty == arg_tys[0]
        },
    }
}

/// Well-typedness of an expression under an environment mapping the
/// live slots to their types, against a function store.
pub open spec fn expr_wf(
    e: StaticExpression,
    env: Map<int, TypeId>,
    fs: Seq<(((Seq<Seq<char>>, u16, IdItem), Seq<TypeId>), FunctionInfo)>,
    bt: BuildinTypeId,
) -> bool
    decreases e,
{
    instr_wf(*e.instr, e.ty, env, fs, bt)
}

pub open spec fn exprs_wf(
    args: Seq<StaticExpression>,
    env: Map<int, TypeId>,
    fs: Seq<(((Seq<Seq<char>>, u16, IdItem), Seq<TypeId>), FunctionInfo)>,
    bt: BuildinTypeId,
) -> bool
    decreases args,
{
    forall|i: int| 0 <= i < args.len() ==> expr_wf(#[trigger] args[i], env, fs, bt)
}

pub open spec fn instr_wf(
    instr: Instruction,
    ty: TypeId,
    env: Map<int, TypeId>,
    fs: Seq<(((Seq<Seq<char>>, u16, IdItem), Seq<TypeId>), FunctionInfo)>,
    bt: BuildinTypeId,
) -> bool
    decreases instr,
{
    match instr {
        Instruction::Const(v) => const_ty(v, bt) == Some(ty),
        Instruction::GetLocalVar(slot) => env.contains_key(slot as int) && env[slot as int] == ty,
        Instruction::NewLocalVar { var_index, var_value, body } => {
            &&& expr_wf(var_value, env, fs, bt)
            &&& !env.contains_key(var_index as int)
            &&& expr_wf(body, env.insert(var_index as int, var_value.ty), fs, bt)
            &&& ty == body.ty
        },
        Instruction::FunctionCall { func, args } => {
            &&& exprs_wf(args@, env, fs, bt)
            &&& func < fs.len()
            &&& info_args(fs[func as int].1) == tys_of(args@)
            &&& info_ret(fs[func as int].1) == Some(ty)
        },
        Instruction::Custom { code, args } => {
            &&& exprs_wf(args@, env, fs, bt)
            &&& custom_ok(code, tys_of(args@), ty, bt)
        },
        Instruction::IfExpr { condition, case_true, case_false } => {
            &&& expr_wf(condition, env, fs, bt)
            &&& condition.ty == bt.bool_id
            &&& expr_wf(case_true, env, fs, bt)
            &&& expr_wf(case_false, env, fs, bt)
            &&& case_true.ty == ty
            &&& case_false.ty == ty
        },
    }
}

/// The environment of a function body: slot `i` holds the `i`-th
/// argument.
pub open spec fn env_of_args(args: Seq<TypeId>) -> Map<int, TypeId> {
    Map::new(|i: int| 0 <= i < args.len(), |i: int| args[i])
}

/// A store entry is well-formed once complete: its body is well-typed
/// under its argument environment.
pub open spec fn entry_wf(
    e: (((Seq<Seq<char>>, u16, IdItem), Seq<TypeId>), FunctionInfo),
    fs: Seq<(((Seq<Seq<char>>, u16, IdItem), Seq<TypeId>), FunctionInfo)>,
    bt: BuildinTypeId,
) -> bool {
    match e.1 {
        FunctionInfo::Partial { .. } => true,
        FunctionInfo::Complete { args, body } => expr_wf(body, env_of_args(args@), fs, bt),
    }
}

/// Every complete entry of the store holds a well-typed body.
pub open spec fn store_wf(
    fs: Seq<(((Seq<Seq<char>>, u16, IdItem), Seq<TypeId>), FunctionInfo)>,
    bt: BuildinTypeId,
) -> bool {
    forall|i: int| 0 <= i < fs.len() ==> entry_wf(#[trigger] fs[i], fs, bt)
}

// ---------------------------------------------------------------------
// Store evolution

/// A record may only keep its argument types, and may turn a promised
/// return type into the same settled one.
pub open spec fn info_refines(n: FunctionInfo, o: FunctionInfo) -> bool {
    &&& info_args(n) == info_args(o)
    &&& (info_ret(o) is Some ==> info_ret(n) == info_ret(o))
}

/// The store only grows, and settled promises stay.
pub open spec fn fs_refines(
    n: Seq<(((Seq<Seq<char>>, u16, IdItem), Seq<TypeId>), FunctionInfo)>,
    o: Seq<(((Seq<Seq<char>>, u16, IdItem), Seq<TypeId>), FunctionInfo)>,
) -> bool {
    &&& n.len() >= o.len()
    &&& forall|i: int|
        0 <= i < o.len() ==> (#[trigger] n[i]).0 == o[i].0 && info_refines(n[i].1, o[i].1)
}

/// The store grew without touching existing entries.
pub open spec fn fs_extends(
    n: Seq<(((Seq<Seq<char>>, u16, IdItem), Seq<TypeId>), FunctionInfo)>,
    o: Seq<(((Seq<Seq<char>>, u16, IdItem), Seq<TypeId>), FunctionInfo)>,
) -> bool {
    &&& n.len() >= o.len()
    &&& forall|i: int| 0 <= i < o.len() ==> #[trigger] n[i] == o[i]
}

pub proof fn lemma_fs_extends_refines(
    n: Seq<(((Seq<Seq<char>>, u16, IdItem), Seq<TypeId>), FunctionInfo)>,
    o: Seq<(((Seq<Seq<char>>, u16, IdItem), Seq<TypeId>), FunctionInfo)>,
)
    requires
        fs_extends(n, o),
    ensures
        fs_refines(n, o),
{
}

/// Well-typedness only depends on the promises of the store, so it
/// survives any refinement of the store.
pub proof fn lemma_expr_wf_refines(
    e: StaticExpression,
    env: Map<int, TypeId>,
    fs1: Seq<(((Seq<Seq<char>>, u16, IdItem), Seq<TypeId>), FunctionInfo)>,
    fs2: Seq<(((Seq<Seq<char>>, u16, IdItem), Seq<TypeId>), FunctionInfo)>,
    bt: BuildinTypeId,
)
    requires
        expr_wf(e, env, fs1, bt),
        fs_refines(fs2, fs1),
    ensures
        expr_wf(e, env, fs2, bt),
    decreases e,
{
    lemma_instr_wf_refines(*e.instr, e.ty, env, fs1, fs2, bt);
}

proof fn lemma_instr_wf_refines(
    instr: Instruction,
    ty: TypeId,
    env: Map<int, TypeId>,
    fs1: Seq<(((Seq<Seq<char>>, u16, IdItem), Seq<TypeId>), FunctionInfo)>,
    fs2: Seq<(((Seq<Seq<char>>, u16, IdItem), Seq<TypeId>), FunctionInfo)>,
    bt: BuildinTypeId,
)
    requires
        instr_wf(instr, ty, env, fs1, bt),
        fs_refines(fs2, fs1),
    ensures
        instr_wf(instr, ty, env, fs2, bt),
    decreases instr,
{
    match instr {
        Instruction::Const(_) => {},
        Instruction::GetLocalVar(_) => {},
        Instruction::NewLocalVar { var_index, var_value, body } => {
            lemma_expr_wf_refines(var_value, env, fs1, fs2, bt);
            lemma_expr_wf_refines(body, env.insert(var_index as int, var_value.ty), fs1, fs2, bt);
        },
        Instruction::FunctionCall { func, args } => {
            assert forall|i: int| 0 <= i < args@.len() implies expr_wf(
                #[trigger] args@[i],
                env,
                fs2,
                bt,
            ) by {
                lemma_expr_wf_refines(args@[i], env, fs1, fs2, bt);
            }
            assert(info_args(fs2[func as int].1) == info_args(fs1[func as int].1));
        },
        Instruction::Custom { code, args } => {
            assert forall|i: int| 0 <= i < args@.len() implies expr_wf(
                #[trigger] args@[i],
                env,
                fs2,
                bt,
            ) by {
                lemma_expr_wf_refines(args@[i], env, fs1, fs2, bt);
            }
        },
        Instruction::IfExpr { condition, case_true, case_false } => {
            lemma_expr_wf_refines(condition, env, fs1, fs2, bt);
            lemma_expr_wf_refines(case_true, env, fs1, fs2, bt);
            lemma_expr_wf_refines(case_false, env, fs1, fs2, bt);
        },
    }
}

/// A whole store stays well-formed under refinement of the promises
/// it is judged against.
pub proof fn lemma_store_wf_refines(
    fs1: Seq<(((Seq<Seq<char>>, u16, IdItem), Seq<TypeId>), FunctionInfo)>,
    fs2: Seq<(((Seq<Seq<char>>, u16, IdItem), Seq<TypeId>), FunctionInfo)>,
    bt: BuildinTypeId,
)
    requires
        store_wf(fs1, bt),
        fs_refines(fs2, fs1),
        forall|i: int|
            fs1.len() <= i < fs2.len() ==> match (#[trigger] fs2[i]).1 {
                FunctionInfo::Partial { .. } => true,
                FunctionInfo::Complete { args, body } => expr_wf(
                    body,
                    env_of_args(args@),
                    fs2,
                    bt,
                ),
            },
        forall|i: int|
            0 <= i < fs1.len() ==> match (#[trigger] fs2[i]).1 {
                FunctionInfo::Partial { .. } => true,
                FunctionInfo::Complete { args, body } => match fs1[i].1 {
                    FunctionInfo::Complete { args: a0, body: b0 } => args == a0 && body == b0,
                    FunctionInfo::Partial { .. } => expr_wf(body, env_of_args(args@), fs2, bt),
                },
            },
    ensures
        store_wf(fs2, bt),
{
    assert forall|i: int| 0 <= i < fs2.len() implies entry_wf(#[trigger] fs2[i], fs2, bt) by {
        if i < fs1.len() {
            match fs2[i].1 {
                FunctionInfo::Partial { .. } => {},
                FunctionInfo::Complete { args, body } => {
                    match fs1[i].1 {
                        FunctionInfo::Complete { args: a0, body: b0 } => {
                            assert(entry_wf(fs1[i], fs1, bt));
                            lemma_expr_wf_refines(b0, env_of_args(a0@), fs1, fs2, bt);
                        },
                        FunctionInfo::Partial { .. } => {},
                    }
                },
            }
        }
    }
}

// ---------------------------------------------------------------------
// Declared return types

/// The item a symbol id denotes inside the module table, if valid.
pub open spec fn symbol_item(
    mi: Seq<(Seq<Seq<char>>, Module)>,
    sid: (Seq<Seq<char>>, u16, IdItem),
) -> Option<BodyItem> {
    match mm_lookup(mi, sid.0) {
        Some(m) => if sid.1 < m.files@.len() {
            let f = m.files@[sid.1 as int];
            match sid.2 {
                IdItem::Func(i) => if i < f.ast.items@.len() {
                    Some(f.ast.items@[i as int])
                } else {
                    None
                },
                IdItem::GlobalVar(i) => if i < f.ast.items@.len() {
                    Some(f.ast.items@[i as int])
                } else {
                    None
                },
                IdItem::Type(i) => if i < f.ast.items@.len() {
                    Some(f.ast.items@[i as int])
                } else {
                    None
                },
                IdItem::Method(_, _) => None,
            }
        } else {
            None
        },
        None => None,
    }
}

/// The name of the file a symbol id lives in, when valid.
pub open spec fn symbol_filename(
    mi: Seq<(Seq<Seq<char>>, Module)>,
    sid: (Seq<Seq<char>>, u16, IdItem),
) -> Seq<char> {
    match mm_lookup(mi, sid.0) {
        Some(m) => if sid.1 < m.files@.len() {
            m.files@[sid.1 as int].filename@
        } else {
            Seq::<char>::empty()
        },
        None => Seq::<char>::empty(),
    }
}

/// The declared return type of a function symbol, as resolved in the
/// type store; nothing when no declaration resolves.
pub open spec fn decl_ret_of(
    item: Option<BodyItem>,
    ts: Seq<(((Seq<Seq<char>>, u16, IdItem), Seq<TypeId>), Type)>,
) -> Option<TypeId> {
    match item {
        Some(BodyItem::Function(f)) => match f.ret_type {
            Some(name) => match type_name_find(ts, name@) {
                Some(i) => Some(i as TypeId),
                None => None,
            },
            None => None,
        },
        _ => None,
    }
}

/// Every store entry honours the return type its source declares:
/// when the declaration resolves, the entry promises exactly it.
pub open spec fn store_decls_ok(
    fs: Seq<(((Seq<Seq<char>>, u16, IdItem), Seq<TypeId>), FunctionInfo)>,
    mi: Seq<(Seq<Seq<char>>, Module)>,
    ts: Seq<(((Seq<Seq<char>>, u16, IdItem), Seq<TypeId>), Type)>,
) -> bool {
    forall|i: int|
        0 <= i < fs.len() ==> match decl_ret_of(symbol_item(mi, (#[trigger] fs[i]).0.0), ts) {
            Some(t) => info_ret(fs[i].1) == Some(t),
            None => true,
        }
}

/// Declared return types are honoured by every complete body: its
/// type is the declared one.  This is the store-level reading of the
/// check made when a function is completed.
pub proof fn lemma_complete_body_matches_decl(
    fs: Seq<(((Seq<Seq<char>>, u16, IdItem), Seq<TypeId>), FunctionInfo)>,
    mi: Seq<(Seq<Seq<char>>, Module)>,
    ts: Seq<(((Seq<Seq<char>>, u16, IdItem), Seq<TypeId>), Type)>,
    i: int,
    t: TypeId,
)
    requires
        store_decls_ok(fs, mi, ts),
        0 <= i < fs.len(),
        fs[i].1 is Complete,
        decl_ret_of(symbol_item(mi, fs[i].0.0), ts) == Some(t),
    ensures
        fs[i].1->Complete_body.ty == t,
{
    assert(info_ret(fs[i].1) == Some(t));
}

// ---------------------------------------------------------------------
// Complete stores

/// No reservation is left open.
pub open spec fn all_complete(
    fs: Seq<(((Seq<Seq<char>>, u16, IdItem), Seq<TypeId>), FunctionInfo)>,
) -> bool {
    forall|i: int| 0 <= i < fs.len() ==> (#[trigger] fs[i]).1 is Complete
}

/// In a well-formed store without open reservations, every call in
/// every body targets a complete entry of the store.
pub proof fn lemma_calls_hit_complete(
    e: StaticExpression,
    env: Map<int, TypeId>,
    fs: Seq<(((Seq<Seq<char>>, u16, IdItem), Seq<TypeId>), FunctionInfo)>,
    bt: BuildinTypeId,
)
    requires
        expr_wf(e, env, fs, bt),
        all_complete(fs),
    ensures
        *e.instr matches Instruction::FunctionCall { func, .. } ==> func < fs.len() && fs[
            (*e.instr)->FunctionCall_func as int
        ].1 is Complete,
{
}


// ---------------------------------------------------------------------
// Scope environments

/// The environment a scope stack denotes: each binding maps its slot
/// to its type, the innermost binding winning.
pub open spec fn scope_env(s: Seq<(Seq<char>, TypeId, u16)>) -> Map<int, TypeId>
    decreases s.len(),
{
    if s.len() == 0 {
        Map::<int, TypeId>::empty()
    } else {
        scope_env(s.drop_last()).insert(s.last().2 as int, s.last().1)
    }
}

/// A successful scope lookup is reflected in the environment.
pub proof fn lemma_scope_env_lookup(s: Seq<(Seq<char>, TypeId, u16)>, name: Seq<char>)
    requires
        forall|i: int, j: int| 0 <= i < j < s.len() ==> (#[trigger] s[i]).2 < (#[trigger] s[j]).2,
    ensures
        crate::scope::scope_lookup(s, name) matches Some(p) ==> scope_env(s).contains_key(
            p.1 as int,
        ) && scope_env(s)[p.1 as int] == p.0,
    decreases s.len(),
{
    if s.len() > 0 && s.last().0 != name {
        let t = s.drop_last();
        lemma_scope_env_lookup(t, name);
        match crate::scope::scope_lookup(t, name) {
            Some(p) => {
                lemma_scope_lookup_slot(t, name);
                assert(p.1 < s.last().2);
            },
            None => {},
        }
    }
}

/// A lookup returns the slot and type of one of the bindings.
pub proof fn lemma_scope_lookup_slot(s: Seq<(Seq<char>, TypeId, u16)>, name: Seq<char>)
    ensures
        crate::scope::scope_lookup(s, name) matches Some(p) ==> exists|i: int|
            0 <= i < s.len() && (#[trigger] s[i]).1 == p.0 && s[i].2 == p.1,
    decreases s.len(),
{
    if s.len() > 0 {
        if s.last().0 == name {
            let p = crate::scope::scope_lookup(s, name).unwrap();
            assert(s[s.len() - 1].1 == p.0 && s[s.len() - 1].2 == p.1);
        } else {
            lemma_scope_lookup_slot(s.drop_last(), name);
            match crate::scope::scope_lookup(s.drop_last(), name) {
                Some(p) => {
                    let i = choose|i: int|
                        0 <= i < s.drop_last().len() && (#[trigger] s.drop_last()[i]).1 == p.0
                            && s.drop_last()[i].2 == p.1;
                    assert(s[i].1 == p.0 && s[i].2 == p.1);
                },
                None => {},
            }
        }
    }
}

/// Extend an environment with a run of bindings: slot and type, in
/// order.
pub open spec fn env_push_binds(env: Map<int, TypeId>, binds: Seq<(u16, TypeId)>) -> Map<int, TypeId>
    decreases binds.len(),
{
    if binds.len() == 0 {
        env
    } else {
        env_push_binds(env, binds.drop_last()).insert(binds.last().0 as int, binds.last().1)
    }
}

/// What is bound in an extended environment.
pub proof fn lemma_env_push_binds_dom(env: Map<int, TypeId>, binds: Seq<(u16, TypeId)>, k: int)
    ensures
        env_push_binds(env, binds).contains_key(k) <==> (env.contains_key(k) || exists|j: int|
            0 <= j < binds.len() && (#[trigger] binds[j]).0 == k),
    decreases binds.len(),
{
    if binds.len() > 0 {
        lemma_env_push_binds_dom(env, binds.drop_last(), k);
        if binds.last().0 == k {
            assert(binds[binds.len() - 1].0 == k);
        } else {
            if exists|j: int| 0 <= j < binds.drop_last().len() && (#[trigger] binds.drop_last()[j]).0 == k {
                let j = choose|j: int|
                    0 <= j < binds.drop_last().len() && (#[trigger] binds.drop_last()[j]).0 == k;
                assert(binds[j].0 == k);
            }
            if exists|j: int| 0 <= j < binds.len() && (#[trigger] binds[j]).0 == k {
                let j = choose|j: int| 0 <= j < binds.len() && (#[trigger] binds[j]).0 == k;
                assert(binds.drop_last()[j].0 == k);
            }
        }
    }
}

// ---------------------------------------------------------------------
// The combined store invariant

/// The invariant the compiler maintains on the function store: every
/// complete body is well-typed, every entry honours the return type
/// its source declares, and every entry's argument types repeat its
/// key.
pub open spec fn store_ok(
    fs: Seq<(((Seq<Seq<char>>, u16, IdItem), Seq<TypeId>), FunctionInfo)>,
    mi: Seq<(Seq<Seq<char>>, Module)>,
    ts: Seq<(((Seq<Seq<char>>, u16, IdItem), Seq<TypeId>), Type)>,
    bt: BuildinTypeId,
) -> bool {
    &&& store_wf(fs, bt)
    &&& store_decls_ok(fs, mi, ts)
    &&& forall|i: int| 0 <= i < fs.len() ==> info_args((#[trigger] fs[i]).1) == fs[i].0.1
}


/// The slot-and-type image of a list of compiled bindings.
pub open spec fn binds_of(l: Seq<(u16, StaticExpression)>) -> Seq<(u16, TypeId)> {
    l.map_values(|p: (u16, StaticExpression)| (p.0, p.1.ty))
}

/// Entries added to the store beyond a point are all complete.
pub open spec fn new_entries_complete(
    n: Seq<(((Seq<Seq<char>>, u16, IdItem), Seq<TypeId>), FunctionInfo)>,
    o: Seq<(((Seq<Seq<char>>, u16, IdItem), Seq<TypeId>), FunctionInfo)>,
) -> bool {
    forall|i: int| o.len() <= i < n.len() ==> (#[trigger] n[i]).1 is Complete
}

pub proof fn lemma_new_entries_complete_trans(
    a: Seq<(((Seq<Seq<char>>, u16, IdItem), Seq<TypeId>), FunctionInfo)>,
    b: Seq<(((Seq<Seq<char>>, u16, IdItem), Seq<TypeId>), FunctionInfo)>,
    c: Seq<(((Seq<Seq<char>>, u16, IdItem), Seq<TypeId>), FunctionInfo)>,
)
    requires
        fs_extends(b, a),
        fs_extends(c, b),
        new_entries_complete(b, a),
        new_entries_complete(c, b),
    ensures
        new_entries_complete(c, a),
{
    assert forall|i: int| a.len() <= i < c.len() implies (#[trigger] c[i]).1 is Complete by {
        if i < b.len() {
            assert(c[i] == b[i]);
        }
    }
}

pub proof fn lemma_fs_extends_trans(
    a: Seq<(((Seq<Seq<char>>, u16, IdItem), Seq<TypeId>), FunctionInfo)>,
    b: Seq<(((Seq<Seq<char>>, u16, IdItem), Seq<TypeId>), FunctionInfo)>,
    c: Seq<(((Seq<Seq<char>>, u16, IdItem), Seq<TypeId>), FunctionInfo)>,
)
    requires
        fs_extends(c, b),
        fs_extends(b, a),
    ensures
        fs_extends(c, a),
{
}

/// Every key of a scope environment is the slot of some binding.
pub proof fn lemma_scope_env_dom_exists(s: Seq<(Seq<char>, TypeId, u16)>, k: int)
    requires
        scope_env(s).contains_key(k),
    ensures
        exists|i: int| 0 <= i < s.len() && (#[trigger] s[i]).2 == k,
    decreases s.len(),
{
    if s.len() > 0 {
        if s.last().2 == k {
            assert(s[s.len() - 1].2 == k);
        } else {
            lemma_scope_env_dom_exists(s.drop_last(), k);
            let i = choose|i: int| 0 <= i < s.drop_last().len() && (#[trigger] s.drop_last()[i]).2 == k;
            assert(s[i].2 == k);
        }
    }
}


// ---------------------------------------------------------------------
// Laws of the store and of well-typed expressions

/// Every complete body of a well-formed store is well-typed under the
/// environment of its own argument types: the `ty` of each of its
/// nodes is the type the rules assign to its instruction.
pub proof fn lemma_store_bodies_well_typed(
    fs: Seq<(((Seq<Seq<char>>, u16, IdItem), Seq<TypeId>), FunctionInfo)>,
    bt: BuildinTypeId,
    i: int,
)
    requires
        store_wf(fs, bt),
        0 <= i < fs.len(),
        fs[i].1 is Complete,
    ensures
        expr_wf(fs[i].1->Complete_body, env_of_args(fs[i].1->Complete_args@), fs, bt),
{
    assert(entry_wf(fs[i], fs, bt));
}

/// In a well-typed expression, a binding introduces a slot that no
/// enclosing binding along the evaluation path uses: the environment
/// reaching it never contains the slot, and its body is judged under
/// the environment extended with exactly this one binding.
pub proof fn lemma_binding_slot_fresh(
    e: StaticExpression,
    env: Map<int, TypeId>,
    fs: Seq<(((Seq<Seq<char>>, u16, IdItem), Seq<TypeId>), FunctionInfo)>,
    bt: BuildinTypeId,
)
    requires
        expr_wf(e, env, fs, bt),
        *e.instr is NewLocalVar,
    ensures
        !env.contains_key((*e.instr)->NewLocalVar_var_index as int),
        expr_wf(
            (*e.instr)->NewLocalVar_body,
            env.insert(
                (*e.instr)->NewLocalVar_var_index as int,
                (*e.instr)->NewLocalVar_var_value.ty,
            ),
            fs,
            bt,
        ),
{
}

/// A store that grew from a fully complete store only by complete
/// entries is itself fully complete: no reservation is ever left
/// behind by a successful compilation.
pub proof fn lemma_no_partials_left(
    n: Seq<(((Seq<Seq<char>>, u16, IdItem), Seq<TypeId>), FunctionInfo)>,
    o: Seq<(((Seq<Seq<char>>, u16, IdItem), Seq<TypeId>), FunctionInfo)>,
)
    requires
        fs_extends(n, o),
        new_entries_complete(n, o),
        all_complete(o),
    ensures
        all_complete(n),
{
    assert forall|i: int| 0 <= i < n.len() implies (#[trigger] n[i]).1 is Complete by {
        if i < o.len() {
            assert(n[i] == o[i]);
        }
    }
}

} // verus!
