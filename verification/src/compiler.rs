//! The compiler: a recursive, type-directed builder of intermediate
//! representation over the syntax tree, memoizing every compiled
//! specialization in the function store.

use vstd::prelude::*;
use vstd::string::StringExecFns;
use crate::ast::{AstValue, BodyItem, Expression, FullExpression, FunctionCallExpr, Literal};
use crate::error::CompilationError;
use crate::id::{
    clone_path, ssid_view, symbol_id_view, FunctionId, IdItem, IdPath, Symbol, SymbolId, TypeId,
    SSID,
};
use crate::mir::{CustomInstructionCode, Instruction, StaticExpression};
use crate::modules::{module_hits, FindError, Module, SymbolResolver, key_paths};
use crate::project::{mm_lookup, ModuleMap, ProjectInfo};
use crate::scope::{scope_lookup, Scope};
use crate::store::{fs_find, info_args, info_ret, FunctionInfo, FunctionStore};
use crate::types::{type_name_find, BuildinTypeId, TypeStore};
use crate::typing::{
    binds_of, const_ty, custom_ok, env_of_args, env_push_binds, expr_wf, exprs_wf, fs_extends,
    fs_refines, instr_wf, lemma_env_push_binds_dom, lemma_expr_wf_refines,
    lemma_fs_extends_refines, lemma_fs_extends_trans, lemma_new_entries_complete_trans,
    lemma_scope_env_dom_exists, lemma_scope_env_lookup,
    lemma_store_wf_refines, new_entries_complete, scope_env, store_ok, store_wf, tys_of,
};
use crate::util::{eval_int, str_bytes};
use crate::value::Value;

verus! {

// ---------------------------------------------------------------------
// Diagnostics helpers

/// The name a type id resolves to in the store, for diagnostics.
pub open spec fn spec_type_name(
    ts: Seq<(((Seq<Seq<char>>, u16, IdItem), Seq<TypeId>), crate::types::Type)>,
    id: TypeId,
) -> Seq<char> {
    if id < ts.len() {
        ts[id as int].1.info_name@
    } else {
        "unknown"@
    }
}

/// Look up the name of a type for an error message.
fn type_name_of(ts: &TypeStore, id: TypeId) -> (r: String)
    ensures
        r@ == spec_type_name(ts@, id),
{
    match ts.get_by_index(id) {
        Some(t) => t.info_name.clone(),
        None => "unknown".to_owned(),
    }
}

// ---------------------------------------------------------------------
// Built-in dispatch

/// First argument whose type is not the wanted one.
pub open spec fn first_wrong_ty(args: Seq<StaticExpression>, wanted: TypeId) -> Option<int>
    decreases args.len(),
{
    if args.len() == 0 {
        None
    } else if args[0].ty != wanted {
        Some(0int)
    } else {
        match first_wrong_ty(args.drop_first(), wanted) {
            Some(i) => Some(i + 1),
            None => None,
        }
    }
}

proof fn lemma_first_wrong_ty(args: Seq<StaticExpression>, wanted: TypeId, i: int)
    requires
        0 <= i <= args.len(),
        forall|j: int| 0 <= j < i ==> (#[trigger] args[j]).ty == wanted,
        i < args.len() ==> args[i].ty != wanted,
    ensures
        i == args.len() ==> first_wrong_ty(args, wanted) is None,
        i < args.len() ==> first_wrong_ty(args, wanted) == Some(i),
    decreases args.len(),
{
    if args.len() == 0 {
    } else if args[0].ty != wanted {
        assert(i == 0);
    } else {
        assert(i >= 1);
        let t = args.drop_first();
        assert(forall|j: int| 0 <= j < i - 1 ==> (#[trigger] t[j]).ty == wanted);
        lemma_first_wrong_ty(t, wanted, i - 1);
    }
}

/// Check that every argument has the wanted type; the first offender
/// yields a type error naming both types.
fn assert_type_ids(
    ts: &TypeStore,
    args: &Vec<StaticExpression>,
    wanted_id: TypeId,
    wanted: &str,
) -> (r: Result<(), CompilationError>)
    ensures
        match r {
            Ok(_) => forall|j: int| 0 <= j < args@.len() ==> (#[trigger] args@[j]).ty == wanted_id,
            Err(e) => {
                &&& first_wrong_ty(args@, wanted_id) matches Some(i) && 0 <= i < args@.len()
                &&& args@[first_wrong_ty(args@, wanted_id).unwrap()].ty != wanted_id
                &&& e matches CompilationError::TypeError { got, wanted: w } && got@
                    == spec_type_name(ts@, args@[first_wrong_ty(args@, wanted_id).unwrap()].ty)
                    && w@ == wanted@
            },
        },
{
    let n = args.len();
    let mut i: usize = 0;
    while i < n
        invariant
            n == args@.len(),
            i <= n,
            forall|j: int| 0 <= j < i ==> (#[trigger] args@[j]).ty == wanted_id,
        decreases n - i,
    {
        if args[i].ty != wanted_id {
            proof {
                lemma_first_wrong_ty(args@, wanted_id, i as int);
            }
            let typename = type_name_of(ts, args[i].ty);
            return Err(CompilationError::TypeError { got: typename, wanted: wanted.to_owned() });
        }
        i += 1;
    }
    proof {
        lemma_first_wrong_ty(args@, wanted_id, n as int);
    }
    Ok(())
}

/// All arguments carry this type.
pub open spec fn all_ty(args: Seq<StaticExpression>, wanted: TypeId) -> bool {
    forall|j: int| 0 <= j < args.len() ==> (#[trigger] args[j]).ty == wanted
}

/// The type error a list of arguments yields when one of them does
/// not carry the wanted type: `got` names the first offender's type
/// in the store, `wanted` names the wanted one.
pub open spec fn ty_error_names(
    e: CompilationError,
    ts: Seq<(((Seq<Seq<char>>, u16, IdItem), Seq<TypeId>), crate::types::Type)>,
    args: Seq<StaticExpression>,
    wanted_id: TypeId,
    wanted_name: Seq<char>,
) -> bool {
    &&& first_wrong_ty(args, wanted_id) matches Some(i) && 0 <= i < args.len()
    &&& e matches CompilationError::TypeError { got, wanted } && got@ == spec_type_name(
        ts,
        args[first_wrong_ty(args, wanted_id).unwrap()].ty,
    ) && wanted@ == wanted_name
}

/// String concatenation: any number of strings, yielding a string.
fn buildin_str_concat(
    bt: &BuildinTypeId,
    ts: &TypeStore,
    args: &Vec<StaticExpression>,
) -> (r: Result<(CustomInstructionCode, TypeId), CompilationError>)
    ensures
        match r {
            Ok(p) => all_ty(args@, bt.string_id) && p == (
                CustomInstructionCode::StrConcat,
                bt.string_id,
            ),
            Err(e) => !all_ty(args@, bt.string_id) && ty_error_names(
                e,
                ts@,
                args@,
                bt.string_id,
                "String"@,
            ),
        },
{
    match assert_type_ids(ts, args, bt.string_id, "String") {
        Ok(_) => Ok((CustomInstructionCode::StrConcat, bt.string_id)),
        Err(e) => {
            Err(e)
        },
    }
}

/// Printing: any number of strings, yielding an unsigned status.
fn buildin_print(
    bt: &BuildinTypeId,
    ts: &TypeStore,
    args: &Vec<StaticExpression>,
) -> (r: Result<(CustomInstructionCode, TypeId), CompilationError>)
    ensures
        match r {
            Ok(p) => all_ty(args@, bt.string_id) && p == (
                CustomInstructionCode::Print,
                bt.uint_id,
            ),
            Err(e) => !all_ty(args@, bt.string_id) && ty_error_names(
                e,
                ts@,
                args@,
                bt.string_id,
                "String"@,
            ),
        },
{
    match assert_type_ids(ts, args, bt.string_id, "String") {
        Ok(_) => Ok((CustomInstructionCode::Print, bt.uint_id)),
        Err(e) => {
            Err(e)
        },
    }
}

/// Identity: exactly one argument of any type, returned unchanged.
fn buildin_identity(args: &Vec<StaticExpression>) -> (r: Result<
    (CustomInstructionCode, TypeId),
    CompilationError,
>)
    ensures
        match r {
            Ok(p) => args@.len() == 1 && p == (CustomInstructionCode::Identity, args@[0].ty),
            Err(e) => args@.len() != 1 && e is WrongBuildin,
        },
{
    if args.len() != 1 {
        return Err(CompilationError::WrongBuildin {
            found: "& is only implemented with 1 argument".to_owned(),
        });
    }
    Ok((CustomInstructionCode::Identity, args[0].ty))
}

/// Reading a line: an optional string prompt, yielding a string.
fn buildin_readline(
    bt: &BuildinTypeId,
    ts: &TypeStore,
    args: &Vec<StaticExpression>,
) -> (r: Result<(CustomInstructionCode, TypeId), CompilationError>)
    ensures
        match r {
            Ok(p) => all_ty(args@, bt.string_id) && args@.len() <= 1 && p == (
                CustomInstructionCode::Readline,
                bt.string_id,
            ),
            Err(e) => {
                &&& !(all_ty(args@, bt.string_id) && args@.len() <= 1)
                &&& if all_ty(args@, bt.string_id) {
                    args@.len() > 1 && e is WrongBuildin
                } else {
                    ty_error_names(e, ts@, args@, bt.string_id, "String"@)
                }
            },
        },
{
    match assert_type_ids(ts, args, bt.string_id, "String") {
        Ok(_) => {},
        Err(e) => {
            return Err(e);
        },
    }
    if args.len() > 1 {
        return Err(CompilationError::WrongBuildin {
            found: "readline is only implemented for 0 or 1 (String) argument".to_owned(),
        });
    }
    Ok((CustomInstructionCode::Readline, bt.string_id))
}

/// Whether the byte run starts with `buildin_` or `Buildin_`.
pub open spec fn has_buildin_prefix(s: Seq<u8>) -> bool {
    &&& s.len() >= 8
    &&& (s[0] == 98 || s[0] == 66)
    &&& s[1] == 117
    &&& s[2] == 105
    &&& s[3] == 108
    &&& s[4] == 100
    &&& s[5] == 105
    &&& s[6] == 110
    &&& s[7] == 95
}

/// The opcode a built-in name selects, in either capitalization.
pub open spec fn buildin_kind(n: Seq<char>) -> Option<CustomInstructionCode> {
    if n == "buildin_str_concat"@ || n == "Buildin_str_concat"@ {
        Some(CustomInstructionCode::StrConcat)
    } else if n == "buildin_identity"@ || n == "Buildin_identity"@ {
        Some(CustomInstructionCode::Identity)
    } else if n == "buildin_readline"@ || n == "Buildin_readline"@ {
        Some(CustomInstructionCode::Readline)
    } else if n == "buildin_print"@ || n == "Buildin_print"@ {
        Some(CustomInstructionCode::Print)
    } else {
        None
    }
}

/// The typing rule a recognized built-in applies to the argument
/// types it was called with.
pub open spec fn buildin_result_ok(
    code: CustomInstructionCode,
    args: Seq<StaticExpression>,
    res: Result<(CustomInstructionCode, TypeId), CompilationError>,
    ts: Seq<(((Seq<Seq<char>>, u16, IdItem), Seq<TypeId>), crate::types::Type)>,
    bt: BuildinTypeId,
) -> bool {
    match code {
        CustomInstructionCode::StrConcat => match res {
            Ok(p) => all_ty(args, bt.string_id) && p == (
                CustomInstructionCode::StrConcat,
                bt.string_id,
            ),
            Err(e) => !all_ty(args, bt.string_id) && ty_error_names(
                e,
                ts,
                args,
                bt.string_id,
                "String"@,
            ),
        },
        CustomInstructionCode::Print => match res {
            Ok(p) => all_ty(args, bt.string_id) && p == (CustomInstructionCode::Print, bt.uint_id),
            Err(e) => !all_ty(args, bt.string_id) && ty_error_names(
                e,
                ts,
                args,
                bt.string_id,
                "String"@,
            ),
        },
        CustomInstructionCode::Readline => match res {
            Ok(p) => all_ty(args, bt.string_id) && args.len() <= 1 && p == (
                CustomInstructionCode::Readline,
                bt.string_id,
            ),
            Err(e) => !(all_ty(args, bt.string_id) && args.len() <= 1) && if all_ty(
                args,
                bt.string_id,
            ) {
                args.len() > 1 && e is WrongBuildin
            } else {
                ty_error_names(e, ts, args, bt.string_id, "String"@)
            },
        },
        CustomInstructionCode::Identity => match res {
            Ok(p) => args.len() == 1 && p == (CustomInstructionCode::Identity, args[0].ty),
            Err(e) => args.len() != 1 && e is WrongBuildin,
        },
    }
}

/// Check whether the call addresses a compiler built-in, and when it
/// does, apply that built-in's typing rule.  Built-in names start
/// with `buildin_` or `Buildin_`.
fn check_buildin_func(
    bt: &BuildinTypeId,
    ts: &TypeStore,
    func: &FunctionCallExpr,
    args: &Vec<StaticExpression>,
) -> (r: Option<Result<(CustomInstructionCode, TypeId), CompilationError>>)
    ensures
        match r {
            None => func.function_name@.len() != 1 || !has_buildin_prefix(
                str_bytes(func.function_name@[0]@),
            ),
            Some(inner) => {
                &&& func.function_name@.len() == 1
                &&& has_buildin_prefix(str_bytes(func.function_name@[0]@))
                &&& match buildin_kind(func.function_name@[0]@) {
                    Some(code) => buildin_result_ok(code, args@, inner, ts@, *bt),
                    None => inner matches Err(e) && e matches CompilationError::WrongBuildin {
                        found,
                    } && found@ == func.function_name@[0]@,
                }
            },
        },
{
    if func.function_name.len() != 1 {
        return None;
    }
    let fname = &func.function_name[0];
    let bytes: &[u8] = fname.as_str().as_bytes();
    let prefixed = bytes.len() >= 8 && (bytes[0] == 98 || bytes[0] == 66) && bytes[1] == 117
        && bytes[2] == 105 && bytes[3] == 108 && bytes[4] == 100 && bytes[5] == 105 && bytes[6]
        == 110 && bytes[7] == 95;
    proof {
        assert(bytes@ == str_bytes(fname@));
        assert(prefixed == has_buildin_prefix(str_bytes(func.function_name@[0]@)));
    }
    if !prefixed {
        return None;
    }
    let res = if *fname == "buildin_str_concat".to_owned() || *fname == "Buildin_str_concat".to_owned() {
        buildin_str_concat(bt, ts, args)
    } else if *fname == "buildin_identity".to_owned() || *fname == "Buildin_identity".to_owned() {
        buildin_identity(args)
    } else if *fname == "buildin_readline".to_owned() || *fname == "Buildin_readline".to_owned() {
        buildin_readline(bt, ts, args)
    } else if *fname == "buildin_print".to_owned() || *fname == "Buildin_print".to_owned() {
        buildin_print(bt, ts, args)
    } else {
        Err(CompilationError::WrongBuildin { found: fname.clone() })
    };
    Some(res)
}

// ---------------------------------------------------------------------
// Constants

/// How a compiled constant relates to its literal.
pub open spec fn const_matches(lit: Literal, e: StaticExpression, bt: BuildinTypeId) -> bool {
    &&& (*e.instr) matches Instruction::Const(v) && const_ty(v, bt) == Some(e.ty)
    &&& match lit {
        Literal::StringLiteral(s) => (*e.instr) matches Instruction::Const(
            Value::String(vs),
        ) && vs@ == s@ && e.ty == bt.string_id,
        Literal::Bool(b) => *e.instr == Instruction::Const(Value::Bool(b)) && e.ty == bt.bool_id,
        Literal::Int(il) => {
            let s = str_bytes(il.digits@);
            let suf = crate::util::effective_suffix(il.type_suffix);
            &&& (*e.instr) matches Instruction::Const(Value::Int(iv))
                && crate::util::int_variant_matches(iv, suf) && iv.as_int()
                == crate::util::int_lit_value(s, il.radix)
            &&& e.ty == crate::util::suffix_type_id(suf, bt)
        },
        Literal::Float(fl) => fl.bits matches Some(b) && *e.instr == Instruction::Const(
            Value::Float(b),
        ) && e.ty == bt.float_id,
    }
}

/// Whether a literal evaluates at all.
pub open spec fn const_ok(lit: Literal, bt: BuildinTypeId) -> bool {
    match lit {
        Literal::StringLiteral(_) => true,
        Literal::Bool(_) => true,
        Literal::Int(il) => crate::util::int_lit_ok(
            str_bytes(il.digits@),
            il.radix,
            crate::util::effective_suffix(il.type_suffix),
        ),
        Literal::Float(fl) => fl.bits is Some,
    }
}

/// Compile a literal into a typed constant.
fn compile_constant_value(lit: &Literal, bt: &BuildinTypeId) -> (r: Result<
    StaticExpression,
    CompilationError,
>)
    ensures
        match r {
            Ok(e) => const_ok(*lit, *bt) && const_matches(*lit, e, *bt),
            Err(e) => !const_ok(*lit, *bt) && match *lit {
                Literal::Int(il) => e matches CompilationError::IntConversion { literal }
                    && literal@ == il.digits@,
                Literal::Float(fl) => e matches CompilationError::FloatConversion { literal }
                    && literal@ == fl.text@,
                _ => false,
            },
        },
{
    match lit {
        Literal::StringLiteral(s) => Ok(
            Instruction::Const(Value::String(s.clone())).expr(bt.string_id),
        ),
        Literal::Bool(b) => Ok(Instruction::Const(Value::Bool(*b)).expr(bt.bool_id)),
        Literal::Int(il) => {
            let (iv, ty) = match eval_int(il, bt) {
                Ok(p) => p,
                Err(e) => {
                    return Err(e);
                },
            };
            Ok(Instruction::Const(Value::Int(iv)).expr(ty))
        },
        Literal::Float(fl) => match fl.bits {
            Some(b) => Ok(Instruction::Const(Value::Float(b)).expr(bt.float_id)),
            None => Err(CompilationError::FloatConversion { literal: fl.text.clone() }),
        },
    }
}

// ---------------------------------------------------------------------
// Symbol resolution

/// The global candidates an import list yields: each registered path,
/// extended with the remaining segments, is searched for the name.
/// Unknown modules and names without matches are skipped.
pub open spec fn import_candidates(
    mi: Seq<(Seq<Seq<char>>, Module)>,
    paths: Seq<Seq<Seq<char>>>,
    rest: Seq<Seq<char>>,
    name: Seq<char>,
) -> Seq<(Seq<Seq<char>>, u16, IdItem)>
    decreases paths.len(),
{
    if paths.len() == 0 {
        Seq::<(Seq<Seq<char>>, u16, IdItem)>::empty()
    } else {
        import_candidates(mi, paths.drop_last(), rest, name) + {
            let full = paths.last() + rest;
            match mm_lookup(mi, full) {
                Some(m2) => module_hits(m2.files@, name).map_values(
                    |h: (u16, IdItem)| (full, h.0, h.1),
                ),
                None => Seq::<(Seq<Seq<char>>, u16, IdItem)>::empty(),
            }
        }
    }
}

/// The candidates of a path under a lookup context: the local module
/// for a plain name, then every import under the first segment.
pub open spec fn resolve_candidates(
    mi: Seq<(Seq<Seq<char>>, Module)>,
    module: Module,
    idmodule: Seq<Seq<char>>,
    imports: Seq<(Seq<char>, Seq<Seq<char>>)>,
    path: Seq<Seq<char>>,
) -> Seq<(Seq<Seq<char>>, u16, IdItem)> {
    (if path.len() == 1 {
        module_hits(module.files@, path[0]).map_values(|h: (u16, IdItem)| (idmodule, h.0, h.1))
    } else {
        Seq::<(Seq<Seq<char>>, u16, IdItem)>::empty()
    }) + import_candidates(mi, key_paths(imports, path[0]), path.drop_first(), path[0])
}


/// Resolve a dotted path to its candidate symbols.  Local scope
/// shadows everything for a plain name; otherwise the local module
/// and every import registered under the first segment contribute
/// their matches, in table order.  Narrowing the candidates is the
/// caller's responsibility.
fn resolve_symbol(
    mi: &ModuleMap,
    path: &Vec<String>,
    module: &Module,
    idmodule: &IdPath,
    imports: &SymbolResolver,
    scope: &Scope,
) -> (r: Result<Vec<Symbol>, CompilationError>)
    requires
        mi.wf(),
        module.wf(),
        path@.len() > 0,
    ensures
        r matches Ok(v) && ({
            if path@.len() == 1 && scope_lookup(scope.entries(), path@[0]@) is Some {
                let p = scope_lookup(scope.entries(), path@[0]@).unwrap();
                &&& v@.len() == 1
                &&& v@[0] matches Symbol::LocalVar { addr, ty } && addr == p.1 && ty == p.0
            } else {
                let cands = resolve_candidates(
                    mi@,
                    *module,
                    idmodule.deep_view(),
                    imports.additions(),
                    path.deep_view(),
                );
                &&& v@.len() == cands.len()
                &&& forall|k: int|
                    0 <= k < v@.len() ==> ((#[trigger] v@[k]) matches Symbol::Global(sid)
                        && symbol_id_view(sid) == cands[k])
            }
        }),
{
    let ghost pdv = path.deep_view();
    proof {
        assert(pdv[0] == path@[0]@);
    }
    let name = &path[0];
    if path.len() == 1 {
        match scope.get(name) {
            Some((ty, addr)) => {
                let mut v: Vec<Symbol> = Vec::new();
                v.push(Symbol::LocalVar { addr, ty });
                return Ok(v);
            },
            None => {},
        }
    }
    let mut candidates: Vec<Symbol> = Vec::new();
    let ghost local_cands = if pdv.len() == 1 {
        module_hits(module.files@, pdv[0]).map_values(
            |h: (u16, IdItem)| (idmodule.deep_view(), h.0, h.1),
        )
    } else {
        Seq::<(Seq<Seq<char>>, u16, IdItem)>::empty()
    };
    if path.len() == 1 {
        match module.find(name, idmodule) {
            Ok(res) => {
                let nr = res.len();
                let mut i: usize = 0;
                while i < nr
                    invariant
                        nr == res@.len(),
                        i <= nr,
                        local_cands == module_hits(module.files@, pdv[0]).map_values(
                            |h: (u16, IdItem)| (idmodule.deep_view(), h.0, h.1),
                        ),
                        nr == local_cands.len(),
                        forall|k: int|
                            0 <= k < nr ==> {
                                &&& (#[trigger] res@[k]).0.deep_view() == idmodule.deep_view()
                                &&& res@[k].1 == local_cands[k].1
                                &&& res@[k].2 == local_cands[k].2
                            },
                        candidates@.len() == i,
                        forall|k: int|
                            0 <= k < i ==> ((#[trigger] candidates@[k]) matches Symbol::Global(
                                sid,
                            ) && symbol_id_view(sid) == local_cands[k]),
                    decreases nr - i,
                {
                    let sid = crate::id::clone_symbol_id(&res[i]);
                    candidates.push(Symbol::Global(sid));
                    i += 1;
                }
            },
            Err(_) => {
                proof {
                    assert(local_cands.len() == 0);
                }
            },
        }
    }
    proof {
        assert(candidates@.len() == local_cands.len());
    }
    let import_paths = imports.get(name);
    let ghost kp = key_paths(imports.additions(), pdv[0]);
    let ghost rest = pdv.drop_first();
    let np = import_paths.len();
    let mut p: usize = 0;
    proof {
        assert(import_candidates(mi@, kp.take(0), rest, pdv[0]) =~= Seq::<(Seq<Seq<char>>, u16, IdItem)>::empty());
    }
    while p < np
        invariant
            mi.wf(),
            np == import_paths@.len(),
            p <= np,
            import_paths.deep_view() =~= kp,
            np == kp.len(),
            pdv == path.deep_view(),
            pdv.len() > 0,
            pdv[0] == path@[0]@,
            rest == pdv.drop_first(),
            candidates@.len() == local_cands.len() + import_candidates(mi@, kp.take(p as int), rest, pdv[0]).len(),
            forall|k: int|
                0 <= k < candidates@.len() ==> ({
                    let cands = local_cands + import_candidates(mi@, kp.take(p as int), rest, pdv[0]);
                    (#[trigger] candidates@[k]) matches Symbol::Global(sid) && symbol_id_view(sid)
                        == cands[k]
                }),
        decreases np - p,
    {
        proof {
            assert(kp.take(p + 1).drop_last() =~= kp.take(p as int));
            assert(kp.take(p + 1).last() == kp[p as int]);
            assert(import_paths.deep_view()[p as int] == import_paths@[p as int].deep_view());
        }
        let base = &import_paths[p];
        let mut full = clone_path(base);
        let m = path.len();
        let ghost bfull = base.deep_view();
        let mut j: usize = 1;
        proof {
            assert(full@ =~= base@);
        }
        while j < m
            invariant
                m == path@.len(),
                1 <= j <= m,
                full@ =~= base@ + path@.subrange(1, j as int),
            decreases m - j,
        {
            full.push(path[j].clone());
            proof {
                assert(full@ =~= base@ + path@.subrange(1, j + 1));
            }
            j += 1;
        }
        proof {
            let target = bfull + rest;
            assert(full@.len() == target.len());
            assert forall|k: int| 0 <= k < full@.len() implies full.deep_view()[k] == target[k] by {
                assert(full.deep_view()[k] == full@[k]@);
                if k < base@.len() {
                    assert(full@[k] == base@[k]);
                    assert(base.deep_view()[k] == base@[k]@);
                } else {
                    assert(full@[k] == path@[k - base@.len() + 1]);
                    assert(path.deep_view()[k - base@.len() + 1] == path@[k - base@.len() + 1]@);
                    assert(rest[k - base@.len()] == pdv[k - base@.len() + 1]);
                }
            }
            assert(full.deep_view() =~= bfull + rest);
        }
        let ghost pre = import_candidates(mi@, kp.take(p as int), rest, pdv[0]);
        match mi.get(&full) {
            Some(m2) => {
                proof {
                    crate::project::lemma_mm_lookup_wf(*mi, full.deep_view());
                }
                match m2.find(&path[0], &full) {
                    Ok(cs) => {
                        let ghost step = module_hits(m2.files@, pdv[0]).map_values(
                            |h: (u16, IdItem)| (full.deep_view(), h.0, h.1),
                        );
                        let nc = cs.len();
                        let mut c: usize = 0;
                        while c < nc
                            invariant
                                nc == cs@.len(),
                                nc == step.len(),
                                c <= nc,
                                step == module_hits(m2.files@, pdv[0]).map_values(
                                    |h: (u16, IdItem)| (full.deep_view(), h.0, h.1),
                                ),
                                forall|k: int|
                                    0 <= k < nc ==> {
                                        &&& (#[trigger] cs@[k]).0.deep_view() == full.deep_view()
                                        &&& cs@[k].1 == step[k].1
                                        &&& cs@[k].2 == step[k].2
                                    },
                                candidates@.len() == local_cands.len() + pre.len() + c,
                                forall|k: int|
                                    0 <= k < candidates@.len() ==> {
                                        let cands = local_cands + pre + step.take(c as int);
                                        (#[trigger] candidates@[k]) matches Symbol::Global(sid)
                                            && symbol_id_view(sid) == cands[k]
                                    },
                            decreases nc - c,
                        {
                            let sid = crate::id::clone_symbol_id(&cs[c]);
                            candidates.push(Symbol::Global(sid));
                            c += 1;
                        }
                        proof {
                            assert(step.take(nc as int) =~= step);
                        }
                    },
                    Err(_) => {},
                }
            },
            None => {},
        }
        proof {
            assert(candidates@.len() == local_cands.len() + import_candidates(
                mi@,
                kp.take(p + 1),
                rest,
                pdv[0],
            ).len());
        }
        p += 1;
    }
    proof {
        assert(kp.take(np as int) =~= kp);
    }
    Ok(candidates)
}




/// How a compiled value position relates to its syntax: a literal
/// becomes exactly its constant, an in-scope name becomes a read of
/// its slot, and the unsupported forms are rejected.
pub open spec fn value_shape_ok(
    v: AstValue,
    entries: Seq<(Seq<char>, TypeId, u16)>,
    bt: BuildinTypeId,
    r: Result<StaticExpression, CompilationError>,
) -> bool {
    match v {
        AstValue::Literal(lit) => match r {
            Ok(e) => const_ok(lit, bt) && const_matches(lit, e, bt),
            Err(e) => !const_ok(lit, bt) && match lit {
                Literal::Int(il) => e matches CompilationError::IntConversion { literal }
                    && literal@ == il.digits@,
                Literal::Float(fl) => e matches CompilationError::FloatConversion { literal }
                    && literal@ == fl.text@,
                _ => false,
            },
        },
        AstValue::FullIdentifier(p) => if p@.len() != 1 {
            r matches Err(e) && e is Unsupported
        } else {
            match scope_lookup(entries, p@[0]@) {
                Some(b) => r matches Ok(e) && *e.instr == Instruction::GetLocalVar(b.1 as usize)
                    && e.ty == b.0,
                None => r is Err,
            }
        },
        AstValue::Tuple(es) => es@.len() != 1 ==> (r matches Err(e) && e is Unsupported),
    }
}

/// How a compiled call relates to a built-in name: a recognized
/// built-in yields its opcode over all the arguments, an unknown
/// `buildin_` name is rejected.
pub open spec fn call_shape_ok(
    fc: FunctionCallExpr,
    r: Result<StaticExpression, CompilationError>,
) -> bool {
    if fc.function_name@.len() == 1 && has_buildin_prefix(str_bytes(fc.function_name@[0]@)) {
        match buildin_kind(fc.function_name@[0]@) {
            Some(code) => match r {
                Ok(e) => (*e.instr) matches Instruction::Custom { code: c, args } && c == code
                    && args@.len() == fc.args@.len(),
                Err(_) => true,
            },
            None => {
                &&& r is Err
                &&& fc.args@.len() == 0 ==> (r matches Err(
                    CompilationError::WrongBuildin { found },
                ) && found@ == fc.function_name@[0]@)
            },
        }
    } else {
        true
    }
}


// ---------------------------------------------------------------------
// The call-free compilation judgment
//
// For expressions that consult neither the modules nor the function
// store — literals, names in scope, built-in calls, let chains,
// interpolations and transparent tuples — compilation is a function
// of the expression, the scope and the binding counter alone.  The
// judgment below computes its result type and the counter it leaves
// behind; the compilers promise success whenever it succeeds.

/// The type of a literal, when it evaluates.
pub open spec fn const_lit_ty(lit: Literal, bt: BuildinTypeId) -> TypeId {
    match lit {
        Literal::StringLiteral(_) => bt.string_id,
        Literal::Bool(_) => bt.bool_id,
        Literal::Int(il) => crate::util::suffix_type_id(
            crate::util::effective_suffix(il.type_suffix),
            bt,
        ),
        Literal::Float(_) => bt.float_id,
    }
}

/// Innermost binding of a name among name-and-type pairs.
pub open spec fn nt_lookup(s: Seq<(Seq<char>, TypeId)>, name: Seq<char>) -> Option<TypeId>
    decreases s.len(),
{
    if s.len() == 0 {
        None
    } else if s.last().0 == name {
        Some(s.last().1)
    } else {
        nt_lookup(s.drop_last(), name)
    }
}

/// The name-and-type image of a scope.
pub open spec fn name_tys(s: Seq<(Seq<char>, TypeId, u16)>) -> Seq<(Seq<char>, TypeId)> {
    s.map_values(|t: (Seq<char>, TypeId, u16)| (t.0, t.1))
}

pub proof fn lemma_nt_lookup(s: Seq<(Seq<char>, TypeId, u16)>, name: Seq<char>)
    ensures
        nt_lookup(name_tys(s), name) == match scope_lookup(s, name) {
            Some(b) => Some(b.0),
            None => None::<TypeId>,
        },
    decreases s.len(),
{
    if s.len() > 0 {
        assert(name_tys(s).drop_last() =~= name_tys(s.drop_last()));
        lemma_nt_lookup(s.drop_last(), name);
    }
}

/// The result type of a built-in over given argument types.
pub open spec fn cf_builtin_ty(
    code: CustomInstructionCode,
    tys: Seq<TypeId>,
    bt: BuildinTypeId,
) -> Option<TypeId> {
    match code {
        CustomInstructionCode::StrConcat => if forall|j: int|
            0 <= j < tys.len() ==> #[trigger] tys[j] == bt.string_id {
            Some(bt.string_id)
        } else {
            None
        },
        CustomInstructionCode::Print => if forall|j: int|
            0 <= j < tys.len() ==> #[trigger] tys[j] == bt.string_id {
            Some(bt.uint_id)
        } else {
            None
        },
        CustomInstructionCode::Readline => if tys.len() <= 1 && (forall|j: int|
            0 <= j < tys.len() ==> #[trigger] tys[j] == bt.string_id) {
            Some(bt.string_id)
        } else {
            None
        },
        CustomInstructionCode::Identity => if tys.len() == 1 {
            Some(tys[0])
        } else {
            None
        },
    }
}

/// The type a call-free full expression compiles to, and the binding
/// counter it leaves behind.
pub open spec fn cf_full_ty(
    e: FullExpression,
    env: Seq<(Seq<char>, TypeId)>,
    c: u16,
    bt: BuildinTypeId,
) -> Option<(TypeId, u16)>
    decreases e, 0int,
{
    match e {
        FullExpression::Expression(e2) => cf_expr_ty(e2, env, c, bt),
        FullExpression::Concat(parts) => match cf_vals_tys(parts@, env, c, bt) {
            Some(p) => if forall|j: int| 0 <= j < p.0.len() ==> #[trigger] p.0[j] == bt.string_id {
                Some((bt.string_id, p.1))
            } else {
                None
            },
            None => None,
        },
        FullExpression::Let(le) => if le.definitions@.len() == 0 {
            None
        } else {
            match cf_let_env(le.definitions@, env, c, bt) {
                Some(p) => cf_full_ty(le.body, p.0, p.1, bt),
                None => None,
            }
        },
    }
}

/// The environment and counter after binding a run of definitions.
pub open spec fn cf_let_env(
    defs: Seq<(String, FullExpression)>,
    env: Seq<(Seq<char>, TypeId)>,
    c: u16,
    bt: BuildinTypeId,
) -> Option<(Seq<(Seq<char>, TypeId)>, u16)>
    decreases defs, 1int,
{
    if defs.len() == 0 {
        Some((env, c))
    } else {
        match cf_let_env(defs.drop_last(), env, c, bt) {
            Some(p) => match cf_full_ty(defs.last().1, p.0, p.1, bt) {
                Some(q) => if q.1 >= 65534 {
                    None
                } else {
                    Some((p.0.push((defs.last().0@, q.0)), (q.1 + 1) as u16))
                },
                None => None,
            },
            None => None,
        }
    }
}

pub open spec fn cf_expr_ty(
    e: Expression,
    env: Seq<(Seq<char>, TypeId)>,
    c: u16,
    bt: BuildinTypeId,
) -> Option<(TypeId, u16)>
    decreases e, 0int,
{
    match e {
        Expression::Value(v) => cf_value_ty(v, env, c, bt),
        Expression::FunctionCall(fc) => if fc.function_name@.len() == 1 && has_buildin_prefix(
            str_bytes(fc.function_name@[0]@),
        ) {
            match buildin_kind(fc.function_name@[0]@) {
                Some(code) => match cf_vals_tys(fc.args@, env, c, bt) {
                    Some(p) => match cf_builtin_ty(code, p.0, bt) {
                        Some(t) => Some((t, p.1)),
                        None => None,
                    },
                    None => None,
                },
                None => None,
            }
        } else {
            None
        },
    }
}

/// The types of a run of call-free values, threading the counter
/// left to right.
pub open spec fn cf_vals_tys(
    args: Seq<AstValue>,
    env: Seq<(Seq<char>, TypeId)>,
    c: u16,
    bt: BuildinTypeId,
) -> Option<(Seq<TypeId>, u16)>
    decreases args, 1int,
{
    if args.len() == 0 {
        Some((Seq::<TypeId>::empty(), c))
    } else {
        match cf_vals_tys(args.drop_last(), env, c, bt) {
            Some(p) => match cf_value_ty(args.last(), env, p.1, bt) {
                Some(q) => Some((p.0.push(q.0), q.1)),
                None => None,
            },
            None => None,
        }
    }
}

pub open spec fn cf_value_ty(
    v: AstValue,
    env: Seq<(Seq<char>, TypeId)>,
    c: u16,
    bt: BuildinTypeId,
) -> Option<(TypeId, u16)>
    decreases v, 0int,
{
    match v {
        AstValue::Literal(lit) => if const_ok(lit, bt) {
            Some((const_lit_ty(lit, bt), c))
        } else {
            None
        },
        AstValue::FullIdentifier(p) => if p@.len() == 1 {
            match nt_lookup(env, p@[0]@) {
                Some(t) => Some((t, c)),
                None => None,
            }
        } else {
            None
        },
        AstValue::Tuple(es) => if es@.len() == 1 {
            cf_full_ty(es@[0], env, c, bt)
        } else {
            None
        },
    }
}

/// A successful run over a prefix is forced by one over the whole.
pub proof fn lemma_cf_vals_prefix(
    args: Seq<AstValue>,
    env: Seq<(Seq<char>, TypeId)>,
    c: u16,
    bt: BuildinTypeId,
    k: int,
)
    requires
        0 <= k <= args.len(),
        cf_vals_tys(args, env, c, bt) is Some,
    ensures
        cf_vals_tys(args.take(k), env, c, bt) is Some,
        cf_vals_tys(args.take(k), env, c, bt).unwrap().0.len() == k,
        k < args.len() ==> cf_value_ty(
            args[k],
            env,
            cf_vals_tys(args.take(k), env, c, bt).unwrap().1,
            bt,
        ) is Some,
    decreases args.len() - k,
{
    if k == args.len() {
        assert(args.take(k) =~= args);
        lemma_cf_vals_len(args, env, c, bt);
    } else {
        lemma_cf_vals_prefix(args, env, c, bt, k + 1);
        assert(args.take(k + 1).drop_last() =~= args.take(k));
        assert(args.take(k + 1).last() == args[k]);
        lemma_cf_vals_len(args.take(k), env, c, bt);
    }
}

proof fn lemma_cf_vals_len(
    args: Seq<AstValue>,
    env: Seq<(Seq<char>, TypeId)>,
    c: u16,
    bt: BuildinTypeId,
)
    requires
        cf_vals_tys(args, env, c, bt) is Some,
    ensures
        cf_vals_tys(args, env, c, bt).unwrap().0.len() == args.len(),
    decreases args.len(),
{
    if args.len() > 0 {
        lemma_cf_vals_len(args.drop_last(), env, c, bt);
    }
}

/// A successful let run is forced stepwise along its prefixes.
pub proof fn lemma_cf_let_prefix(
    defs: Seq<(String, FullExpression)>,
    env: Seq<(Seq<char>, TypeId)>,
    c: u16,
    bt: BuildinTypeId,
    k: int,
)
    requires
        0 <= k <= defs.len(),
        cf_let_env(defs, env, c, bt) is Some,
    ensures
        cf_let_env(defs.take(k), env, c, bt) is Some,
        k < defs.len() ==> cf_full_ty(
            defs[k].1,
            cf_let_env(defs.take(k), env, c, bt).unwrap().0,
            cf_let_env(defs.take(k), env, c, bt).unwrap().1,
            bt,
        ) is Some,
        k < defs.len() ==> cf_full_ty(
            defs[k].1,
            cf_let_env(defs.take(k), env, c, bt).unwrap().0,
            cf_let_env(defs.take(k), env, c, bt).unwrap().1,
            bt,
        ).unwrap().1 < 65534,
    decreases defs.len() - k,
{
    if k == defs.len() {
        assert(defs.take(k) =~= defs);
    } else {
        lemma_cf_let_prefix(defs, env, c, bt, k + 1);
        assert(defs.take(k + 1).drop_last() =~= defs.take(k));
        assert(defs.take(k + 1).last() == defs[k]);
    }
}

// ---------------------------------------------------------------------
// The dispatch rules of symbol compilation

/// Whether a declared return type, if any, resolves in the type
/// store.
pub open spec fn decl_ret_resolvable(
    f: crate::ast::AstFunction,
    ts: Seq<(((Seq<Seq<char>>, u16, IdItem), Seq<TypeId>), crate::types::Type)>,
) -> bool {
    match f.ret_type {
        Some(n) => crate::types::type_name_find(ts, n@) is Some,
        None => true,
    }
}

/// A parameter is bad for an argument type when its declared type
/// name does not resolve, or resolves to a different type.
pub open spec fn param_is_bad(
    p: crate::ast::AstParam,
    ts: Seq<(((Seq<Seq<char>>, u16, IdItem), Seq<TypeId>), crate::types::Type)>,
    argty: TypeId,
) -> bool {
    match p.ty {
        Some(n) => match crate::types::type_name_find(ts, n@) {
            None => true,
            Some(t) => t != argty,
        },
        None => false,
    }
}

/// The first bad parameter, if any; the lists have equal length.
pub open spec fn param_first_bad(
    params: Seq<crate::ast::AstParam>,
    ts: Seq<(((Seq<Seq<char>>, u16, IdItem), Seq<TypeId>), crate::types::Type)>,
    args: Seq<TypeId>,
) -> Option<int>
    decreases params.len(),
{
    if params.len() == 0 {
        None
    } else if param_is_bad(params[0], ts, args[0]) {
        Some(0int)
    } else {
        match param_first_bad(params.drop_first(), ts, args.drop_first()) {
            Some(i) => Some(i + 1),
            None => None,
        }
    }
}

proof fn lemma_param_first_bad(
    params: Seq<crate::ast::AstParam>,
    ts: Seq<(((Seq<Seq<char>>, u16, IdItem), Seq<TypeId>), crate::types::Type)>,
    args: Seq<TypeId>,
    k: int,
)
    requires
        params.len() == args.len(),
        0 <= k <= params.len(),
        forall|j: int| 0 <= j < k ==> !param_is_bad(#[trigger] params[j], ts, args[j]),
        k < params.len() ==> param_is_bad(params[k], ts, args[k]),
    ensures
        k == params.len() ==> param_first_bad(params, ts, args) is None,
        k < params.len() ==> param_first_bad(params, ts, args) == Some(k),
    decreases params.len(),
{
    if params.len() == 0 {
    } else if param_is_bad(params[0], ts, args[0]) {
        assert(k == 0);
    } else {
        assert(k >= 1);
        let tp = params.drop_first();
        let ta = args.drop_first();
        assert(forall|j: int| 0 <= j < k - 1 ==> !param_is_bad(#[trigger] tp[j], ts, ta[j]));
        lemma_param_first_bad(tp, ts, ta, k - 1);
    }
}

/// The error the first bad parameter yields: a resolution failure for
/// an unknown declared type name, a type error naming both types for
/// a mismatch.
pub open spec fn param_bad_err(
    p: crate::ast::AstParam,
    ts: Seq<(((Seq<Seq<char>>, u16, IdItem), Seq<TypeId>), crate::types::Type)>,
    argty: TypeId,
    r: Result<(FunctionId, TypeId), CompilationError>,
) -> bool {
    match p.ty {
        Some(n) => match crate::types::type_name_find(ts, n@) {
            None => r matches Err(CompilationError::Find(FindError::NotFound(m))) && m@ == n@,
            Some(t) => r matches Err(CompilationError::TypeError { got, wanted }) && got@
                == spec_type_name(ts, argty) && wanted@ == n@,
        },
        None => false,
    }
}

/// The scope a function body starts from: each parameter's name
/// bound to the caller's argument type.
pub open spec fn params_nt(
    params: Seq<crate::ast::AstParam>,
    args: Seq<TypeId>,
) -> Seq<(Seq<char>, TypeId)> {
    Seq::new(params.len(), |k: int| (params[k].name@, args[k]))
}

/// How the checks made before a function body is compiled read in
/// the result: a symbol that is no function is rejected with the
/// matching error, and an unresolvable declared return type, a wrong
/// argument count or a bad parameter each yield their own error.
pub open spec fn dispatch_checks_ok(
    mi: Seq<(Seq<Seq<char>>, Module)>,
    ts: Seq<(((Seq<Seq<char>>, u16, IdItem), Seq<TypeId>), crate::types::Type)>,
    sid: (Seq<Seq<char>>, u16, IdItem),
    args: Seq<TypeId>,
    r: Result<(FunctionId, TypeId), CompilationError>,
) -> bool {
    match crate::typing::symbol_item(mi, sid) {
        None => r is Err,
        Some(item) => match item {
            BodyItem::Let(v) => if args.len() > 0 {
                r matches Err(CompilationError::CallingVariable { identifier, file })
                    && identifier@ == v.identifier@ && file@ == crate::typing::symbol_filename(
                    mi,
                    sid,
                )
            } else {
                r matches Err(e) && e is Unsupported
            },
            BodyItem::Test => r matches Err(e) && e is Unsupported,
            BodyItem::TypeDecl(_) => r matches Err(e) && e is Unsupported,
            BodyItem::BuildinTypeDecl(_) => r matches Err(e) && e is Unsupported,
            BodyItem::Function(f) => {
                &&& !decl_ret_resolvable(f, ts) ==> (r matches Err(
                    CompilationError::Find(FindError::NotFound(m)),
                ) && match f.ret_type {
                    Some(n) => m@ == n@,
                    None => false,
                })
                &&& (decl_ret_resolvable(f, ts) && f.params@.len() != args.len()) ==> (r matches
                    Err(CompilationError::ArityMismatch { declared, supplied }) && declared
                    == f.params@.len() && supplied == args.len())
                &&& (decl_ret_resolvable(f, ts) && f.params@.len() == args.len() && args.len()
                    < 65535 && param_first_bad(f.params@, ts, args) matches Some(k)) ==> param_bad_err(
                    f.params@[param_first_bad(f.params@, ts, args).unwrap()],
                    ts,
                    args[param_first_bad(f.params@, ts, args).unwrap()],
                    r,
                )
            },
        },
    }
}

// ---------------------------------------------------------------------
// The recursive compiler core

/// Compile a symbol for concrete argument types: the main entry point
/// of compilation.  The result is memoized in the function store; a
/// slot is reserved before the body is compiled, so recursive calls
/// find it and reuse its id and declared return type.
#[verifier::rlimit(100)]
fn compile_symbol_fuelled(
    mi: &ModuleMap,
    bt: &BuildinTypeId,
    ts: &TypeStore,
    fs: &mut FunctionStore,
    symbol_id: &SymbolId,
    args: &Vec<TypeId>,
    fuel: u64,
) -> (r: Result<(FunctionId, TypeId), CompilationError>)
    requires
        mi.wf(),
        store_ok(old(fs)@, mi@, ts@, *bt),
    ensures
        fs_extends(final(fs)@, old(fs)@),
        store_ok(final(fs)@, mi@, ts@, *bt),
        fs_find(old(fs)@, (symbol_id_view(*symbol_id), args@)) is Some ==> final(fs)@ == old(
            fs,
        )@,
        match fs_find(old(fs)@, (symbol_id_view(*symbol_id), args@)) {
            Some(i) => match info_ret(old(fs)@[i].1) {
                Some(t) => r matches Ok(p) && p.0 == i && p.1 == t,
                None => r matches Err(e) && e is RecursionWithoutReturnType,
            },
            None => true,
        },
        r is Err ==> (fs_find(final(fs)@, (symbol_id_view(*symbol_id), args@)) matches Some(i)
            ==> final(fs)@[i].1 is Partial),
        fuel > 0 && fs_find(old(fs)@, (symbol_id_view(*symbol_id), args@)) is None
            ==> dispatch_checks_ok(mi@, ts@, symbol_id_view(*symbol_id), args@, r),
        fuel > 0 && fs_find(old(fs)@, (symbol_id_view(*symbol_id), args@)) is None
            ==> match crate::typing::symbol_item(mi@, symbol_id_view(*symbol_id)) {
                Some(item) => match item {
                    BodyItem::Function(f) => cf_full_ty(
                        f.body,
                        params_nt(f.params@, args@),
                        args@.len() as u16,
                        *bt,
                    ) matches Some(p) ==> ((decl_ret_resolvable(f, ts@) && f.params@.len()
                        == args@.len() && args@.len() < 65535 && param_first_bad(
                        f.params@,
                        ts@,
                        args@,
                    ) is None && (match f.ret_type {
                        Some(n) => type_name_find(ts@, n@) == Some(p.0 as int),
                        None => true,
                    })) ==> (r matches Ok(q) && q.1 == p.0)),
                    _ => true,
                },
                None => true,
            },
        match r {
            Ok(p) => {
                &&& p.0 < final(fs)@.len()
                &&& final(fs)@[p.0 as int].0 == (symbol_id_view(*symbol_id), args@)
                &&& info_ret(final(fs)@[p.0 as int].1) == Some(p.1)
                &&& fs_find(final(fs)@, (symbol_id_view(*symbol_id), args@)) == Some(p.0 as int)
                &&& new_entries_complete(final(fs)@, old(fs)@)
            },
            Err(_) => true,
        },
    decreases fuel, 2int, *symbol_id,
{
    let ghost keyv = (symbol_id_view(*symbol_id), args@);
    let key: SSID = (crate::id::clone_symbol_id(symbol_id), crate::id::clone_type_list(args));
    proof {
        assert(ssid_view(key) == keyv);
    }
    match fs.get_by_key(&key) {
        Some((fnid, info)) => {
            proof {
                crate::store::lemma_fs_find_props(fs@, keyv);
            }
            match info {
                FunctionInfo::Complete { args: _, body } => {
                    return Ok((fnid, body.ty));
                },
                FunctionInfo::Partial { args: _, ret } => {
                    match ret {
                        Some(rt) => {
                            return Ok((fnid, *rt));
                        },
                        None => {
                            return Err(CompilationError::RecursionWithoutReturnType);
                        },
                    }
                },
            }
        },
        None => {},
    }
    if fuel == 0 {
        return Err(CompilationError::Unsupported {
            what: "the compilation depth limit was reached".to_owned(),
        });
    }
    let module = match mi.get(&symbol_id.0) {
        Some(m) => m,
        None => {
            proof {
                assert(crate::typing::symbol_item(mi@, keyv.0) is None);
            }
            return Err(CompilationError::Find(FindError::ModuleNotFound(clone_path(
                &symbol_id.0,
            ))));
        },
    };
    proof {
        crate::project::lemma_mm_lookup_wf(*mi, symbol_id.0.deep_view());
    }
    let file = symbol_id.1 as usize;
    if file >= module.files.len() {
        proof {
            assert(crate::typing::symbol_item(mi@, keyv.0) is None);
        }
        return Err(CompilationError::Unsupported {
            what: "the symbol id points at a file its module does not have".to_owned(),
        });
    }
    let fileinfo = &module.files[file];
    let idx: usize = match symbol_id.2 {
        IdItem::Func(i) => i as usize,
        IdItem::GlobalVar(i) => i as usize,
        IdItem::Type(i) => i as usize,
        IdItem::Method(_, _) => {
            proof {
                assert(crate::typing::symbol_item(mi@, keyv.0) is None);
            }
            return Err(CompilationError::Unsupported {
                what: "derived methods are not implemented yet".to_owned(),
            });
        },
    };
    if idx >= fileinfo.ast.items.len() {
        proof {
            assert(crate::typing::symbol_item(mi@, keyv.0) is None);
        }
        return Err(CompilationError::Unsupported {
            what: "the symbol id points at an item its file does not have".to_owned(),
        });
    }
    let item = &fileinfo.ast.items[idx];
    proof {
        assert(crate::typing::symbol_item(mi@, keyv.0) == Some(*item));
        assert(crate::typing::symbol_filename(mi@, keyv.0) == fileinfo.filename@);
    }
    let func = match item {
        BodyItem::Function(func) => func,
        BodyItem::Let(var) => {
            if args.len() > 0 {
                return Err(CompilationError::CallingVariable {
                    identifier: var.identifier.clone(),
                    file: fileinfo.filename.clone(),
                });
            }
            return Err(CompilationError::Unsupported {
                what: "the value of a global variable has no materialization yet".to_owned(),
            });
        },
        BodyItem::Test => {
            return Err(CompilationError::Unsupported {
                what: "a test is never the target of a call".to_owned(),
            });
        },
        BodyItem::TypeDecl(_) => {
            return Err(CompilationError::Unsupported {
                what: "constructors generated from type declarations are not implemented yet"
                    .to_owned(),
            });
        },
        BodyItem::BuildinTypeDecl(_) => {
            return Err(CompilationError::Unsupported {
                what: "built-in types have no callable fields".to_owned(),
            });
        },
    };
    // Resolve the declared return type, when the source gives one.
    let decl_ret: Option<TypeId> = match &func.ret_type {
        Some(name) => match ts.find_by_name(name) {
            Some(t) => Some(t),
            None => {
                return Err(CompilationError::Find(FindError::NotFound(name.clone())));
            },
        },
        None => None,
    };
    if func.params.len() != args.len() {
        return Err(CompilationError::ArityMismatch {
            declared: func.params.len(),
            supplied: args.len(),
        });
    }
    if args.len() >= 65535 {
        return Err(CompilationError::Unsupported {
            what: "a function cannot declare this many parameters".to_owned(),
        });
    }
    proof {
        assert(mm_lookup(mi@, keyv.0.0) == Some(*module));
        assert(crate::typing::symbol_item(mi@, keyv.0) == Some(*item));
        crate::store::lemma_fs_find_props(fs@, keyv);
    }
    let ghost pre = fs@;
    let id = fs.reserve(key, crate::id::clone_type_list(args), decl_ret);
    proof {
        assert(fs_extends(fs@, pre));
        lemma_fs_extends_refines(fs@, pre);
        lemma_store_wf_refines(pre, fs@, *bt);
        assert(store_ok(fs@, mi@, ts@, *bt));
    }
    let ghost reserved = fs@;
    // Bind the parameters to the caller's argument types.
    let mut scope = Scope::new();
    let mut types: Vec<TypeId> = Vec::new();
    let np = func.params.len();
    let mut k: usize = 0;
    proof {
        assert(scope_env(scope.entries()) =~= env_of_args(args@.take(0)));
    }
    while k < np
        invariant
            mi.wf(),
            np == func.params@.len(),
            np == args@.len(),
            np < 65535,
            k <= np,
            pre == old(fs)@,
            keyv == (symbol_id_view(*symbol_id), args@),
            fs_find(pre, keyv) is None,
            fs@ == reserved,
            fs_extends(reserved, pre),
            reserved.len() == pre.len() + 1,
            reserved[pre.len() as int].0 == keyv,
            reserved[pre.len() as int].1 is Partial,
            store_ok(fs@, mi@, ts@, *bt),
            crate::typing::symbol_item(mi@, keyv.0) == Some(BodyItem::Function(*func)),
            decl_ret_resolvable(*func, ts@),
            name_tys(scope.entries()) =~= params_nt(func.params@, args@).take(k as int),
            forall|j: int|
                0 <= j < k ==> !param_is_bad(#[trigger] func.params@[j], ts@, args@[j]),
            scope.wf(),
            scope.spec_counter() == k,
            scope.entries().len() == k,
            types@ =~= args@.take(k as int),
            scope_env(scope.entries()) == env_of_args(args@.take(k as int)),
        decreases np - k,
    {
        let param = &func.params[k];
        match &param.ty {
            Some(tname) => match ts.find_by_name(tname) {
                Some(t) => {
                    if t != args[k] {
                        proof {
                            lemma_param_first_bad(func.params@, ts@, args@, k as int);
                            crate::store::lemma_fs_find_props(pre, keyv);
                            assert forall|j: int| 0 <= j < pre.len() implies (#[trigger] fs@[j]).0
                                != keyv by {
                                assert(fs@[j] == pre[j]);
                            }
                            crate::store::lemma_fs_find_at(fs@, keyv, pre.len() as int);
                        }
                        let got = type_name_of(ts, args[k]);
                        return Err(CompilationError::TypeError { got, wanted: tname.clone() });
                    }
                },
                None => {
                    proof {
                        lemma_param_first_bad(func.params@, ts@, args@, k as int);
                        crate::store::lemma_fs_find_props(pre, keyv);
                        assert forall|j: int| 0 <= j < pre.len() implies (#[trigger] fs@[j]).0
                            != keyv by {
                            assert(fs@[j] == pre[j]);
                        }
                        crate::store::lemma_fs_find_at(fs@, keyv, pre.len() as int);
                    }
                    return Err(CompilationError::Find(FindError::NotFound(tname.clone())));
                },
            },
            None => {},
        }
        let ghost pre_env = scope_env(scope.entries());
        let ghost pre_entries = scope.entries();
        scope.push(param.name.clone(), args[k]);
        types.push(args[k]);
        proof {
            assert(scope.entries().drop_last() =~= pre_entries);
            assert(scope.entries().last().1 == args@[k as int]);
            assert(scope.entries().last().2 == k as u16);
            assert(name_tys(scope.entries()) =~= params_nt(func.params@, args@).take(k + 1));
            assert(scope_env(scope.entries()) == pre_env.insert(k as int, args@[k as int]));
            assert(env_of_args(args@.take(k + 1)) =~= env_of_args(args@.take(k as int)).insert(
                k as int,
                args@[k as int],
            ));
            assert(types@ =~= args@.take(k + 1));
        }
        k += 1;
    }
    proof {
        assert(args@.take(np as int) =~= args@);
        assert(scope_env(scope.entries()) == env_of_args(args@));
        assert(params_nt(func.params@, args@).take(np as int) =~= params_nt(func.params@, args@));
        assert(name_tys(scope.entries()) == params_nt(func.params@, args@));
        lemma_param_first_bad(func.params@, ts@, args@, np as int);
    }
    // Compile the body under the parameter scope.
    let body = match compile_full_expression(
        mi,
        bt,
        ts,
        fs,
        &func.body,
        module,
        &symbol_id.0,
        &fileinfo.imports,
        &fileinfo.filename,
        &mut scope,
        fuel - 1,
    ) {
        Ok(b) => b,
        Err(e) => {
            proof {
                lemma_fs_extends_trans(pre, reserved, fs@);
                crate::store::lemma_fs_find_props(pre, keyv);
                assert forall|j: int| 0 <= j < pre.len() implies (#[trigger] fs@[j]).0 != keyv by {
                    assert(fs@[j] == reserved[j]);
                }
                assert(fs@[pre.len() as int] == reserved[pre.len() as int]);
                crate::store::lemma_fs_find_at(fs@, keyv, pre.len() as int);
                if cf_full_ty(func.body, params_nt(func.params@, args@), args@.len() as u16, *bt)
                    is Some {
                    assert(false);
                }
            }
            return Err(e);
        },
    };
    // Honour a declared return type.
    match decl_ret {
        Some(rt) => {
            if body.ty != rt {
                let got = type_name_of(ts, body.ty);
                let wanted = type_name_of(ts, rt);
                proof {
                    match cf_full_ty(
                        func.body,
                        params_nt(func.params@, args@),
                        args@.len() as u16,
                        *bt,
                    ) {
                        Some(p) => {
                            assert(body.ty == p.0);
                            if (match &func.ret_type {
                                Some(n) => type_name_find(ts@, n@) == Some(p.0 as int),
                                None => true,
                            }) {
                                assert(false);
                            }
                        },
                        None => {},
                    }
                    lemma_fs_extends_trans(pre, reserved, fs@);
                    crate::store::lemma_fs_find_props(pre, keyv);
                    assert forall|j: int| 0 <= j < pre.len() implies (#[trigger] fs@[j]).0
                        != keyv by {
                        assert(fs@[j] == reserved[j]);
                    }
                    assert(fs@[pre.len() as int] == reserved[pre.len() as int]);
                    crate::store::lemma_fs_find_at(fs@, keyv, pre.len() as int);
                }
                return Err(CompilationError::TypeError { got, wanted });
            }
        },
        None => {},
    }
    // Fill the reserved slot.
    let ghost before_update = fs@;
    proof {
        lemma_fs_extends_trans(pre, reserved, fs@);
        assert(before_update[id as int] == reserved[id as int]);
        assert(crate::store::is_partial(before_update[id as int].1));
        assert(crate::store::info_args(before_update[id as int].1) == types@);
        assert(expr_wf(body, env_of_args(types@), before_update, *bt));
    }
    let ghost gtypes = types@;
    let ghost gbody = body;
    let ret_ty = body.ty;
    fs.update_complete_function(id, types, body);
    proof {
        let now = fs@;
        assert(fs_refines(now, before_update));
        lemma_expr_wf_refines(gbody, env_of_args(gtypes), before_update, now, *bt);
        lemma_store_wf_refines(before_update, now, *bt);
        assert(store_wf(now, *bt));
        assert(store_ok(now, mi@, ts@, *bt));
        assert(fs_extends(now, pre));
        assert(now[id as int].0 == keyv);
        assert forall|j: int| 0 <= j < id as int implies (#[trigger] now[j]).0 != keyv by {
            assert(now[j] == pre[j]);
        }
        crate::store::lemma_fs_find_at(now, keyv, id as int);
        assert forall|i: int| pre.len() <= i < now.len() implies (#[trigger] now[i]).1
            is Complete by {
            if i != id as int {
                assert(now[i] == before_update[i]);
            }
        }
    }
    Ok((id, ret_ty))
}

/// Compile a full expression: a let chain or a plain expression.
#[verifier::rlimit(100)]
fn compile_full_expression(
    mi: &ModuleMap,
    bt: &BuildinTypeId,
    ts: &TypeStore,
    fs: &mut FunctionStore,
    expr: &FullExpression,
    module: &Module,
    idmodule: &IdPath,
    imports: &SymbolResolver,
    filename: &String,
    scope: &mut Scope,
    fuel: u64,
) -> (r: Result<StaticExpression, CompilationError>)
    requires
        mi.wf(),
        module.wf(),
        old(scope).wf(),
        store_ok(old(fs)@, mi@, ts@, *bt),
    ensures
        fs_extends(final(fs)@, old(fs)@),
        store_ok(final(fs)@, mi@, ts@, *bt),
        final(scope).wf(),
        final(scope).spec_counter() >= old(scope).spec_counter(),
        match r {
            Ok(e) => {
                &&& final(scope).entries() == old(scope).entries()
                &&& expr_wf(e, scope_env(old(scope).entries()), final(fs)@, *bt)
                &&& new_entries_complete(final(fs)@, old(fs)@)
            },
            Err(_) => true,
        },
        (*expr) matches FullExpression::Concat(parts) ==> (r matches Ok(e) ==> ((*e.instr)
            matches Instruction::Custom { code, args } && code == CustomInstructionCode::StrConcat
            && args@.len() == parts@.len() && e.ty == bt.string_id)),
        (*expr) matches FullExpression::Let(le) ==> (r matches Ok(e) ==> ((*e.instr) matches
            Instruction::NewLocalVar { var_index, .. } && var_index >= old(scope).spec_counter()
            && le.definitions@.len() > 0)),
        (*expr) matches FullExpression::Expression(e2) ==> ((e2 matches Expression::Value(v)
            ==> value_shape_ok(v, old(scope).entries(), *bt, r)) && (e2 matches
            Expression::FunctionCall(fc) ==> call_shape_ok(fc, r))),
        cf_full_ty(*expr, name_tys(old(scope).entries()), old(scope).spec_counter(), *bt)
            matches Some(p) ==> (r matches Ok(e) && e.ty == p.0 && final(scope).spec_counter()
            == p.1),
    decreases fuel, 1int, *expr,
{
    match expr {
        FullExpression::Expression(e) => compile_call_or_value(
            mi,
            bt,
            ts,
            fs,
            e,
            module,
            idmodule,
            imports,
            filename,
            scope,
            fuel,
        ),
        FullExpression::Concat(parts) => {
            // String interpolation desugars to the built-in string
            // concatenation applied to its parts.
            let ghost env = scope_env(old(scope).entries());
            let ghost fs0 = fs@;
            let ghost nt0 = name_tys(old(scope).entries());
            let ghost c0 = old(scope).spec_counter();
            let ghost cft = cf_full_ty(*expr, nt0, c0, *bt);
            let np2 = parts.len();
            let mut cargs: Vec<StaticExpression> = Vec::new();
            let mut i: usize = 0;
            proof {
                assert(parts@.take(0) =~= Seq::<AstValue>::empty());
            }
            while i < np2
                invariant
                    mi.wf(),
                    module.wf(),
                    fs0 == old(fs)@,
                    store_ok(fs@, mi@, ts@, *bt),
                    fs_extends(fs@, fs0),
                    new_entries_complete(fs@, fs0),
                    *expr == FullExpression::Concat(*parts),
                    np2 == parts@.len(),
                    i <= np2,
                    scope.wf(),
                    scope.entries() == old(scope).entries(),
                    scope.spec_counter() >= old(scope).spec_counter(),
                    env == scope_env(old(scope).entries()),
                    nt0 == name_tys(old(scope).entries()),
                    c0 == old(scope).spec_counter(),
                    cft == cf_full_ty(*expr, nt0, c0, *bt),
                    cft is Some ==> (cf_vals_tys(parts@.take(i as int), nt0, c0, *bt) matches
                        Some(pp) && tys_of(cargs@) =~= pp.0 && scope.spec_counter() == pp.1),
                    cargs@.len() == i,
                    forall|j: int| 0 <= j < i ==> expr_wf(#[trigger] cargs@[j], env, fs@, *bt),
                decreases np2 - i,
            {
                proof {
                    let pv = expr->Concat_0;
                    assert(decreases_to!(*expr => pv));
                    assert(decreases_to!(pv => pv@[i as int]));
                    assert(decreases_to!(*expr => parts@[i as int]));
                }
                let ghost fs_iter = fs@;
                let a = match compile_value(
                    mi,
                    bt,
                    ts,
                    fs,
                    &parts[i],
                    module,
                    idmodule,
                    imports,
                    filename,
                    scope,
                    fuel,
                ) {
                    Ok(a) => a,
                    Err(e) => {
                        proof {
                            lemma_fs_extends_trans(fs0, fs_iter, fs@);
                            if cft is Some {
                                lemma_cf_vals_prefix(parts@, nt0, c0, *bt, i as int);
                                assert(false);
                            }
                        }
                        return Err(e);
                    },
                };
                let ghost ag = a;
                cargs.push(a);
                proof {
                    lemma_fs_extends_trans(fs0, fs_iter, fs@);
                    lemma_new_entries_complete_trans(fs0, fs_iter, fs@);
                    lemma_fs_extends_refines(fs@, fs_iter);
                    assert forall|j: int| 0 <= j < i + 1 implies expr_wf(
                        #[trigger] cargs@[j],
                        env,
                        fs@,
                        *bt,
                    ) by {
                        if j < i {
                            lemma_expr_wf_refines(cargs@[j], env, fs_iter, fs@, *bt);
                        }
                    }
                    if cft is Some {
                        lemma_cf_vals_prefix(parts@, nt0, c0, *bt, i as int);
                        assert(parts@.take(i + 1).drop_last() =~= parts@.take(i as int));
                        assert(parts@.take(i + 1).last() == parts@[i as int]);
                        let pp = cf_vals_tys(parts@.take(i as int), nt0, c0, *bt).unwrap();
                        let q = cf_value_ty(parts@[i as int], nt0, pp.1, *bt).unwrap();
                        assert(ag.ty == q.0);
                        assert(tys_of(cargs@) =~= pp.0.push(q.0));
                    }
                }
                i += 1;
            }
            proof {
                if cft is Some {
                    assert(parts@.take(np2 as int) =~= parts@);
                }
            }
            match assert_type_ids(ts, &cargs, bt.string_id, "String") {
                Ok(_) => {},
                Err(e) => {
                    proof {
                        if cft is Some {
                            let pp = cf_vals_tys(parts@, nt0, c0, *bt).unwrap();
                            assert(tys_of(cargs@) == pp.0);
                            assert forall|j: int|
                                0 <= j < cargs@.len() implies (#[trigger] cargs@[j]).ty
                                == bt.string_id by {
                                assert(tys_of(cargs@)[j] == cargs@[j].ty);
                                assert(pp.0[j] == bt.string_id);
                            }
                            assert(false);
                        }
                    }
                    return Err(e);
                },
            }
            let ghost gcargs = cargs@;
            proof {
                assert(exprs_wf(gcargs, env, fs@, *bt));
                assert forall|j: int| 0 <= j < tys_of(gcargs).len() implies #[trigger] tys_of(
                    gcargs,
                )[j] == bt.string_id by {
                    assert(gcargs[j].ty == bt.string_id);
                }
                assert(custom_ok(
                    CustomInstructionCode::StrConcat,
                    tys_of(gcargs),
                    bt.string_id,
                    *bt,
                ));
            }
            Ok(StaticExpression {
                instr: Box::new(Instruction::Custom {
                    code: CustomInstructionCode::StrConcat,
                    args: cargs,
                }),
                ty: bt.string_id,
            })
        },
        FullExpression::Let(le) => {
            let defs = &le.definitions;
            let n = defs.len();
            if n == 0 {
                return Err(CompilationError::Unsupported {
                    what: "a let binding needs at least one definition".to_owned(),
                });
            }
            let ghost entries0 = old(scope).entries();
            let ghost env0 = scope_env(entries0);
            let ghost nt0 = name_tys(entries0);
            let ghost c0 = old(scope).spec_counter();
            let ghost cft = cf_full_ty(*expr, nt0, c0, *bt);
            let mut let_list: Vec<(u16, StaticExpression)> = Vec::new();
            let ghost fs0 = fs@;
            // Compile and bind each definition in order.
            let mut i: usize = 0;
            proof {
                assert(defs@.take(0) =~= Seq::<(String, FullExpression)>::empty());
            }
            while i < n
                invariant
                    mi.wf(),
                    module.wf(),
                    fs0 == old(fs)@,
                    store_ok(fs@, mi@, ts@, *bt),
                    fs_extends(fs@, fs0),
                    new_entries_complete(fs@, fs0),
                    *expr == FullExpression::Let(*le),
                    defs == le.definitions,
                    n == defs@.len(),
                    n > 0,
                    i <= n,
                    scope.wf(),
                    entries0 == old(scope).entries(),
                    env0 == scope_env(entries0),
                    scope.spec_counter() >= old(scope).spec_counter(),
                    let_list@.len() == i,
                    scope.entries().len() == entries0.len() + i,
                    forall|j: int|
                        0 <= j < entries0.len() ==> #[trigger] scope.entries()[j] == entries0[j],
                    forall|j: int|
                        0 <= j < i ==> (#[trigger] scope.entries()[entries0.len() + j]).1
                            == let_list@[j].1.ty && scope.entries()[entries0.len() + j].2
                            == let_list@[j].0,
                    scope_env(scope.entries()) == env_push_binds(env0, binds_of(let_list@)),
                    nt0 == name_tys(entries0),
                    c0 == old(scope).spec_counter(),
                    cft == cf_full_ty(*expr, nt0, c0, *bt),
                    cft is Some ==> (cf_let_env(defs@.take(i as int), nt0, c0, *bt) matches Some(
                        pp,
                    ) && name_tys(scope.entries()) =~= pp.0 && scope.spec_counter() == pp.1),
                    forall|j: int|
                        0 <= j < i ==> (#[trigger] let_list@[j]).0 >= old(scope).spec_counter(),
                    forall|j: int|
                        0 <= j < i ==> expr_wf(
                            (#[trigger] let_list@[j]).1,
                            env_push_binds(env0, binds_of(let_list@).take(j)),
                            fs@,
                            *bt,
                        ),
                decreases n - i,
            {
                proof {
                    let boxed = expr->Let_0;
                    assert(decreases_to!(*expr => boxed));
                    assert(decreases_to!(boxed => boxed.definitions));
                    assert(decreases_to!(boxed.definitions => boxed.definitions@[i as int]));
                    assert(decreases_to!(boxed.definitions@[i as int] => boxed.definitions@[i as int].1));
                    assert(decreases_to!(*expr => defs@[i as int].1));
                }
                let ghost fs_iter = fs@;
                let ghost binds_pre = binds_of(let_list@);
                let vv = match compile_full_expression(
                    mi,
                    bt,
                    ts,
                    fs,
                    &defs[i].1,
                    module,
                    idmodule,
                    imports,
                    filename,
                    scope,
                    fuel,
                ) {
                    Ok(v) => v,
                    Err(e) => {
                        proof {
                            lemma_fs_extends_trans(fs0, fs_iter, fs@);
                            if cft is Some {
                                lemma_cf_let_prefix(defs@, nt0, c0, *bt, i as int);
                                assert(false);
                            }
                        }
                        return Err(e);
                    },
                };
                if scope.counter() >= 65534 {
                    proof {
                        lemma_fs_extends_trans(fs0, fs_iter, fs@);
                        if cft is Some {
                            lemma_cf_let_prefix(defs@, nt0, c0, *bt, i as int);
                            assert(false);
                        }
                    }
                    return Err(CompilationError::Unsupported {
                        what: "a function cannot hold this many local bindings".to_owned(),
                    });
                }
                let ghost pre_entries = scope.entries();
                let ghost vvg = vv;
                let ghost list_pre = let_list@;
                let slot = scope.push(defs[i].0.clone(), vv.ty);
                let_list.push((slot, vv));
                proof {
                    lemma_fs_extends_trans(fs0, fs_iter, fs@);
                    lemma_new_entries_complete_trans(fs0, fs_iter, fs@);
                    lemma_fs_extends_refines(fs@, fs_iter);
                    assert(let_list@ =~= list_pre.push((slot, vvg)));
                    assert forall|j: int| 0 <= j < let_list@.len() implies binds_of(let_list@)[j]
                        == binds_pre.push((slot, vvg.ty))[j] by {
                        if j < list_pre.len() {
                            assert(let_list@[j] == list_pre[j]);
                            assert(binds_pre[j] == (list_pre[j].0, list_pre[j].1.ty));
                        } else {
                            assert(let_list@[j] == (slot, vvg));
                        }
                    }
                    assert(binds_of(let_list@) =~= binds_pre.push((slot, vvg.ty)));
                    assert(binds_of(let_list@).drop_last() =~= binds_pre);
                    assert(scope.entries().drop_last() =~= pre_entries);
                    assert(scope_env(scope.entries()) == scope_env(pre_entries).insert(
                        slot as int,
                        vvg.ty,
                    ));
                    if cft is Some {
                        lemma_cf_let_prefix(defs@, nt0, c0, *bt, i as int);
                        assert(defs@.take(i + 1).drop_last() =~= defs@.take(i as int));
                        assert(defs@.take(i + 1).last() == defs@[i as int]);
                        let pp = cf_let_env(defs@.take(i as int), nt0, c0, *bt).unwrap();
                        let q = cf_full_ty(defs@[i as int].1, pp.0, pp.1, *bt).unwrap();
                        assert(vvg.ty == q.0);
                        assert(name_tys(scope.entries()) =~= name_tys(pre_entries).push(
                            (defs@[i as int].0@, vvg.ty),
                        ));
                        assert(cf_let_env(defs@.take(i + 1), nt0, c0, *bt) matches Some(np2)
                            && name_tys(scope.entries()) =~= np2.0 && scope.spec_counter()
                            == np2.1);
                    }
                    assert forall|j: int| 0 <= j < i + 1 implies expr_wf(
                        (#[trigger] let_list@[j]).1,
                        env_push_binds(env0, binds_of(let_list@).take(j)),
                        fs@,
                        *bt,
                    ) by {
                        assert(binds_of(let_list@).take(j) =~= binds_pre.take(j));
                        if j < i {
                            lemma_expr_wf_refines(
                                let_list@[j].1,
                                env_push_binds(env0, binds_pre.take(j)),
                                fs_iter,
                                fs@,
                                *bt,
                            );
                        } else {
                            assert(expr_wf(vvg, env_push_binds(env0, binds_pre), fs@, *bt));
                        }
                    }
                }
                i += 1;
            }
            let ghost binds_all = binds_of(let_list@);
            let ghost full_entries = scope.entries();
            let ghost fs_mid = fs@;
            proof {
                assert(binds_all.take(n as int) =~= binds_all);
                if cft is Some {
                    assert(defs@.take(n as int) =~= defs@);
                }
            }
            // Every binding's slot is fresh for the environment the
            // binding extends.
            proof {
                assert forall|k: int| 0 <= k < n implies !env_push_binds(
                    env0,
                    binds_all.take(k),
                ).contains_key((#[trigger] binds_all[k]).0 as int) by {
                    let slotk = binds_all[k].0 as int;
                    assert(full_entries[entries0.len() + k].2 == binds_all[k].0);
                    if env_push_binds(env0, binds_all.take(k)).contains_key(slotk) {
                        lemma_env_push_binds_dom(env0, binds_all.take(k), slotk);
                        if env0.contains_key(slotk) {
                            lemma_scope_env_dom_exists(entries0, slotk);
                            let w = choose|w: int|
                                0 <= w < entries0.len() && (#[trigger] entries0[w]).2 == slotk;
                            assert(full_entries[w].2 == entries0[w].2);
                            assert(full_entries[w].2 < full_entries[entries0.len() + k].2);
                        } else {
                            let j = choose|j: int|
                                0 <= j < binds_all.take(k).len() && (#[trigger] binds_all.take(
                                    k,
                                )[j]).0 == slotk;
                            assert(full_entries[entries0.len() + j].2 == binds_all[j].0);
                            assert(full_entries[entries0.len() + j].2 < full_entries[entries0.len()
                                + k].2);
                        }
                    }
                }
            }
            // Compile the body with every binding in scope.
            let body_expression = match compile_full_expression(
                mi,
                bt,
                ts,
                fs,
                &le.body,
                module,
                idmodule,
                imports,
                filename,
                scope,
                fuel,
            ) {
                Ok(b) => b,
                Err(e) => {
                    proof {
                        lemma_fs_extends_trans(fs0, fs_mid, fs@);
                        if cft is Some {
                            assert(false);
                        }
                    }
                    return Err(e);
                },
            };
            proof {
                lemma_fs_extends_trans(fs0, fs_mid, fs@);
                lemma_new_entries_complete_trans(fs0, fs_mid, fs@);
                lemma_fs_extends_refines(fs@, fs_mid);
                assert forall|j: int| 0 <= j < n implies expr_wf(
                    (#[trigger] let_list@[j]).1,
                    env_push_binds(env0, binds_of(let_list@).take(j)),
                    fs@,
                    *bt,
                ) by {
                    lemma_expr_wf_refines(
                        let_list@[j].1,
                        env_push_binds(env0, binds_of(let_list@).take(j)),
                        fs_mid,
                        fs@,
                        *bt,
                    );
                }
            }
            let ty = body_expression.ty;
            // Build the chain inside out: the last binding is the
            // innermost one.
            let mut cur = let_list;
            let ghost orig = cur@;
            proof {
                assert(orig.take(n - 1) =~= orig.drop_last());
            }
            let (vi, vv) = match cur.pop() {
                Some(p) => p,
                None => {
                    return Err(CompilationError::Unsupported {
                        what: "a let binding needs at least one definition".to_owned(),
                    });
                },
            };
            let mut let_tree = Instruction::NewLocalVar {
                var_index: vi,
                var_value: vv,
                body: body_expression,
            };
            proof {
                assert(binds_all.take(n as int) =~= binds_all);
                assert(env_push_binds(env0, binds_all) == env_push_binds(
                    env0,
                    binds_all.take(n - 1),
                ).insert(binds_all[n - 1].0 as int, binds_all[n - 1].1)) by {
                    assert(binds_all.drop_last() =~= binds_all.take(n - 1));
                }
                assert(expr_wf(orig[n - 1].1, env_push_binds(env0, binds_all.take(n - 1)), fs@, *bt))
                    by {
                    lemma_expr_wf_refines(
                        orig[n - 1].1,
                        env_push_binds(env0, binds_all.take(n - 1)),
                        fs_mid,
                        fs@,
                        *bt,
                    );
                }
                assert(instr_wf(
                    let_tree,
                    ty,
                    env_push_binds(env0, binds_all.take(n - 1)),
                    fs@,
                    *bt,
                ));
            }
            while cur.len() > 0
                invariant
                    n == orig.len(),
                    cur@ =~= orig.take(cur@.len() as int),
                    cur@.len() < n,
                    binds_all == binds_of(orig),
                    env0 == scope_env(entries0),
                    fs0 == old(fs)@,
                    store_ok(fs@, mi@, ts@, *bt),
                    fs_extends(fs@, fs0),
                    new_entries_complete(fs@, fs0),
                    forall|j: int|
                        0 <= j < n ==> expr_wf(
                            (#[trigger] orig[j]).1,
                            env_push_binds(env0, binds_of(orig).take(j)),
                            fs@,
                            *bt,
                        ),
                    forall|k: int|
                        0 <= k < n ==> !env_push_binds(env0, binds_all.take(k)).contains_key(
                            (#[trigger] binds_all[k]).0 as int,
                        ),
                    forall|j: int|
                        0 <= j < n ==> (#[trigger] orig[j]).0 >= old(scope).spec_counter(),
                    let_tree matches Instruction::NewLocalVar { var_index, .. } && var_index
                        == orig[cur@.len() as int].0,
                    instr_wf(
                        let_tree,
                        ty,
                        env_push_binds(env0, binds_all.take(cur@.len() as int)),
                        fs@,
                        *bt,
                    ),
                decreases cur@.len(),
            {
                let ghost m = cur@.len() as int;
                let (vi2, vv2) = match cur.pop() {
                    Some(p) => p,
                    None => {
                        return Err(CompilationError::Unsupported {
                            what: "a let binding needs at least one definition".to_owned(),
                        });
                    },
                };
                proof {
                    assert(cur@ =~= orig.take(m - 1));
                    assert(orig.take(m).last() == orig[m - 1]);
                }
                let body2 = StaticExpression { instr: Box::new(let_tree), ty };
                let_tree = Instruction::NewLocalVar { var_index: vi2, var_value: vv2, body: body2 };
                proof {
                    assert(vi2 == orig[m - 1].0 && vv2 == orig[m - 1].1);
                    assert(binds_all[m - 1] == (orig[m - 1].0, orig[m - 1].1.ty));
                    assert(env_push_binds(env0, binds_all.take(m)) == env_push_binds(
                        env0,
                        binds_all.take(m - 1),
                    ).insert(binds_all[m - 1].0 as int, binds_all[m - 1].1)) by {
                        assert(binds_all.take(m).drop_last() =~= binds_all.take(m - 1));
                    }
                    assert(instr_wf(
                        let_tree,
                        ty,
                        env_push_binds(env0, binds_all.take(m - 1)),
                        fs@,
                        *bt,
                    ));
                }
            }
            proof {
                assert(binds_all.take(0) =~= Seq::<(u16, TypeId)>::empty());
                assert(instr_wf(let_tree, ty, env0, fs@, *bt));
            }
            // Remove the bindings from the scope again.
            let ghost c_end = scope.spec_counter();
            let mut p: usize = 0;
            while p < n
                invariant
                    p <= n,
                    scope.wf(),
                    scope.spec_counter() == c_end,
                    scope.spec_counter() >= old(scope).spec_counter(),
                    entries0 == old(scope).entries(),
                    full_entries.len() == entries0.len() + n,
                    forall|j: int|
                        0 <= j < entries0.len() ==> #[trigger] full_entries[j] == entries0[j],
                    scope.entries() =~= full_entries.take(entries0.len() + n - p),
                decreases n - p,
            {
                proof {
                    assert(scope.entries().len() == entries0.len() + n - p);
                }
                scope.pop();
                proof {
                    assert(full_entries.take(entries0.len() + n - p).drop_last() =~= full_entries
                        .take(entries0.len() + n - (p + 1)));
                }
                p += 1;
            }
            proof {
                assert(scope.entries() =~= entries0);
                assert(scope.entries() == entries0);
                if cft is Some {
                    assert(ty == cft.unwrap().0);
                    assert(scope.spec_counter() == cft.unwrap().1);
                }
            }
            Ok(StaticExpression { instr: Box::new(let_tree), ty })
        },
    }
}

/// Compile a call-or-value expression.  A call first compiles its
/// arguments, whose types drive the choice of the callee: a built-in,
/// a local variable, or a global symbol compiled for exactly these
/// argument types.
#[verifier::rlimit(100)]
fn compile_call_or_value(
    mi: &ModuleMap,
    bt: &BuildinTypeId,
    ts: &TypeStore,
    fs: &mut FunctionStore,
    expr: &Expression,
    module: &Module,
    idmodule: &IdPath,
    imports: &SymbolResolver,
    filename: &String,
    scope: &mut Scope,
    fuel: u64,
) -> (r: Result<StaticExpression, CompilationError>)
    requires
        mi.wf(),
        module.wf(),
        old(scope).wf(),
        store_ok(old(fs)@, mi@, ts@, *bt),
    ensures
        fs_extends(final(fs)@, old(fs)@),
        store_ok(final(fs)@, mi@, ts@, *bt),
        final(scope).wf(),
        final(scope).spec_counter() >= old(scope).spec_counter(),
        match r {
            Ok(e) => {
                &&& final(scope).entries() == old(scope).entries()
                &&& expr_wf(e, scope_env(old(scope).entries()), final(fs)@, *bt)
                &&& new_entries_complete(final(fs)@, old(fs)@)
            },
            Err(_) => true,
        },
        (*expr) matches Expression::Value(v) ==> value_shape_ok(
            v,
            old(scope).entries(),
            *bt,
            r,
        ),
        (*expr) matches Expression::FunctionCall(fc) ==> call_shape_ok(fc, r),
        cf_expr_ty(*expr, name_tys(old(scope).entries()), old(scope).spec_counter(), *bt)
            matches Some(p) ==> (r matches Ok(e) && e.ty == p.0 && final(scope).spec_counter()
            == p.1),
        (*expr) matches Expression::FunctionCall(fc) ==> (r matches Ok(e) ==> ((*e.instr)
            matches Instruction::FunctionCall { func, args } ==> ({
            let cands = resolve_candidates(
                mi@,
                *module,
                idmodule.deep_view(),
                imports.additions(),
                fc.function_name.deep_view(),
            );
            &&& cands.len() == 1
            &&& final(fs)@[func as int].0 == (cands[0], tys_of(args@))
            &&& fs_find(final(fs)@, (cands[0], tys_of(args@))) == Some(func as int)
        }))),
    decreases fuel, 1int, *expr,
{
    match expr {
        Expression::Value(v) => compile_value(
            mi,
            bt,
            ts,
            fs,
            v,
            module,
            idmodule,
            imports,
            filename,
            scope,
            fuel,
        ),
        Expression::FunctionCall(fc) => {
            let ghost env = scope_env(old(scope).entries());
            let ghost fs0 = fs@;
            let ghost nt0 = name_tys(old(scope).entries());
            let ghost c0 = old(scope).spec_counter();
            let ghost cft = cf_expr_ty(*expr, nt0, c0, *bt);
            let na = fc.args.len();
            let mut cargs: Vec<StaticExpression> = Vec::new();
            let mut i: usize = 0;
            proof {
                assert(fc.args@.take(0) =~= Seq::<AstValue>::empty());
            }
            while i < na
                invariant
                    mi.wf(),
                    module.wf(),
                    fs0 == old(fs)@,
                    store_ok(fs@, mi@, ts@, *bt),
                    fs_extends(fs@, fs0),
                    new_entries_complete(fs@, fs0),
                    *expr == Expression::FunctionCall(*fc),
                    na == fc.args@.len(),
                    i <= na,
                    scope.wf(),
                    scope.entries() == old(scope).entries(),
                    scope.spec_counter() >= old(scope).spec_counter(),
                    env == scope_env(old(scope).entries()),
                    nt0 == name_tys(old(scope).entries()),
                    c0 == old(scope).spec_counter(),
                    cft == cf_expr_ty(*expr, nt0, c0, *bt),
                    cft is Some ==> (cf_vals_tys(fc.args@.take(i as int), nt0, c0, *bt) matches
                        Some(pp) && tys_of(cargs@) =~= pp.0 && scope.spec_counter() == pp.1),
                    cargs@.len() == i,
                    forall|j: int|
                        0 <= j < i ==> expr_wf(#[trigger] cargs@[j], env, fs@, *bt),
                decreases na - i,
            {
                proof {
                    let fcv = expr->FunctionCall_0;
                    assert(decreases_to!(*expr => fcv));
                    assert(decreases_to!(fcv => fcv.args));
                    assert(decreases_to!(fcv.args => fcv.args@[i as int]));
                    assert(decreases_to!(*expr => fc.args@[i as int]));
                }
                let ghost fs_iter = fs@;
                let a = match compile_value(
                    mi,
                    bt,
                    ts,
                    fs,
                    &fc.args[i],
                    module,
                    idmodule,
                    imports,
                    filename,
                    scope,
                    fuel,
                ) {
                    Ok(a) => a,
                    Err(e) => {
                        proof {
                            lemma_fs_extends_trans(fs0, fs_iter, fs@);
                            if cft is Some {
                                lemma_cf_vals_prefix(fc.args@, nt0, c0, *bt, i as int);
                                assert(false);
                            }
                        }
                        return Err(e);
                    },
                };
                let ghost ag = a;
                cargs.push(a);
                proof {
                    lemma_fs_extends_trans(fs0, fs_iter, fs@);
                    lemma_new_entries_complete_trans(fs0, fs_iter, fs@);
                    lemma_fs_extends_refines(fs@, fs_iter);
                    assert forall|j: int| 0 <= j < i + 1 implies expr_wf(
                        #[trigger] cargs@[j],
                        env,
                        fs@,
                        *bt,
                    ) by {
                        if j < i {
                            lemma_expr_wf_refines(cargs@[j], env, fs_iter, fs@, *bt);
                        }
                    }
                    if cft is Some {
                        lemma_cf_vals_prefix(fc.args@, nt0, c0, *bt, i as int);
                        assert(fc.args@.take(i + 1).drop_last() =~= fc.args@.take(i as int));
                        assert(fc.args@.take(i + 1).last() == fc.args@[i as int]);
                        let pp = cf_vals_tys(fc.args@.take(i as int), nt0, c0, *bt).unwrap();
                        let q = cf_value_ty(fc.args@[i as int], nt0, pp.1, *bt).unwrap();
                        assert(ag.ty == q.0);
                        assert(tys_of(cargs@) =~= pp.0.push(q.0));
                    }
                }
                i += 1;
            }
            proof {
                if cft is Some {
                    assert(fc.args@.take(na as int) =~= fc.args@);
                }
            }
            // A call of a compiler built-in becomes a custom opcode.
            match check_buildin_func(bt, ts, fc, &cargs) {
                Some(res) => {
                    let (code, cty) = match res {
                        Ok(p) => p,
                        Err(e) => {
                            proof {
                                if cft is Some {
                                    let code = buildin_kind(fc.function_name@[0]@).unwrap();
                                    let pp = cf_vals_tys(fc.args@, nt0, c0, *bt).unwrap();
                                    assert(tys_of(cargs@) == pp.0);
                                    if !(code is Identity) {
                                        assert forall|j: int|
                                            0 <= j < cargs@.len() implies (#[trigger] cargs@[j]).ty
                                            == bt.string_id by {
                                            assert(tys_of(cargs@)[j] == cargs@[j].ty);
                                            assert(pp.0[j] == bt.string_id);
                                        }
                                        assert(all_ty(cargs@, bt.string_id));
                                    }
                                    assert(false);
                                }
                            }
                            return Err(e);
                        },
                    };
                    proof {
                        assert(custom_ok(code, tys_of(cargs@), cty, *bt)) by {
                            match code {
                                CustomInstructionCode::StrConcat => {
                                    assert forall|j: int|
                                        0 <= j < tys_of(cargs@).len() implies #[trigger] tys_of(
                                        cargs@,
                                    )[j] == bt.string_id by {
                                        assert(cargs@[j].ty == bt.string_id);
                                    }
                                },
                                CustomInstructionCode::Print => {
                                    assert forall|j: int|
                                        0 <= j < tys_of(cargs@).len() implies #[trigger] tys_of(
                                        cargs@,
                                    )[j] == bt.string_id by {
                                        assert(cargs@[j].ty == bt.string_id);
                                    }
                                },
                                CustomInstructionCode::Readline => {
                                    assert forall|j: int|
                                        0 <= j < tys_of(cargs@).len() implies #[trigger] tys_of(
                                        cargs@,
                                    )[j] == bt.string_id by {
                                        assert(cargs@[j].ty == bt.string_id);
                                    }
                                },
                                CustomInstructionCode::Identity => {
                                    assert(tys_of(cargs@)[0] == cargs@[0].ty);
                                },
                            }
                        }
                    }
                    let ghost gcargs = cargs@;
                    proof {
                        assert(env == scope_env(old(scope).entries()));
                        assert(scope.entries() == old(scope).entries());
                        assert(exprs_wf(gcargs, env, fs@, *bt));
                        assert(custom_ok(code, tys_of(gcargs), cty, *bt));
                        assert(new_entries_complete(fs@, old(fs)@));
                        assert(fs_extends(fs@, old(fs)@));
                        assert(store_ok(fs@, mi@, ts@, *bt));
                    }
                    proof {
                        if cft is Some {
                            let pp = cf_vals_tys(fc.args@, nt0, c0, *bt).unwrap();
                            assert(tys_of(gcargs) == pp.0);
                            if code is Identity {
                                assert(cty == gcargs[0].ty);
                                assert(tys_of(gcargs)[0] == gcargs[0].ty);
                            }
                            assert(cty == cft.unwrap().0);
                            assert(scope.spec_counter() == cft.unwrap().1);
                        }
                    }
                    return Ok(StaticExpression {
                        instr: Box::new(Instruction::Custom { code, args: cargs }),
                        ty: cty,
                    });
                },
                None => {},
            }
            // Resolve the called name.
            let path = &fc.function_name;
            if path.len() == 0 {
                return Err(CompilationError::Unsupported {
                    what: "a call needs a function name".to_owned(),
                });
            }
            let mut symbol_candidates = match resolve_symbol(
                mi,
                path,
                module,
                idmodule,
                imports,
                scope,
            ) {
                Ok(v) => v,
                Err(e) => {
                    return Err(e);
                },
            };
            if symbol_candidates.len() > 1 {
                return Err(CompilationError::AmbiguousOverload {
                    symbol: path[0].clone(),
                    count: symbol_candidates.len(),
                });
            }
            let symbol = match symbol_candidates.pop() {
                Some(sym) => sym,
                None => {
                    return Err(CompilationError::Find(FindError::NotFound(path[0].clone())));
                },
            };
            match symbol {
                Symbol::LocalVar { addr, ty } => {
                    if cargs.len() > 0 {
                        return Err(CompilationError::CallingVariable {
                            identifier: path[0].clone(),
                            file: filename.clone(),
                        });
                    }
                    proof {
                        crate::typing::lemma_scope_env_lookup(scope.entries(), path@[0]@);
                    }
                    Ok(Instruction::GetLocalVar(addr as usize).expr(ty))
                },
                Symbol::Global(symbol_id2) => {
                    if fuel == 0 {
                        return Err(CompilationError::Unsupported {
                            what: "the compilation depth limit was reached".to_owned(),
                        });
                    }
                    let mut argsty: Vec<TypeId> = Vec::new();
                    let mut j: usize = 0;
                    while j < cargs.len()
                        invariant
                            j <= cargs@.len(),
                            argsty@ =~= tys_of(cargs@).take(j as int),
                        decreases cargs@.len() - j,
                    {
                        argsty.push(cargs[j].ty);
                        proof {
                            assert(argsty@ =~= tys_of(cargs@).take(j + 1));
                        }
                        j += 1;
                    }
                    proof {
                        assert(argsty@ =~= tys_of(cargs@));
                    }
                    let ghost fs_pre_call = fs@;
                    let (func, fty) = match compile_symbol_fuelled(
                        mi,
                        bt,
                        ts,
                        fs,
                        &symbol_id2,
                        &argsty,
                        fuel - 1,
                    ) {
                        Ok(p) => p,
                        Err(e) => {
                            proof {
                                lemma_fs_extends_trans(fs0, fs_pre_call, fs@);
                            }
                            return Err(e);
                        },
                    };
                    proof {
                        lemma_fs_extends_trans(fs0, fs_pre_call, fs@);
                        lemma_new_entries_complete_trans(fs0, fs_pre_call, fs@);
                        lemma_fs_extends_refines(fs@, fs_pre_call);
                        assert forall|k: int| 0 <= k < cargs@.len() implies expr_wf(
                            #[trigger] cargs@[k],
                            env,
                            fs@,
                            *bt,
                        ) by {
                            lemma_expr_wf_refines(cargs@[k], env, fs_pre_call, fs@, *bt);
                        }
                        assert(info_args(fs@[func as int].1) == fs@[func as int].0.1);
                        assert(info_args(fs@[func as int].1) == tys_of(cargs@));
                    }
                    let ghost gcargs = cargs@;
                    proof {
                        assert(exprs_wf(gcargs, env, fs@, *bt));
                        assert(func < fs@.len());
                        assert(info_args(fs@[func as int].1) == tys_of(gcargs));
                        assert(info_ret(fs@[func as int].1) == Some(fty));
                        assert(new_entries_complete(fs@, old(fs)@));
                        assert(scope.entries() == old(scope).entries());
                    }
                    Ok(Instruction::FunctionCall { func, args: cargs }.expr(fty))
                },
            }
        },
    }
}

/// Compile a value position: a literal, an identifier, or a
/// transparent one-element tuple.
fn compile_value(
    mi: &ModuleMap,
    bt: &BuildinTypeId,
    ts: &TypeStore,
    fs: &mut FunctionStore,
    v: &AstValue,
    module: &Module,
    idmodule: &IdPath,
    imports: &SymbolResolver,
    filename: &String,
    scope: &mut Scope,
    fuel: u64,
) -> (r: Result<StaticExpression, CompilationError>)
    requires
        mi.wf(),
        module.wf(),
        old(scope).wf(),
        store_ok(old(fs)@, mi@, ts@, *bt),
    ensures
        fs_extends(final(fs)@, old(fs)@),
        store_ok(final(fs)@, mi@, ts@, *bt),
        final(scope).wf(),
        final(scope).spec_counter() >= old(scope).spec_counter(),
        match r {
            Ok(e) => {
                &&& final(scope).entries() == old(scope).entries()
                &&& expr_wf(e, scope_env(old(scope).entries()), final(fs)@, *bt)
                &&& new_entries_complete(final(fs)@, old(fs)@)
            },
            Err(_) => true,
        },
        value_shape_ok(*v, old(scope).entries(), *bt, r),
        cf_value_ty(*v, name_tys(old(scope).entries()), old(scope).spec_counter(), *bt)
            matches Some(p) ==> (r matches Ok(e) && e.ty == p.0 && final(scope).spec_counter()
            == p.1),
    decreases fuel, 1int, *v,
{
    match v {
        AstValue::Literal(lit) => compile_constant_value(lit, bt),
        AstValue::FullIdentifier(p) => {
            proof {
                if p@.len() == 1 {
                    lemma_nt_lookup(old(scope).entries(), p@[0]@);
                }
            }
            if p.len() != 1 {
                return Err(CompilationError::Unsupported {
                    what: "field access is not supported yet".to_owned(),
                });
            }
            let mut symbols = match resolve_symbol(mi, p, module, idmodule, imports, scope) {
                Ok(v2) => v2,
                Err(e) => {
                    return Err(e);
                },
            };
            if symbols.len() > 1 {
                return Err(CompilationError::AmbiguousOverload {
                    symbol: p[0].clone(),
                    count: symbols.len(),
                });
            }
            let symbol = match symbols.pop() {
                Some(sym) => sym,
                None => {
                    return Err(CompilationError::Find(FindError::NotFound(p[0].clone())));
                },
            };
            match symbol {
                Symbol::LocalVar { addr, ty } => {
                    proof {
                        crate::typing::lemma_scope_env_lookup(scope.entries(), p@[0]@);
                    }
                    Ok(Instruction::GetLocalVar(addr as usize).expr(ty))
                },
                Symbol::Global(_) => Err(CompilationError::Unsupported {
                    what: "referencing a function by name without a call is not supported yet"
                        .to_owned(),
                }),
            }
        },
        AstValue::Tuple(exprs) => {
            if exprs.len() != 1 {
                return Err(CompilationError::Unsupported {
                    what: "tuple values are not ready yet".to_owned(),
                });
            }
            proof {
                let ev = v->Tuple_0;
                assert(decreases_to!(*v => ev));
                assert(decreases_to!(ev => ev@[0]));
                assert(decreases_to!(*v => exprs@[0]));
            }
            compile_full_expression(
                mi,
                bt,
                ts,
                fs,
                &exprs[0],
                module,
                idmodule,
                imports,
                filename,
                scope,
                fuel,
            )
        },
    }
}

// ---------------------------------------------------------------------
// The compiler context

/// Fuel bound for the recursive compilation; deep enough for any
/// realistic program.
pub const COMPILE_FUEL: u64 = 0xFFFF_FFFF_FFFF_FFFF;

/// The global compilation state: all loaded projects and modules, the
/// linked built-in type ids, the interned types, and the memoized
/// function store.
pub struct CompilerContext {
    /// Information about all loaded dependencies and sub-dependencies.
    pub project_info: ProjectInfo,
    /// All syntax trees across all modules and dependencies.
    pub module_info: ModuleMap,
    /// Ids of the built-in types.
    pub buildin_types: BuildinTypeId,
    /// Static, concrete type information.
    pub types: TypeStore,
    /// Every compiled specialization.
    pub functions: FunctionStore,
}

impl CompilerContext {
    /// The invariant of a context: the module table is well-formed
    /// and the function store honours the typing rules.
    pub open spec fn inv(self) -> bool {
        &&& self.module_info.wf()
        &&& store_ok(self.functions@, self.module_info@, self.types@, self.buildin_types)
    }

    /// Build a context: link the built-in types of the standard
    /// library and start with an empty function store.
    pub fn new(project_info: ProjectInfo, module_info: ModuleMap) -> (r: Result<
        CompilerContext,
        crate::types::LinkError,
    >)
        requires
            module_info.wf(),
        ensures
            match r {
                Ok(c) => {
                    &&& c.inv()
                    &&& c.project_info == project_info
                    &&& c.module_info == module_info
                    &&& c.functions@.len() == 0
                    &&& {
                        let decls = crate::types::global_builtin_decls(module_info@);
                        &&& crate::types::store_matches(c.types@, decls)
                        &&& crate::types::ids_match(c.buildin_types, decls)
                    }
                },
                Err(e) => exists|k: int|
                    {
                        &&& 0 <= k < crate::types::global_builtin_decls(module_info@).len()
                        &&& !crate::types::decl_ok(
                            #[trigger] crate::types::global_builtin_decls(module_info@)[k],
                        )
                        &&& forall|j: int|
                            0 <= j < k ==> crate::types::decl_ok(
                                #[trigger] crate::types::global_builtin_decls(module_info@)[j],
                            )
                        &&& match e {
                            crate::types::LinkError::GenericBuildin { name } => {
                                &&& crate::types::global_builtin_decls(module_info@)[k].4
                                &&& name@ == crate::types::global_builtin_decls(module_info@)[k].3
                            },
                            crate::types::LinkError::UnrecognizedBuildin { name } => {
                                &&& !crate::types::global_builtin_decls(module_info@)[k].4
                                &&& !crate::types::builtin_name_ok(
                                    crate::types::global_builtin_decls(module_info@)[k].3,
                                )
                                &&& name@ == crate::types::global_builtin_decls(module_info@)[k].3
                            },
                        }
                    },
            },
    {
        let (types, buildin_types) = match crate::types::link_buildin_types(&module_info) {
            Ok(p) => p,
            Err(e) => {
                return Err(e);
            },
        };
        let functions = FunctionStore::new();
        Ok(CompilerContext { project_info, module_info, buildin_types, types, functions })
    }

    /// Resolve a module by its path.
    pub fn resolve_module(&self, idpath: &IdPath) -> (r: Result<&Module, FindError>)
        ensures
            match r {
                Ok(m) => mm_lookup(self.module_info@, idpath.deep_view()) == Some(*m),
                Err(e) => {
                    &&& mm_lookup(self.module_info@, idpath.deep_view()) is None
                    &&& e matches FindError::ModuleNotFound(p) && p.deep_view() == idpath
                        .deep_view()
                },
            },
    {
        match self.module_info.get(idpath) {
            Some(m) => Ok(m),
            None => Err(FindError::ModuleNotFound(clone_path(idpath))),
        }
    }

    /// The syntax item a symbol id points at, together with its module
    /// and file.
    pub fn get_symbol(&self, symbol_id: &SymbolId) -> (r: Option<(
        &Module,
        &crate::modules::FileInfo,
        &BodyItem,
    )>)
        ensures
            match r {
                Some(t) => crate::typing::symbol_item(self.module_info@, symbol_id_view(*symbol_id))
                    == Some(*t.2),
                None => crate::typing::symbol_item(self.module_info@, symbol_id_view(*symbol_id))
                    is None,
            },
    {
        let module = match self.module_info.get(&symbol_id.0) {
            Some(m) => m,
            None => {
                return None;
            },
        };
        let file = symbol_id.1 as usize;
        if file >= module.files.len() {
            return None;
        }
        let fileinfo = &module.files[file];
        let idx: usize = match symbol_id.2 {
            IdItem::Func(i) => i as usize,
            IdItem::GlobalVar(i) => i as usize,
            IdItem::Type(i) => i as usize,
            IdItem::Method(_, _) => {
                return None;
            },
        };
        if idx >= fileinfo.ast.items.len() {
            return None;
        }
        Some((module, fileinfo, &fileinfo.ast.items[idx]))
    }

    /// Find the `main` function of the target project: there must be
    /// exactly one symbol of that name in the target's root module.
    pub fn find_target_main(&self) -> (r: Result<SymbolId, FindError>)
        requires
            self.inv(),
        ensures
            match r {
                Ok(sid) => mm_lookup(self.module_info@, seq!["self"@]) matches Some(m) && {
                    let hits = module_hits(m.files@, "main"@);
                    &&& hits.len() == 1
                    &&& sid.0.deep_view() == seq!["self"@]
                    &&& sid.1 == hits[0].0
                    &&& sid.2 == hits[0].1
                },
                Err(e) => match e {
                    FindError::ModuleNotFound(_) => mm_lookup(self.module_info@, seq!["self"@])
                        is None,
                    FindError::NotFound(s) => s@ == "main"@ && (mm_lookup(
                        self.module_info@,
                        seq!["self"@],
                    ) matches Some(m) && module_hits(m.files@, "main"@).len() == 0),
                    FindError::TooMany { symbol, .. } => symbol@ == "main"@ && (mm_lookup(
                        self.module_info@,
                        seq!["self"@],
                    ) matches Some(m) && module_hits(m.files@, "main"@).len() > 1),
                },
            },
    {
        let path = crate::util::target_id();
        let module = match self.module_info.get(&path) {
            Some(m) => m,
            None => {
                return Err(FindError::ModuleNotFound(path));
            },
        };
        proof {
            crate::project::lemma_mm_lookup_wf(self.module_info, path.deep_view());
        }
        let mut candidates = match module.find(&"main".to_owned(), &path) {
            Ok(v) => v,
            Err(e) => {
                return Err(e);
            },
        };
        if candidates.len() != 1 {
            return Err(FindError::TooMany { symbol: "main".to_owned(), module: path });
        }
        match candidates.pop() {
            Some(sid) => Ok(sid),
            None => Err(FindError::NotFound("main".to_owned())),
        }
    }

    /// Compile a symbol for the given argument types.  The result is
    /// memoized: a stored specialization is returned as it stands and
    /// the store stays untouched, so the store grows monotonically
    /// and only by complete entries.  A failed compile leaves no
    /// complete entry under the requested key behind; a symbol that
    /// is no function, or a signature that does not fit the argument
    /// types, is rejected with the matching error; and a function
    /// whose body needs no symbol resolution beyond its own scope and
    /// the built-ins compiles outright.
    pub fn compile_symbol(&mut self, symbol_id: &SymbolId, args: &Vec<TypeId>) -> (r: Result<
        (FunctionId, TypeId),
        CompilationError,
    >)
        requires
            old(self).inv(),
        ensures
            final(self).inv(),
            final(self).project_info == old(self).project_info,
            final(self).module_info == old(self).module_info,
            final(self).buildin_types == old(self).buildin_types,
            final(self).types == old(self).types,
            fs_extends(final(self).functions@, old(self).functions@),
            fs_find(old(self).functions@, (symbol_id_view(*symbol_id), args@)) is Some
                ==> final(self).functions@ == old(self).functions@,
            match fs_find(old(self).functions@, (symbol_id_view(*symbol_id), args@)) {
                Some(i) => match info_ret(old(self).functions@[i].1) {
                    Some(t) => r matches Ok(p) && p.0 == i && p.1 == t,
                    None => r matches Err(e) && e is RecursionWithoutReturnType,
                },
                None => dispatch_checks_ok(
                    old(self).module_info@,
                    old(self).types@,
                    symbol_id_view(*symbol_id),
                    args@,
                    r,
                ) && (match crate::typing::symbol_item(old(self).module_info@, symbol_id_view(*symbol_id)) {
                Some(item) => match item {
                    BodyItem::Function(f) => cf_full_ty(
                        f.body,
                        params_nt(f.params@, args@),
                        args@.len() as u16,
                        old(self).buildin_types,
                    ) matches Some(p) ==> ((decl_ret_resolvable(f, old(self).types@) && f.params@.len()
                        == args@.len() && args@.len() < 65535 && param_first_bad(
                        f.params@,
                        old(self).types@,
                        args@,
                    ) is None && (match f.ret_type {
                        Some(n) => type_name_find(old(self).types@, n@) == Some(p.0 as int),
                        None => true,
                    })) ==> (r matches Ok(q) && q.1 == p.0)),
                    _ => true,
                },
                None => true,
            }),
            },
            r is Err ==> (fs_find(final(self).functions@, (symbol_id_view(*symbol_id), args@))
                matches Some(i) ==> final(self).functions@[i].1 is Partial),
            match r {
                Ok(p) => {
                    &&& p.0 < final(self).functions@.len()
                    &&& final(self).functions@[p.0 as int].0 == (
                        symbol_id_view(*symbol_id),
                        args@,
                    )
                    &&& info_ret(final(self).functions@[p.0 as int].1) == Some(p.1)
                    &&& fs_find(final(self).functions@, (symbol_id_view(*symbol_id), args@))
                        == Some(p.0 as int)
                    &&& new_entries_complete(final(self).functions@, old(self).functions@)
                },
                Err(_) => true,
            },
    {
        compile_symbol_fuelled(
            &self.module_info,
            &self.buildin_types,
            &self.types,
            &mut self.functions,
            symbol_id,
            args,
            COMPILE_FUEL,
        )
    }
}

} // verus!
