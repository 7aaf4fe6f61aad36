use solar_front::ast::{
    Ast, AstFunction, AstParam, AstValue, BodyItem, BuildinTypeDecl, Expression, FullExpression,
    FunctionCallExpr, IntLiteral, LetExpression, Literal,
};
use solar_front::compiler::CompilerContext;
use solar_front::error::CompilationError;
use solar_front::mir::{CustomInstructionCode, Instruction};
use solar_front::modules::{FileInfo, Module, SymbolResolver};
use solar_front::project::{ModuleMap, ProjectInfo};
use solar_front::store::FunctionInfo;
use solar_front::ast::FloatLiteral;
use solar_front::value::{Int, Value};

fn s(x: &str) -> String {
    x.to_string()
}

fn std_module() -> (Vec<String>, Module) {
    let names = [
        "Bool", "Int8", "Int16", "Int32", "Int", "Uint8", "Uint16", "Uint32", "Uint", "Float32",
        "Float", "String",
    ];
    let items: Vec<BodyItem> = names
        .iter()
        .map(|n| {
            BodyItem::BuildinTypeDecl(BuildinTypeDecl { name: s(n), has_generics: false })
        })
        .collect();
    let file = FileInfo {
        filename: s("types.sol"),
        imports: SymbolResolver::new(),
        ast: Ast { imports: Vec::new(), items },
    };
    let path = vec![s("std(solar-lang)"), s("0.1.0"), s("types")];
    (path, Module { project_id: 0, files: vec![file] })
}

fn target_module(items: Vec<BodyItem>, imports: SymbolResolver) -> (Vec<String>, Module) {
    let file = FileInfo {
        filename: s("main.sol"),
        imports,
        ast: Ast { imports: Vec::new(), items },
    };
    (vec![s("self")], Module { project_id: 1, files: vec![file] })
}

fn context_with(items: Vec<BodyItem>, imports: SymbolResolver) -> CompilerContext {
    let mut mm = ModuleMap::new();
    let (sp, sm) = std_module();
    mm.insert(sp, sm);
    let (tp, tm) = target_module(items, imports);
    mm.insert(tp, tm);
    CompilerContext::new(ProjectInfo::new(), mm).expect("link builtin types")
}

fn string_lit(text: &str) -> AstValue {
    AstValue::Literal(Literal::StringLiteral(s(text)))
}

fn int_lit(digits: &str) -> AstValue {
    AstValue::Literal(Literal::Int(IntLiteral { digits: s(digits), radix: 10, type_suffix: None }))
}

fn call(name: &str, args: Vec<AstValue>) -> FullExpression {
    FullExpression::Expression(Expression::FunctionCall(FunctionCallExpr {
        function_name: vec![s(name)],
        args,
    }))
}

fn main_fn(body: FullExpression) -> BodyItem {
    BodyItem::Function(AstFunction { name: s("main"), params: Vec::new(), ret_type: None, body })
}

#[test]
fn hello_world_compiles_to_print_opcode() {
    let body = call("buildin_print", vec![string_lit("hello\n")]);
    let mut ctx = context_with(vec![main_fn(body)], SymbolResolver::new());
    let main_id = ctx.find_target_main().expect("find main");
    let (fid, ret) = ctx.compile_symbol(&main_id, &Vec::new()).expect("compile");
    assert_eq!(ret, ctx.buildin_types.uint_id);
    assert_eq!(ctx.functions.len(), 1);
    match ctx.functions.get_by_index(fid).expect("entry") {
        FunctionInfo::Complete { args, body } => {
            assert!(args.is_empty());
            assert_eq!(body.ty, ctx.buildin_types.uint_id);
            match &*body.instr {
                Instruction::Custom { code, args } => {
                    assert_eq!(*code, CustomInstructionCode::Print);
                    assert_eq!(args.len(), 1);
                    assert_eq!(args[0].ty, ctx.buildin_types.string_id);
                    match &*args[0].instr {
                        Instruction::Const(Value::String(v)) => assert_eq!(v, "hello\n"),
                        other => panic!("unexpected argument {:?}", other),
                    }
                },
                other => panic!("unexpected body {:?}", other),
            }
        },
        other => panic!("expected a complete entry, got {:?}", other),
    }
}

#[test]
fn let_chain_types_every_node() {
    // main = let x = 7, y = "a" in buildin_print y
    let body = FullExpression::Let(Box::new(LetExpression {
        definitions: vec![
            (s("x"), FullExpression::Expression(Expression::Value(int_lit("7")))),
            (s("y"), FullExpression::Expression(Expression::Value(string_lit("a")))),
        ],
        body: call("buildin_print", vec![AstValue::FullIdentifier(vec![s("y")])]),
    }));
    let mut ctx = context_with(vec![main_fn(body)], SymbolResolver::new());
    let main_id = ctx.find_target_main().expect("find main");
    let (fid, ret) = ctx.compile_symbol(&main_id, &Vec::new()).expect("compile");
    assert_eq!(ret, ctx.buildin_types.uint_id);
    let uint = ctx.buildin_types.uint_id;
    let int = ctx.buildin_types.int_id;
    let string = ctx.buildin_types.string_id;
    match ctx.functions.get_by_index(fid).expect("entry") {
        FunctionInfo::Complete { body, .. } => {
            assert_eq!(body.ty, uint);
            match &*body.instr {
                Instruction::NewLocalVar { var_index, var_value, body } => {
                    assert_eq!(*var_index, 0);
                    assert_eq!(var_value.ty, int);
                    match &*var_value.instr {
                        Instruction::Const(Value::Int(Int::Int64(7))) => {},
                        other => panic!("unexpected x value {:?}", other),
                    }
                    assert_eq!(body.ty, uint);
                    match &*body.instr {
                        Instruction::NewLocalVar { var_index, var_value, body } => {
                            assert_eq!(*var_index, 1);
                            assert_eq!(var_value.ty, string);
                            assert_eq!(body.ty, uint);
                            match &*body.instr {
                                Instruction::Custom { code, args } => {
                                    assert_eq!(*code, CustomInstructionCode::Print);
                                    assert_eq!(args.len(), 1);
                                    assert_eq!(args[0].ty, string);
                                    match &*args[0].instr {
                                        Instruction::GetLocalVar(1) => {},
                                        other => panic!("unexpected read {:?}", other),
                                    }
                                },
                                other => panic!("unexpected inner body {:?}", other),
                            }
                        },
                        other => panic!("unexpected second binding {:?}", other),
                    }
                },
                other => panic!("unexpected body {:?}", other),
            }
        },
        other => panic!("expected a complete entry, got {:?}", other),
    }
}

#[test]
fn recompiling_main_leaves_the_store_unchanged() {
    let body = call("buildin_print", vec![string_lit("x")]);
    let mut ctx = context_with(vec![main_fn(body)], SymbolResolver::new());
    let main_id = ctx.find_target_main().expect("find main");
    let (fid1, ty1) = ctx.compile_symbol(&main_id, &Vec::new()).expect("compile once");
    let before = ctx.functions.len();
    let (fid2, ty2) = ctx.compile_symbol(&main_id, &Vec::new()).expect("compile twice");
    assert_eq!(ctx.functions.len(), before);
    assert_eq!(fid1, fid2);
    assert_eq!(ty1, ty2);
}

#[test]
fn two_imported_overloads_are_ambiguous() {
    // Two modules each declare `add`; the import table registers both.
    // The stated policy narrows only to a single candidate and
    // reports an ambiguous overload otherwise.
    let mut mm = ModuleMap::new();
    let (sp, sm) = std_module();
    mm.insert(sp, sm);
    for module in ["a", "b"] {
        let f = BodyItem::Function(AstFunction {
            name: s("add"),
            params: vec![
                AstParam { name: s("x"), ty: Some(s("Int")) },
                AstParam { name: s("y"), ty: Some(s("Int")) },
            ],
            ret_type: Some(s("Int")),
            body: FullExpression::Expression(Expression::Value(AstValue::FullIdentifier(vec![
                s("x"),
            ]))),
        });
        let file = FileInfo {
            filename: s("lib.sol"),
            imports: SymbolResolver::new(),
            ast: Ast { imports: Vec::new(), items: vec![f] },
        };
        mm.insert(vec![s("libx()"), s("1"), s(module)], Module { project_id: 0, files: vec![file] });
    }
    let mut imports = SymbolResolver::new();
    imports.add(s("add"), vec![s("libx()"), s("1"), s("a")]);
    imports.add(s("add"), vec![s("libx()"), s("1"), s("b")]);
    let body = call("add", vec![int_lit("1"), int_lit("2")]);
    let (tp, tm) = target_module(vec![main_fn(body)], imports);
    mm.insert(tp, tm);
    let mut ctx = CompilerContext::new(ProjectInfo::new(), mm).expect("link");
    let main_id = ctx.find_target_main().expect("find main");
    match ctx.compile_symbol(&main_id, &Vec::new()) {
        Err(CompilationError::AmbiguousOverload { symbol, count }) => {
            assert_eq!(symbol, "add");
            assert_eq!(count, 2);
        },
        other => panic!("expected an ambiguous overload, got {:?}", other),
    }
}

#[test]
fn one_imported_function_is_called_and_memoized() {
    let mut mm = ModuleMap::new();
    let (sp, sm) = std_module();
    mm.insert(sp, sm);
    let f = BodyItem::Function(AstFunction {
        name: s("shout"),
        params: vec![AstParam { name: s("msg"), ty: Some(s("String")) }],
        ret_type: Some(s("Uint")),
        body: call("buildin_print", vec![AstValue::FullIdentifier(vec![s("msg")])]),
    });
    let file = FileInfo {
        filename: s("lib.sol"),
        imports: SymbolResolver::new(),
        ast: Ast { imports: Vec::new(), items: vec![f] },
    };
    mm.insert(vec![s("libx()"), s("1"), s("a")], Module { project_id: 0, files: vec![file] });
    let mut imports = SymbolResolver::new();
    imports.add(s("shout"), vec![s("libx()"), s("1"), s("a")]);
    let body = call("shout", vec![string_lit("hi")]);
    let (tp, tm) = target_module(vec![main_fn(body)], imports);
    mm.insert(tp, tm);
    let mut ctx = CompilerContext::new(ProjectInfo::new(), mm).expect("link");
    let main_id = ctx.find_target_main().expect("find main");
    let (fid, ret) = ctx.compile_symbol(&main_id, &Vec::new()).expect("compile");
    assert_eq!(ret, ctx.buildin_types.uint_id);
    // main plus the imported callee
    assert_eq!(ctx.functions.len(), 2);
    match ctx.functions.get_by_index(fid).expect("main entry") {
        FunctionInfo::Complete { body, .. } => match &*body.instr {
            Instruction::FunctionCall { func, args } => {
                assert_eq!(args.len(), 1);
                match ctx.functions.get_by_index(*func).expect("callee") {
                    FunctionInfo::Complete { args, body } => {
                        assert_eq!(args.as_slice(), &[ctx.buildin_types.string_id]);
                        assert_eq!(body.ty, ctx.buildin_types.uint_id);
                    },
                    other => panic!("expected complete callee, got {:?}", other),
                }
            },
            other => panic!("expected a call, got {:?}", other),
        },
        other => panic!("expected complete main, got {:?}", other),
    }
}

#[test]
fn recursion_with_declared_return_type_compiles_once() {
    // again(n: Int): Int = again n
    let again = BodyItem::Function(AstFunction {
        name: s("again"),
        params: vec![AstParam { name: s("n"), ty: Some(s("Int")) }],
        ret_type: Some(s("Int")),
        body: call("again", vec![AstValue::FullIdentifier(vec![s("n")])]),
    });
    let body = call("again", vec![int_lit("3")]);
    let mut ctx = context_with(vec![main_fn(body), again], SymbolResolver::new());
    let main_id = ctx.find_target_main().expect("find main");
    let (_fid, ret) = ctx.compile_symbol(&main_id, &Vec::new()).expect("compile");
    assert_eq!(ret, ctx.buildin_types.int_id);
    // main plus exactly one specialization of `again`
    assert_eq!(ctx.functions.len(), 2);
    let mut complete = 0;
    for i in 0..ctx.functions.len() {
        match ctx.functions.get_by_index(i).expect("entry") {
            FunctionInfo::Complete { .. } => complete += 1,
            FunctionInfo::Partial { .. } => {},
        }
    }
    assert_eq!(complete, 2);
}

#[test]
fn recursion_without_return_type_is_rejected() {
    let again = BodyItem::Function(AstFunction {
        name: s("again"),
        params: vec![AstParam { name: s("n"), ty: Some(s("Int")) }],
        ret_type: None,
        body: call("again", vec![AstValue::FullIdentifier(vec![s("n")])]),
    });
    let body = call("again", vec![int_lit("3")]);
    let mut ctx = context_with(vec![main_fn(body), again], SymbolResolver::new());
    let main_id = ctx.find_target_main().expect("find main");
    match ctx.compile_symbol(&main_id, &Vec::new()) {
        Err(CompilationError::RecursionWithoutReturnType) => {},
        other => panic!("expected the recursion error, got {:?}", other),
    }
}

#[test]
fn printing_an_int_is_a_type_error() {
    let body = call("buildin_print", vec![int_lit("5")]);
    let mut ctx = context_with(vec![main_fn(body)], SymbolResolver::new());
    let main_id = ctx.find_target_main().expect("find main");
    match ctx.compile_symbol(&main_id, &Vec::new()) {
        Err(CompilationError::TypeError { got, wanted }) => {
            assert_eq!(got, "Int");
            assert_eq!(wanted, "String");
        },
        other => panic!("expected a type error, got {:?}", other),
    }
}

#[test]
fn unknown_buildin_is_rejected() {
    let body = call("buildin_warp", vec![]);
    let mut ctx = context_with(vec![main_fn(body)], SymbolResolver::new());
    let main_id = ctx.find_target_main().expect("find main");
    match ctx.compile_symbol(&main_id, &Vec::new()) {
        Err(CompilationError::WrongBuildin { found }) => assert_eq!(found, "buildin_warp"),
        other => panic!("expected a wrong-buildin error, got {:?}", other),
    }
}

#[test]
fn calling_a_variable_with_arguments_is_rejected() {
    let body = FullExpression::Let(Box::new(LetExpression {
        definitions: vec![(s("f"), FullExpression::Expression(Expression::Value(int_lit("1"))))],
        body: call("f", vec![int_lit("2")]),
    }));
    let mut ctx = context_with(vec![main_fn(body)], SymbolResolver::new());
    let main_id = ctx.find_target_main().expect("find main");
    match ctx.compile_symbol(&main_id, &Vec::new()) {
        Err(CompilationError::CallingVariable { identifier, .. }) => assert_eq!(identifier, "f"),
        other => panic!("expected a calling-variable error, got {:?}", other),
    }
}

#[test]
fn builtin_type_ids_are_pairwise_distinct() {
    let ctx = context_with(Vec::new(), SymbolResolver::new());
    let b = &ctx.buildin_types;
    let ids = [
        b.bool_id, b.int8_id, b.int16_id, b.int32_id, b.int_id, b.uint8_id, b.uint16_id,
        b.uint32_id, b.uint_id, b.float32_id, b.float_id, b.string_id,
    ];
    for i in 0..ids.len() {
        for j in (i + 1)..ids.len() {
            assert_ne!(ids[i], ids[j], "ids {} and {} collide", i, j);
        }
        assert!(ids[i] < ctx.types.len());
    }
    assert_eq!(ctx.types.len(), 12);
}

#[test]
fn missing_main_is_reported() {
    let mut ctx = context_with(Vec::new(), SymbolResolver::new());
    match ctx.find_target_main() {
        Err(solar_front::modules::FindError::NotFound(name)) => assert_eq!(name, "main"),
        other => panic!("expected not-found, got {:?}", other),
    }
    let _ = &mut ctx;
}

#[test]
fn identity_keeps_the_argument_type() {
    let body = call("buildin_identity", vec![int_lit("9")]);
    let mut ctx = context_with(vec![main_fn(body)], SymbolResolver::new());
    let main_id = ctx.find_target_main().expect("find main");
    let (_fid, ret) = ctx.compile_symbol(&main_id, &Vec::new()).expect("compile");
    assert_eq!(ret, ctx.buildin_types.int_id);
}

#[test]
fn str_concat_returns_a_string() {
    let body = call("buildin_str_concat", vec![string_lit("a"), string_lit("b")]);
    let mut ctx = context_with(vec![main_fn(body)], SymbolResolver::new());
    let main_id = ctx.find_target_main().expect("find main");
    let (_fid, ret) = ctx.compile_symbol(&main_id, &Vec::new()).expect("compile");
    assert_eq!(ret, ctx.buildin_types.string_id);
}

#[test]
fn readline_takes_at_most_one_prompt() {
    let body = call("buildin_readline", vec![string_lit("a"), string_lit("b")]);
    let mut ctx = context_with(vec![main_fn(body)], SymbolResolver::new());
    let main_id = ctx.find_target_main().expect("find main");
    match ctx.compile_symbol(&main_id, &Vec::new()) {
        Err(CompilationError::WrongBuildin { .. }) => {},
        other => panic!("expected a wrong-buildin error, got {:?}", other),
    }
    let body = call("buildin_readline", vec![string_lit("? ")]);
    let mut ctx = context_with(vec![main_fn(body)], SymbolResolver::new());
    let main_id = ctx.find_target_main().expect("find main");
    let (_fid, ret) = ctx.compile_symbol(&main_id, &Vec::new()).expect("compile");
    assert_eq!(ret, ctx.buildin_types.string_id);
}

#[test]
fn capitalized_buildin_prefix_also_dispatches() {
    let body = call("Buildin_print", vec![string_lit("x")]);
    let mut ctx = context_with(vec![main_fn(body)], SymbolResolver::new());
    let main_id = ctx.find_target_main().expect("find main");
    let (_fid, ret) = ctx.compile_symbol(&main_id, &Vec::new()).expect("compile");
    assert_eq!(ret, ctx.buildin_types.uint_id);
}

#[test]
fn one_element_tuples_are_transparent() {
    let inner = call("buildin_print", vec![string_lit("t")]);
    let body = FullExpression::Expression(Expression::FunctionCall(FunctionCallExpr {
        function_name: vec![s("buildin_identity")],
        args: vec![AstValue::Tuple(vec![inner])],
    }));
    let mut ctx = context_with(vec![main_fn(body)], SymbolResolver::new());
    let main_id = ctx.find_target_main().expect("find main");
    let (_fid, ret) = ctx.compile_symbol(&main_id, &Vec::new()).expect("compile");
    assert_eq!(ret, ctx.buildin_types.uint_id);
}

#[test]
fn float_literals_carry_their_bit_pattern() {
    let bits = 1.5f64.to_bits();
    let body = call(
        "buildin_identity",
        vec![AstValue::Literal(Literal::Float(FloatLiteral { text: s("1.5"), bits: Some(bits) }))],
    );
    let mut ctx = context_with(vec![main_fn(body)], SymbolResolver::new());
    let main_id = ctx.find_target_main().expect("find main");
    let (fid, ret) = ctx.compile_symbol(&main_id, &Vec::new()).expect("compile");
    assert_eq!(ret, ctx.buildin_types.float_id);
    match ctx.functions.get_by_index(fid).expect("entry") {
        FunctionInfo::Complete { body, .. } => match &*body.instr {
            Instruction::Custom { args, .. } => match &*args[0].instr {
                Instruction::Const(Value::Float(b)) => assert_eq!(*b, bits),
                other => panic!("unexpected constant {:?}", other),
            },
            other => panic!("unexpected body {:?}", other),
        },
        other => panic!("expected complete main, got {:?}", other),
    }
}

#[test]
fn an_unparseable_float_is_a_conversion_error() {
    let body = call(
        "buildin_identity",
        vec![AstValue::Literal(Literal::Float(FloatLiteral { text: s("1.5x"), bits: None }))],
    );
    let mut ctx = context_with(vec![main_fn(body)], SymbolResolver::new());
    let main_id = ctx.find_target_main().expect("find main");
    match ctx.compile_symbol(&main_id, &Vec::new()) {
        Err(CompilationError::FloatConversion { literal }) => assert_eq!(literal, "1.5x"),
        other => panic!("expected a float conversion error, got {:?}", other),
    }
}

#[test]
fn a_declared_return_type_is_enforced() {
    // wrong(): Int = "nope"
    let wrong = BodyItem::Function(AstFunction {
        name: s("wrong"),
        params: Vec::new(),
        ret_type: Some(s("Int")),
        body: FullExpression::Expression(Expression::Value(string_lit("nope"))),
    });
    let body = call("wrong", vec![]);
    let mut ctx = context_with(vec![main_fn(body), wrong], SymbolResolver::new());
    let main_id = ctx.find_target_main().expect("find main");
    match ctx.compile_symbol(&main_id, &Vec::new()) {
        Err(CompilationError::TypeError { got, wanted }) => {
            assert_eq!(got, "String");
            assert_eq!(wanted, "Int");
        },
        other => panic!("expected a type error, got {:?}", other),
    }
}

#[test]
fn a_declared_parameter_type_is_enforced() {
    // twice(n: Int) = n, called with a string
    let twice = BodyItem::Function(AstFunction {
        name: s("twice"),
        params: vec![AstParam { name: s("n"), ty: Some(s("Int")) }],
        ret_type: None,
        body: FullExpression::Expression(Expression::Value(AstValue::FullIdentifier(vec![s("n")]))),
    });
    let body = call("twice", vec![string_lit("oops")]);
    let mut ctx = context_with(vec![main_fn(body), twice], SymbolResolver::new());
    let main_id = ctx.find_target_main().expect("find main");
    match ctx.compile_symbol(&main_id, &Vec::new()) {
        Err(CompilationError::TypeError { got, wanted }) => {
            assert_eq!(got, "String");
            assert_eq!(wanted, "Int");
        },
        other => panic!("expected a type error, got {:?}", other),
    }
}

#[test]
fn the_wrong_number_of_arguments_is_reported() {
    let one = BodyItem::Function(AstFunction {
        name: s("one"),
        params: vec![AstParam { name: s("n"), ty: None }],
        ret_type: None,
        body: FullExpression::Expression(Expression::Value(AstValue::FullIdentifier(vec![s("n")]))),
    });
    let body = call("one", vec![int_lit("1"), int_lit("2")]);
    let mut ctx = context_with(vec![main_fn(body), one], SymbolResolver::new());
    let main_id = ctx.find_target_main().expect("find main");
    match ctx.compile_symbol(&main_id, &Vec::new()) {
        Err(CompilationError::ArityMismatch { declared, supplied }) => {
            assert_eq!(declared, 1);
            assert_eq!(supplied, 2);
        },
        other => panic!("expected an arity error, got {:?}", other),
    }
}

#[test]
fn field_access_paths_are_not_supported_yet() {
    let body = FullExpression::Expression(Expression::FunctionCall(FunctionCallExpr {
        function_name: vec![s("buildin_identity")],
        args: vec![AstValue::FullIdentifier(vec![s("point"), s("x")])],
    }));
    let mut ctx = context_with(vec![main_fn(body)], SymbolResolver::new());
    let main_id = ctx.find_target_main().expect("find main");
    match ctx.compile_symbol(&main_id, &Vec::new()) {
        Err(CompilationError::Unsupported { .. }) => {},
        other => panic!("expected an unsupported error, got {:?}", other),
    }
}

#[test]
fn an_unknown_call_target_is_not_found() {
    let body = call("nowhere", vec![]);
    let mut ctx = context_with(vec![main_fn(body)], SymbolResolver::new());
    let main_id = ctx.find_target_main().expect("find main");
    match ctx.compile_symbol(&main_id, &Vec::new()) {
        Err(CompilationError::Find(solar_front::modules::FindError::NotFound(n))) => {
            assert_eq!(n, "nowhere")
        },
        other => panic!("expected not-found, got {:?}", other),
    }
}

fn assert_calls_hit_complete(e: &solar_front::mir::StaticExpression, ctx: &CompilerContext) {
    match &*e.instr {
        Instruction::Const(_) => {},
        Instruction::GetLocalVar(_) => {},
        Instruction::Custom { args, .. } => {
            for a in args {
                assert_calls_hit_complete(a, ctx);
            }
        },
        Instruction::FunctionCall { func, args } => {
            match ctx.functions.get_by_index(*func) {
                Some(FunctionInfo::Complete { .. }) => {},
                other => panic!("call target {} is not complete: {:?}", func, other),
            }
            for a in args {
                assert_calls_hit_complete(a, ctx);
            }
        },
        Instruction::NewLocalVar { var_value, body, .. } => {
            assert_calls_hit_complete(var_value, ctx);
            assert_calls_hit_complete(body, ctx);
        },
        Instruction::IfExpr { condition, case_true, case_false } => {
            assert_calls_hit_complete(condition, ctx);
            assert_calls_hit_complete(case_true, ctx);
            assert_calls_hit_complete(case_false, ctx);
        },
    }
}

#[test]
fn every_call_in_the_store_targets_a_complete_entry() {
    let again = BodyItem::Function(AstFunction {
        name: s("again"),
        params: vec![AstParam { name: s("n"), ty: Some(s("Int")) }],
        ret_type: Some(s("Int")),
        body: call("again", vec![AstValue::FullIdentifier(vec![s("n")])]),
    });
    let body = call("again", vec![int_lit("3")]);
    let mut ctx = context_with(vec![main_fn(body), again], SymbolResolver::new());
    let main_id = ctx.find_target_main().expect("find main");
    ctx.compile_symbol(&main_id, &Vec::new()).expect("compile");
    for i in 0..ctx.functions.len() {
        match ctx.functions.get_by_index(i).expect("entry") {
            FunctionInfo::Complete { body, .. } => assert_calls_hit_complete(body, &ctx),
            FunctionInfo::Partial { .. } => panic!("a reservation was left behind at {}", i),
        }
    }
}

#[test]
fn string_interpolation_concatenates_its_parts() {
    // main = "a{x}b" with x bound to a string
    let body = FullExpression::Let(Box::new(LetExpression {
        definitions: vec![(s("x"), FullExpression::Expression(Expression::Value(string_lit("mid"))))],
        body: FullExpression::Concat(vec![
            string_lit("a"),
            AstValue::FullIdentifier(vec![s("x")]),
            string_lit("b"),
        ]),
    }));
    let mut ctx = context_with(vec![main_fn(body)], SymbolResolver::new());
    let main_id = ctx.find_target_main().expect("find main");
    let (fid, ret) = ctx.compile_symbol(&main_id, &Vec::new()).expect("compile");
    assert_eq!(ret, ctx.buildin_types.string_id);
    match ctx.functions.get_by_index(fid).expect("entry") {
        FunctionInfo::Complete { body, .. } => match &*body.instr {
            Instruction::NewLocalVar { body, .. } => match &*body.instr {
                Instruction::Custom { code, args } => {
                    assert_eq!(*code, CustomInstructionCode::StrConcat);
                    assert_eq!(args.len(), 3);
                },
                other => panic!("unexpected inner body {:?}", other),
            },
            other => panic!("unexpected body {:?}", other),
        },
        other => panic!("expected complete main, got {:?}", other),
    }
}

#[test]
fn interpolating_an_int_is_a_type_error() {
    let body = FullExpression::Concat(vec![string_lit("n = "), int_lit("3")]);
    let mut ctx = context_with(vec![main_fn(body)], SymbolResolver::new());
    let main_id = ctx.find_target_main().expect("find main");
    match ctx.compile_symbol(&main_id, &Vec::new()) {
        Err(CompilationError::TypeError { got, wanted }) => {
            assert_eq!(got, "Int");
            assert_eq!(wanted, "String");
        },
        other => panic!("expected a type error, got {:?}", other),
    }
}

#[test]
fn two_main_functions_are_too_many() {
    let body1 = call("buildin_print", vec![string_lit("a")]);
    let body2 = call("buildin_print", vec![string_lit("b")]);
    let ctx = context_with(vec![main_fn(body1), main_fn(body2)], SymbolResolver::new());
    match ctx.find_target_main() {
        Err(solar_front::modules::FindError::TooMany { symbol, .. }) => assert_eq!(symbol, "main"),
        other => panic!("expected too-many, got {:?}", other),
    }
}

#[test]
fn an_unresolvable_declared_type_name_is_not_found() {
    // a parameter whose declared type resolves to nothing
    let one = BodyItem::Function(AstFunction {
        name: s("one"),
        params: vec![AstParam { name: s("n"), ty: Some(s("Bogus")) }],
        ret_type: None,
        body: FullExpression::Expression(Expression::Value(AstValue::FullIdentifier(vec![s("n")]))),
    });
    let body = call("one", vec![int_lit("1")]);
    let mut ctx = context_with(vec![main_fn(body), one], SymbolResolver::new());
    let main_id = ctx.find_target_main().expect("find main");
    match ctx.compile_symbol(&main_id, &Vec::new()) {
        Err(CompilationError::Find(solar_front::modules::FindError::NotFound(n))) => {
            assert_eq!(n, "Bogus")
        },
        other => panic!("expected not-found, got {:?}", other),
    }
    // a return type whose declared name resolves to nothing
    let two = BodyItem::Function(AstFunction {
        name: s("two"),
        params: Vec::new(),
        ret_type: Some(s("Mystery")),
        body: FullExpression::Expression(Expression::Value(int_lit("1"))),
    });
    let body = call("two", vec![]);
    let mut ctx = context_with(vec![main_fn(body), two], SymbolResolver::new());
    let main_id = ctx.find_target_main().expect("find main");
    match ctx.compile_symbol(&main_id, &Vec::new()) {
        Err(CompilationError::Find(solar_front::modules::FindError::NotFound(n))) => {
            assert_eq!(n, "Mystery")
        },
        other => panic!("expected not-found, got {:?}", other),
    }
}
