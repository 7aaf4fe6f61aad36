use solar_front::ast::{
    Ast, AstFunction, AstValue, BodyItem, Expression, FullExpression, GlobalLet, ImportDecl,
    ImportSelection, Literal, TypeDecl, TypeFields,
};
use solar_front::config::{DepMap, Dependency, SolarConfig};
use solar_front::id::IdItem;
use solar_front::modules::{resolve_imports, FileInfo, Module, ResolveError, SymbolResolver};

fn s(x: &str) -> String {
    x.to_string()
}

fn sample_body() -> FullExpression {
    FullExpression::Expression(Expression::Value(AstValue::Literal(Literal::Bool(true))))
}

#[test]
fn find_scans_files_and_items_in_order() {
    let f1 = FileInfo {
        filename: s("one.sol"),
        imports: SymbolResolver::new(),
        ast: Ast {
            imports: Vec::new(),
            items: vec![
                BodyItem::Function(AstFunction {
                    name: s("spot"),
                    params: Vec::new(),
                    ret_type: None,
                    body: sample_body(),
                }),
                BodyItem::TypeDecl(TypeDecl {
                    name: s("Point"),
                    fields: TypeFields::StructFields(vec![s("x"), s("spot")]),
                }),
            ],
        },
    };
    let f2 = FileInfo {
        filename: s("two.sol"),
        imports: SymbolResolver::new(),
        ast: Ast {
            imports: Vec::new(),
            items: vec![BodyItem::Let(GlobalLet { identifier: s("spot") })],
        },
    };
    let module = Module { project_id: 0, files: vec![f1, f2] };
    let idmodule = vec![s("self")];
    let hits = module.find(&s("spot"), &idmodule).expect("find");
    let kinds: Vec<(u16, IdItem)> = hits.iter().map(|h| (h.1, h.2)).collect();
    assert_eq!(
        kinds,
        vec![
            (0, IdItem::Func(0)),
            (0, IdItem::Method(1, 1)),
            (1, IdItem::GlobalVar(0)),
        ]
    );
    match module.find(&s("absent"), &idmodule) {
        Err(solar_front::modules::FindError::NotFound(n)) => assert_eq!(n, "absent"),
        other => panic!("expected not-found, got {:?}", other),
    }
}

#[test]
fn imports_resolve_against_dependencies_and_basepath() {
    let mut depmap = DepMap::new();
    depmap.insert(s("std"), vec![s("std(solar-lang)"), s("0.1.0")]);
    let imports = vec![
        // use std.types.String  -> String maps to std(solar-lang)/0.1.0/types
        ImportDecl {
            is_lib: true,
            path: vec![s("std"), s("types"), s("String")],
            selection: ImportSelection::This,
        },
        // use models.customer.(load, save)
        ImportDecl {
            is_lib: false,
            path: vec![s("models"), s("customer")],
            selection: ImportSelection::Items(vec![s("load"), s("save")]),
        },
    ];
    let basepath = vec![s("self")];
    let table = resolve_imports(&imports, &depmap, &basepath).expect("resolve");
    let string_paths = table.get(&s("String"));
    assert_eq!(string_paths, vec![vec![s("std(solar-lang)"), s("0.1.0"), s("types")]]);
    let load_paths = table.get(&s("load"));
    assert_eq!(load_paths, vec![vec![s("self"), s("models"), s("customer")]]);
    let save_paths = table.get(&s("save"));
    assert_eq!(save_paths, vec![vec![s("self"), s("models"), s("customer")]]);
    assert_eq!(table.get(&s("missing")).len(), 0);
}

#[test]
fn unresolved_library_import_is_rejected() {
    let depmap = DepMap::new();
    let imports = vec![ImportDecl {
        is_lib: true,
        path: vec![s("missinglib"), s("x")],
        selection: ImportSelection::This,
    }];
    let basepath = vec![s("self")];
    match resolve_imports(&imports, &depmap, &basepath) {
        Err(ResolveError::LibNotInDeps { libname }) => assert_eq!(libname, "missinglib"),
        other => panic!("expected lib-not-in-deps, got {:?}", other),
    }
}

#[test]
fn same_name_from_two_modules_keeps_both_paths() {
    let depmap = DepMap::new();
    let imports = vec![
        ImportDecl {
            is_lib: false,
            path: vec![s("strings"), s("length")],
            selection: ImportSelection::This,
        },
        ImportDecl {
            is_lib: false,
            path: vec![s("arrays"), s("length")],
            selection: ImportSelection::This,
        },
    ];
    let basepath = vec![s("self")];
    let table = resolve_imports(&imports, &depmap, &basepath).expect("resolve");
    let paths = table.get(&s("length"));
    assert_eq!(
        paths,
        vec![
            vec![s("self"), s("strings")],
            vec![s("self"), s("arrays")],
        ]
    );
}

#[test]
fn dependency_key_and_value_parse() {
    let d = Dependency::from_key_value(&s("std(solar-lang)"), &s("0.1.0")).expect("parse");
    assert_eq!(d.name, "std");
    assert_eq!(d.publisher, "solar-lang");
    assert_eq!(d.version, "0.1.0");
    assert!(d.repo.is_none());
    assert_eq!(d.basepath(), vec![s("std(solar-lang)"), s("0.1.0")]);
    assert_eq!(
        d.dir("/home/u/.solar/"),
        "/home/u/.solar/libraries/std(solar-lang)/0.1.0"
    );

    let d2 = Dependency::from_key_value(&s("web(acme)"), &s("git.example/web@2.0")).expect("parse");
    assert_eq!(d2.repo.as_deref(), Some("git.example/web"));
    assert_eq!(d2.version, "2.0");

    assert!(Dependency::from_key_value(&s("noparens"), &s("1")).is_err());
    assert!(Dependency::from_key_value(&s("open(paren"), &s("1")).is_err());
}

#[test]
fn manifest_basepath_authors_and_deps() {
    let cfg = SolarConfig {
        name: s("app"),
        publisher: None,
        version: s("1.2.3"),
        description: None,
        author: Some(s("ada")),
        authors: Some(vec![s("grace"), s("edsger")]),
        dependencies: Some(vec![(s("std(solar-lang)"), s("0.1.0"))]),
    };
    assert_eq!(cfg.basepath(), vec![s("app()"), s("1.2.3")]);
    assert_eq!(cfg.authors(), vec![s("ada"), s("grace"), s("edsger")]);
    let deps = cfg.deps().expect("deps");
    assert_eq!(deps.len(), 1);
    assert_eq!(deps[0].name, "std");

    let broken = SolarConfig {
        name: s("app"),
        publisher: Some(s("acme")),
        version: s("1.0"),
        description: None,
        author: None,
        authors: None,
        dependencies: Some(vec![(s("nope"), s("1"))]),
    };
    assert_eq!(broken.basepath(), vec![s("app(acme)"), s("1.0")]);
    assert!(broken.deps().is_err());
}

#[test]
fn project_open_builds_the_dependency_table() {
    let cfg = SolarConfig {
        name: s("app"),
        publisher: None,
        version: s("1.0"),
        description: None,
        author: None,
        authors: None,
        dependencies: Some(vec![(s("std(solar-lang)"), s("0.1.0"))]),
    };
    let p = solar_front::project::Project::open(cfg, s("/tmp/app"), vec![s("self")])
        .expect("open");
    let looked = p.dep_map.get(&s("std")).expect("dep registered").clone();
    assert_eq!(looked, vec![s("std(solar-lang)"), s("0.1.0")]);
    assert!(p.dep_map.get(&s("web")).is_none());
}
