use solar_front::ast::{Ast, BodyItem, BuildinTypeDecl};
use solar_front::modules::{FileInfo, Module, SymbolResolver};
use solar_front::project::ModuleMap;
use solar_front::types::{link_buildin_types, LinkError};

fn s(x: &str) -> String {
    x.to_string()
}

fn std_module_with(decls: Vec<(&str, bool)>) -> ModuleMap {
    let items: Vec<BodyItem> = decls
        .into_iter()
        .map(|(n, g)| BodyItem::BuildinTypeDecl(BuildinTypeDecl { name: s(n), has_generics: g }))
        .collect();
    let file = FileInfo {
        filename: s("types.sol"),
        imports: SymbolResolver::new(),
        ast: Ast { imports: Vec::new(), items },
    };
    let mut mm = ModuleMap::new();
    mm.insert(
        vec![s("std(solar-lang)"), s("0.1.0"), s("types")],
        Module { project_id: 0, files: vec![file] },
    );
    mm
}

#[test]
fn linking_binds_ids_in_declaration_order() {
    let mm = std_module_with(vec![("Bool", false), ("Int", false), ("String", false)]);
    let (store, ids) = link_buildin_types(&mm).expect("link");
    assert_eq!(store.len(), 3);
    assert_eq!(ids.bool_id, 0);
    assert_eq!(ids.int_id, 1);
    assert_eq!(ids.string_id, 2);
    assert_eq!(store.get_by_index(1).expect("entry").info_name, "Int");
    assert_eq!(store.find_by_name(&s("String")), Some(2));
    assert_eq!(store.find_by_name(&s("Unknown")), None);
}

#[test]
fn generics_on_a_builtin_are_fatal() {
    let mm = std_module_with(vec![("Bool", false), ("Int", true)]);
    match link_buildin_types(&mm) {
        Err(LinkError::GenericBuildin { name }) => assert_eq!(name, "Int"),
        other => panic!("expected the generics error, got {:?}", other),
    }
}

#[test]
fn an_unrecognized_builtin_is_fatal() {
    let mm = std_module_with(vec![("Bool", false), ("Quux", false)]);
    match link_buildin_types(&mm) {
        Err(LinkError::UnrecognizedBuildin { name }) => assert_eq!(name, "Quux"),
        other => panic!("expected the unrecognized error, got {:?}", other),
    }
}

#[test]
fn declarations_outside_the_standard_library_are_ignored() {
    let file = FileInfo {
        filename: s("types.sol"),
        imports: SymbolResolver::new(),
        ast: Ast {
            imports: Vec::new(),
            items: vec![BodyItem::BuildinTypeDecl(BuildinTypeDecl {
                name: s("Quux"),
                has_generics: false,
            })],
        },
    };
    let mut mm = ModuleMap::new();
    mm.insert(vec![s("self")], Module { project_id: 0, files: vec![file] });
    let (store, _) = link_buildin_types(&mm).expect("link");
    assert_eq!(store.len(), 0);
}
