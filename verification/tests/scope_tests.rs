use xtypes::ast::{SymbolType, TypeName, XtError};
use xtypes::module_loader::{MemoryModuleLoader, ModuleLoader, ModuleScope};
use xtypes::parser::parse;

fn loader_of(entries: &[(&str, &str)]) -> MemoryModuleLoader {
    let mut loader = MemoryModuleLoader::new();
    for (name, src) in entries {
        let file = parse(src).expect("test module parses");
        loader.add_module(String::from(*name), file);
    }
    loader
}

#[test]
fn test_load_module_and_imports() {
    let loader = loader_of(&[
        (
            "sample.xt",
            "module sample; use \"recipe.xt\" as Recipe; type string; \
             message Meal = { name: string, recipe: Recipe.Recipe };",
        ),
        ("recipe.xt", "module recipe; message Recipe = { title: string };"),
    ]);
    let scope = ModuleScope::load_module_and_imports(loader, "sample.xt").unwrap();
    assert_eq!(scope.module.module_info.name, "sample");
    assert_eq!(scope.modules.len(), 1);
    assert_eq!(scope.modules[0].module_info.name, "recipe");
    assert!(scope.get("string").is_some());
    assert!(scope.get("Meal").is_some());
    let imported = scope.get("Recipe.Recipe").expect("imported symbol is prefixed");
    assert_eq!(imported.fully_qualified_name, "Recipe.Recipe");
    assert!(imported.use_statement.is_some());
    assert!(scope.get("Recipe").is_none());
}

#[test]
fn test_scope_of_single_file_has_exactly_its_symbols() {
    let loader = loader_of(&[(
        "only.xt",
        "module only; type int32; message A = { x: int32 }; message B = | Y | Z ;",
    )]);
    let scope = ModuleScope::load_module_and_imports(loader, "only.xt").unwrap();
    assert_eq!(scope.modules.len(), 0);
    assert_eq!(scope.symbol_map.len(), 3);
    for key in ["int32", "A", "B"] {
        let item = scope.get(key).expect("own symbol is in scope bare");
        assert_eq!(item.fully_qualified_name, key);
        assert!(item.use_statement.is_none());
    }
    assert!(scope.get("C").is_none());
}

#[test]
fn test_alias_import_prefixes_keys() {
    let loader = loader_of(&[
        ("e.xt", "module e; use \"m.xt\" as M; message Local = { };"),
        ("m.xt", "module m; type Foo;"),
    ]);
    let scope = ModuleScope::load_module_and_imports(loader, "e.xt").unwrap();
    assert!(scope.get("M.Foo").is_some());
    // `Foo` bare is in scope only if the entry module itself defines it.
    assert!(scope.get("Foo").is_none());
    assert!(scope.get("Local").is_some());
}

#[test]
fn test_wildcard_import_uses_bare_keys() {
    let loader = loader_of(&[
        ("e.xt", "module e; use \"m.xt\" .*;"),
        ("m.xt", "module m; type Foo; type Bar;"),
    ]);
    let scope = ModuleScope::load_module_and_imports(loader, "e.xt").unwrap();
    for key in ["Foo", "Bar"] {
        let item = scope.get(key).expect("wildcard import binds bare identifiers");
        assert_eq!(item.fully_qualified_name, key);
        assert!(item.use_statement.is_some());
    }
}

#[test]
fn test_wildcard_collision_import_wins() {
    let loader = loader_of(&[
        ("e.xt", "module e; use \"m.xt\" .*; message Foo = { };"),
        ("m.xt", "module m; type Foo;"),
    ]);
    let scope = ModuleScope::load_module_and_imports(loader, "e.xt").unwrap();
    let item = scope.get("Foo").expect("Foo stays in scope");
    // The import was registered after the entry module, so its symbol (a
    // primitive, not the entry's struct message) is the one that remains.
    assert!(item.use_statement.is_some());
    assert!(matches!(item.symbol.value, SymbolType::Primitive));
}

#[test]
fn test_later_import_wins_over_earlier() {
    let loader = loader_of(&[
        ("e.xt", "module e; use \"m1.xt\" .*; use \"m2.xt\" .*;"),
        ("m1.xt", "module m1; type Foo;"),
        ("m2.xt", "module m2; message Foo = { };"),
    ]);
    let scope = ModuleScope::load_module_and_imports(loader, "e.xt").unwrap();
    let item = scope.get("Foo").unwrap();
    assert!(matches!(item.symbol.value, SymbolType::Message(_)));
    assert_eq!(scope.modules.len(), 2);
    assert_eq!(scope.modules[0].module_info.name, "m1");
    assert_eq!(scope.modules[1].module_info.name, "m2");
}

#[test]
fn test_unregistered_module_not_found_names_it() {
    let loader = loader_of(&[("present.xt", "module present; type t;")]);
    match loader.load_module("missing.xt") {
        Err(XtError::ModuleNotFound(name)) => assert_eq!(name, "missing.xt"),
        other => panic!("expected ModuleNotFound, got {:?}", other),
    }
    match ModuleScope::load_module_and_imports(loader, "missing.xt") {
        Err(XtError::ModuleNotFound(name)) => assert_eq!(name, "missing.xt"),
        other => panic!("expected ModuleNotFound, got {:?}", other),
    }
}

#[test]
fn test_missing_import_fails_the_whole_build() {
    let loader = loader_of(&[("e.xt", "module e; use \"absent.xt\" as A; type t;")]);
    match ModuleScope::load_module_and_imports(loader, "e.xt") {
        Err(XtError::ModuleNotFound(name)) => assert_eq!(name, "absent.xt"),
        other => panic!("expected ModuleNotFound, got {:?}", other),
    }
}

#[test]
fn test_registering_a_module_again_shadows_it() {
    let mut loader = MemoryModuleLoader::new();
    loader.add_module(String::from("m.xt"), parse("module first; type a;").unwrap());
    loader.add_module(String::from("m.xt"), parse("module second; type b;").unwrap());
    let file = loader.load_module("m.xt").unwrap();
    assert_eq!(file.module_info.name, "second");
}

#[test]
fn test_nested_generic_resolves_in_scope() {
    let loader = loader_of(&[(
        "e.xt",
        "module e; type Array; type string; message M = { xs: Array<Array<string>> };",
    )]);
    let scope = ModuleScope::load_module_and_imports(loader, "e.xt").unwrap();
    let nested = TypeName::Generic(
        String::from("Array"),
        Box::new(TypeName::Generic(
            String::from("Array"),
            Box::new(TypeName::Concrete(String::from("string"))),
        )),
    );
    assert!(scope.resolve_type(&nested).is_ok());
}

#[test]
fn test_unresolved_type_names_the_identifier() {
    let loader = loader_of(&[("e.xt", "module e; type Array;")]);
    let scope = ModuleScope::load_module_and_imports(loader, "e.xt").unwrap();
    let t = TypeName::Generic(
        String::from("Array"),
        Box::new(TypeName::Concrete(String::from("string"))),
    );
    match scope.resolve_type(&t) {
        Err(XtError::UnresolvedType(name)) => assert_eq!(name, "string"),
        other => panic!("expected UnresolvedType, got {:?}", other),
    }
    match scope.resolve_type(&TypeName::Concrete(String::from("gone"))) {
        Err(XtError::UnresolvedType(name)) => assert_eq!(name, "gone"),
        other => panic!("expected UnresolvedType, got {:?}", other),
    }
}

#[test]
fn test_imports_are_not_transitive() {
    let loader = loader_of(&[
        ("a.xt", "module a; use \"b.xt\" as B;"),
        ("b.xt", "module b; use \"c.xt\" as C; type FromB;"),
        ("c.xt", "module c; type FromC;"),
    ]);
    let scope = ModuleScope::load_module_and_imports(loader, "a.xt").unwrap();
    assert!(scope.get("B.FromB").is_some());
    // Only one level of imports is followed: nothing of c.xt is in scope.
    assert!(scope.get("B.C.FromC").is_none());
    assert!(scope.get("C.FromC").is_none());
    assert!(scope.get("FromC").is_none());
    assert_eq!(scope.modules.len(), 1);
}

#[test]
fn test_duplicate_symbol_in_one_file_last_wins() {
    let loader = loader_of(&[("e.xt", "module e; type X; message X = { };")]);
    let scope = ModuleScope::load_module_and_imports(loader, "e.xt").unwrap();
    let item = scope.get("X").unwrap();
    assert!(matches!(item.symbol.value, SymbolType::Message(_)));
    assert!(item.use_statement.is_none());
}
