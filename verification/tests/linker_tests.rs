use xtypes::linker::{Namespace, Symbol, SymbolDefinition, SymbolMap};

#[test]
fn test_symbol_map() {
    let symbol = Symbol {
        namespace: String::from("App.Namespace"),
        name: String::from("Message"),
        symbol_definition: SymbolDefinition::Primitive,
    };

    let symbol2 = Symbol {
        namespace: String::from("App.Other"),
        name: String::from("Primitive"),
        symbol_definition: SymbolDefinition::Primitive,
    };

    let mut map = SymbolMap::new();
    map.add_symbol(symbol);
    map.add_symbol(symbol2);

    let found = map.get_symbol("App.Namespace", "Message").expect("finds symbol");
    assert_eq!(found.namespace, "App.Namespace");
    assert_eq!(found.name, "Message");
    assert!(matches!(found.symbol_definition, SymbolDefinition::Primitive));

    let found2 = map.get_symbol("App.Other", "Primitive").expect("finds symbol2");
    assert_eq!(found2.namespace, "App.Other");
    assert_eq!(found2.name, "Primitive");

    assert!(map.get_symbol("MissingNamespace", "Message").is_none());
}

#[test]
fn test_symbol_map_last_registration_wins() {
    let mut map = SymbolMap::new();
    map.add_symbol(Symbol {
        namespace: String::from("ns"),
        name: String::from("X"),
        symbol_definition: SymbolDefinition::Primitive,
    });
    map.add_symbol(Symbol {
        namespace: String::from("ns"),
        name: String::from("X"),
        symbol_definition: SymbolDefinition::Message(
            xtypes::ast::SymbolDefinition {
                name: xtypes::ast::TypeName::Concrete(String::from("X")),
                attrs: xtypes::ast::AttributeList::new(),
                value: xtypes::ast::SymbolType::Primitive,
            },
        ),
    });
    let found = map.get_symbol("ns", "X").unwrap();
    assert!(matches!(found.symbol_definition, SymbolDefinition::Message(_)));
    // A same-named symbol in another namespace is untouched.
    assert!(map.get_symbol("other", "X").is_none());
}

#[test]
fn test_namespace_add_and_get() {
    let mut ns = Namespace::new();
    assert!(ns.get_symbol("A").is_none());
    ns.add_symbol(Symbol {
        namespace: String::from("n"),
        name: String::from("A"),
        symbol_definition: SymbolDefinition::Primitive,
    });
    ns.add_symbol(Symbol {
        namespace: String::from("n"),
        name: String::from("B"),
        symbol_definition: SymbolDefinition::Primitive,
    });
    assert_eq!(ns.get_symbol("A").unwrap().name, "A");
    assert_eq!(ns.get_symbol("B").unwrap().name, "B");
    assert!(ns.get_symbol("C").is_none());
}
