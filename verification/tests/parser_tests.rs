use xtypes::ast::{
    Attribute, AttributeList, IdentOrWildcard, MessageType, SymbolType, TypeName, XtError,
};
use xtypes::parser::parse;

#[test]
fn parser_test_parse_sample_1() {
    let src = "\
module bookstore.data;

use \"common.xt\" as Common;

type int32;
type string;

#[doc=\"A book in the store\"]
message Book = {
  #[json.key=\"book_name\"]
  name: string,
  author: string,
  year: int32?,
};

message Shelf =
  | Empty
  | Single(Book)
  | Pair(Book, Book)
;
";
    let file = parse(src).expect("sample source parses");
    assert_eq!(file.module_info.name, "bookstore.data");
    assert_eq!(file.use_imports.len(), 1);
    assert_eq!(file.use_imports[0].filename, "common.xt");
    assert_eq!(
        file.use_imports[0].ident,
        IdentOrWildcard::Ident(String::from("Common"))
    );
    assert_eq!(file.symbols.len(), 4);
    assert_eq!(file.symbols[0].name, TypeName::Concrete(String::from("int32")));
    assert!(matches!(file.symbols[0].value, SymbolType::Primitive));
    assert_eq!(file.symbols[1].name, TypeName::Concrete(String::from("string")));
    let book = &file.symbols[2];
    assert_eq!(book.name, TypeName::Concrete(String::from("Book")));
    assert_eq!(book.attrs.get("doc"), Some(String::from("A book in the store")));
    match &book.value {
        SymbolType::Message(MessageType::Struct(sm)) => {
            assert_eq!(sm.fields.len(), 3);
            assert_eq!(sm.fields[0].name, "name");
            assert_eq!(sm.fields[0].attrs.get("json.key"), Some(String::from("book_name")));
            assert_eq!(sm.fields[2].name, "year");
            assert!(sm.fields[2].is_optional);
        },
        _ => panic!("Book should be a struct message"),
    }
    let shelf = &file.symbols[3];
    match &shelf.value {
        SymbolType::Message(MessageType::Enum(em)) => {
            assert_eq!(em.variants.len(), 3);
            assert_eq!(em.variants[0].name, "Empty");
            assert!(em.variants[0].content.is_none());
            assert_eq!(em.variants[1].name, "Single");
            assert_eq!(em.variants[1].content.as_ref().unwrap().0, vec!["Book"]);
            assert_eq!(em.variants[2].name, "Pair");
            assert_eq!(em.variants[2].content.as_ref().unwrap().0, vec!["Book", "Book"]);
        },
        _ => panic!("Shelf should be an enum message"),
    }
}

#[test]
fn test_struct_field_order_preserved() {
    let file = parse("module m; message M = { zeta: t, alpha: t, mid: t };").unwrap();
    match &file.symbols[0].value {
        SymbolType::Message(MessageType::Struct(sm)) => {
            let names: Vec<&str> = sm.fields.iter().map(|f| f.name.as_str()).collect();
            assert_eq!(names, vec!["zeta", "alpha", "mid"]);
        },
        _ => panic!("expected struct"),
    }
}

#[test]
fn test_enum_variant_order_preserved() {
    let file = parse("module m; message M = | Zeta | Alpha | Mid ;").unwrap();
    match &file.symbols[0].value {
        SymbolType::Message(MessageType::Enum(em)) => {
            let names: Vec<&str> = em.variants.iter().map(|v| v.name.as_str()).collect();
            assert_eq!(names, vec!["Zeta", "Alpha", "Mid"]);
        },
        _ => panic!("expected enum"),
    }
}

#[test]
fn test_optional_field_flag() {
    let file = parse("module m; message M = { name: string?, other: string };").unwrap();
    match &file.symbols[0].value {
        SymbolType::Message(MessageType::Struct(sm)) => {
            assert!(sm.fields[0].is_optional);
            assert!(!sm.fields[1].is_optional);
        },
        _ => panic!("expected struct"),
    }
}

#[test]
fn test_pair_end_to_end() {
    let file = parse("module m; message Pair = { a: int32, b: int32? };").unwrap();
    assert_eq!(file.symbols.len(), 1);
    match &file.symbols[0].value {
        SymbolType::Message(MessageType::Struct(sm)) => {
            assert_eq!(sm.fields.len(), 2);
            assert_eq!(sm.fields[0].name, "a");
            assert_eq!(sm.fields[0].type_ref, TypeName::Concrete(String::from("int32")));
            assert!(!sm.fields[0].is_optional);
            assert_eq!(sm.fields[1].name, "b");
            assert_eq!(sm.fields[1].type_ref, TypeName::Concrete(String::from("int32")));
            assert!(sm.fields[1].is_optional);
        },
        _ => panic!("expected struct"),
    }
}

#[test]
fn test_nested_generic_parses_three_levels() {
    let file = parse("module m; message M = { xs: Array<Array<string>> };").unwrap();
    match &file.symbols[0].value {
        SymbolType::Message(MessageType::Struct(sm)) => {
            let expected = TypeName::Generic(
                String::from("Array"),
                Box::new(TypeName::Generic(
                    String::from("Array"),
                    Box::new(TypeName::Concrete(String::from("string"))),
                )),
            );
            assert_eq!(sm.fields[0].type_ref, expected);
        },
        _ => panic!("expected struct"),
    }
}

#[test]
fn test_dotted_type_reference() {
    let file = parse("module m; type a.b.c; message M = { x: Common.Thing };").unwrap();
    assert_eq!(file.symbols[0].name, TypeName::Concrete(String::from("a.b.c")));
    match &file.symbols[1].value {
        SymbolType::Message(MessageType::Struct(sm)) => {
            assert_eq!(sm.fields[0].type_ref, TypeName::Concrete(String::from("Common.Thing")));
        },
        _ => panic!("expected struct"),
    }
}

#[test]
fn test_trailing_comma_and_empty_struct() {
    let with_trailing = parse("module m; message M = { a: t, b: t, };").unwrap();
    match &with_trailing.symbols[0].value {
        SymbolType::Message(MessageType::Struct(sm)) => assert_eq!(sm.fields.len(), 2),
        _ => panic!("expected struct"),
    }
    let empty = parse("module m; message E = { };").unwrap();
    match &empty.symbols[0].value {
        SymbolType::Message(MessageType::Struct(sm)) => assert_eq!(sm.fields.len(), 0),
        _ => panic!("expected struct"),
    }
}

#[test]
fn test_module_and_use_attributes() {
    let file = parse(
        "#[lang=\"en\"] module m; #[gen=\"no\"] use \"other.xt\" .*; type t;",
    )
    .unwrap();
    assert_eq!(file.module_info.attrs.get("lang"), Some(String::from("en")));
    assert_eq!(file.use_imports[0].attrs.get("gen"), Some(String::from("no")));
    assert_eq!(file.use_imports[0].ident, IdentOrWildcard::Wildcard);
}

#[test]
fn test_duplicate_attribute_last_wins() {
    let file = parse(
        "module m; #[doc=\"first\"] #[doc=\"second\"] message M = { };",
    )
    .unwrap();
    assert_eq!(file.symbols[0].attrs.get("doc"), Some(String::from("second")));
}

#[test]
fn test_variant_attributes() {
    let file = parse("module m; message M = | #[tag=\"0\"] A | B(x.y) ;").unwrap();
    match &file.symbols[0].value {
        SymbolType::Message(MessageType::Enum(em)) => {
            assert_eq!(em.variants[0].attrs.get("tag"), Some(String::from("0")));
            assert_eq!(em.variants[1].content.as_ref().unwrap().0, vec!["x.y"]);
        },
        _ => panic!("expected enum"),
    }
}

#[test]
fn test_syntax_errors() {
    // Missing module declaration.
    assert!(matches!(parse("type t;"), Err(XtError::Syntax(_))));
    // A use statement must end in an alias or a wildcard.
    assert!(matches!(parse("module m; use \"o.xt\";"), Err(XtError::Syntax(_))));
    // Unterminated string.
    assert!(matches!(parse("module m; use \"o.xt"), Err(XtError::Syntax(_))));
    // A lone `#` opens nothing.
    assert!(matches!(parse("module m; # type t;"), Err(XtError::Syntax(_))));
    // An enum needs at least one variant.
    assert!(matches!(parse("module m; message M = ;"), Err(XtError::Syntax(_))));
    // Unknown punctuation.
    assert!(matches!(parse("module m; type t; @"), Err(XtError::Syntax(_))));
    // Trailing garbage after a well-formed file.
    assert!(matches!(parse("module m; type t; t"), Err(XtError::Syntax(_))));
}

#[test]
fn test_ok_iff_grammatical() {
    // Whitespace layouts do not matter.
    assert!(parse("module   m ;\n\n\ttype\nt ;").is_ok());
    // Interleaving of declarations and imports is free.
    assert!(parse("module m; type a; use \"x.xt\" as X; message M = { }; use \"y.xt\" .*;")
        .is_ok());
}

#[test]
fn test_attribute_list_last_wins() {
    let mut attrs = AttributeList::new();
    assert_eq!(attrs.get("k"), None);
    attrs.add(Attribute { name: String::from("k"), value: String::from("v1") });
    attrs.add(Attribute { name: String::from("other"), value: String::from("x") });
    attrs.add(Attribute { name: String::from("k"), value: String::from("v2") });
    assert_eq!(attrs.get("k"), Some(String::from("v2")));
    assert_eq!(attrs.get("other"), Some(String::from("x")));
    assert_eq!(attrs.get("absent"), None);
}

#[test]
fn test_type_name_identifier() {
    let concrete = TypeName::Concrete(String::from("string"));
    assert_eq!(concrete.identifier(), "string");
    let generic = TypeName::Generic(
        String::from("Array"),
        Box::new(TypeName::Concrete(String::from("string"))),
    );
    assert_eq!(generic.identifier(), "Array");
}
