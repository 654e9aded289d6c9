//! Recursive-descent parser for the schema language, proved equivalent to a
//! token-level specification of the grammar:
//!
//! ```text
//! file        := attr* module_decl (use_stmt | typedef | message)* EOF
//! module_decl := attr* "module" dotted_ident ";"
//! use_stmt    := attr* "use" string ("as" ident | "." "*") ";"
//! typedef     := attr* "type" dotted_ident ";"
//! message     := attr* "message" ident "=" (struct_body | enum_body) ";"
//! struct_body := "{" (field ("," field)* ","?)? "}"
//! field       := attr* ident ":" type ("?")?
//! enum_body   := ("|" attr* ident ("(" dotted_ident ("," dotted_ident)* ")")?)+
//! type        := ident "<" type ">" | dotted_ident
//! attr        := "#[" dotted_ident "=" string "]"
//! ```

use vstd::prelude::*;
use vstd::string::StringExecFns;
use crate::ast::{
    Attribute, AttributeList, EnumMessage, EnumVariant, EnumVariantV, FileV, IdentOrWildcard,
    IdentOrWildcardV, MessageType, MessageTypeV, ModuleInfo, ModuleInfoV, ModuleUse, ModuleUseV,
    StructField, StructFieldV, StructMessage, SymbolDefinition, SymbolDefinitionV, SymbolType,
    SymbolTypeV, Tuple, TypeName, TypeNameV, XtError, XtFile,
};
use crate::token::{spec_tokenize, tokenize, tokens_view, Token, TokenV};

verus! {

/// Continuation of a dotted identifier: consumes `"." ident` pairs, gluing
/// the segments onto `acc` with dots, and stops before anything else.
pub open spec fn spec_p_dotted_rest(t: Seq<TokenV>, i: int, acc: Seq<char>) -> (Seq<char>, int)
    decreases t.len() - i,
{
    if i + 1 < t.len() {
        match (t[i], t[i + 1]) {
            (TokenV::Dot, TokenV::Ident(seg)) => spec_p_dotted_rest(t, i + 2, acc + seq!['.'] + seg),
            _ => (acc, i),
        }
    } else {
        (acc, i)
    }
}

/// A dotted identifier `ident ("." ident)*`, returned as one dot-joined
/// character sequence.
pub open spec fn spec_p_dotted(t: Seq<TokenV>, i: int) -> Option<(Seq<char>, int)> {
    if i < t.len() {
        match t[i] {
            TokenV::Ident(s) => Some(spec_p_dotted_rest(t, i + 1, s)),
            _ => None,
        }
    } else {
        None
    }
}

/// A type reference: a single-segment identifier applied to exactly one
/// generic parameter, or a dotted identifier.
pub open spec fn spec_p_type(t: Seq<TokenV>, i: int) -> Option<(TypeNameV, int)>
    decreases t.len() - i,
{
    if i < t.len() {
        match t[i] {
            TokenV::Ident(s) => {
                if i + 1 < t.len() && t[i + 1] is Lt {
                    match spec_p_type(t, i + 2) {
                        Some((inner, j)) => if j < t.len() && t[j] is Gt {
                            Some((TypeNameV::Generic(s, Box::new(inner)), j + 1))
                        } else {
                            None
                        },
                        None => None,
                    }
                } else {
                    let (full, j) = spec_p_dotted_rest(t, i + 1, s);
                    Some((TypeNameV::Concrete(full), j))
                }
            },
            _ => None,
        }
    } else {
        None
    }
}

/// One attribute `#[ dotted_ident = string ]`, as its name and value.
pub open spec fn spec_p_attr(t: Seq<TokenV>, i: int) -> Option<((Seq<char>, Seq<char>), int)> {
    if i < t.len() && t[i] is AttrOpen {
        match spec_p_dotted(t, i + 1) {
            Some((name, j)) => if j + 2 < t.len() {
                match (t[j], t[j + 1], t[j + 2]) {
                    (TokenV::Equals, TokenV::StrLit(v), TokenV::RBracket) => Some(
                        ((name, v), j + 3),
                    ),
                    _ => None,
                }
            } else {
                None
            },
            None => None,
        }
    } else {
        None
    }
}

/// Zero or more attributes, folded into `acc` with last-wins semantics.
pub open spec fn spec_p_attrs(t: Seq<TokenV>, i: int, acc: Map<Seq<char>, Seq<char>>) -> Option<
    (Map<Seq<char>, Seq<char>>, int),
>
    decreases t.len() - i,
{
    if i < t.len() && t[i] is AttrOpen {
        match spec_p_attr(t, i) {
            Some(((n, v), j)) => if j > i {
                spec_p_attrs(t, j, acc.insert(n, v))
            } else {
                None
            },
            None => None,
        }
    } else {
        Some((acc, i))
    }
}

/// Continuation of a tuple payload: `"," dotted_ident` items appended to
/// `acc`.
pub open spec fn spec_p_tuple_rest(t: Seq<TokenV>, i: int, acc: Seq<Seq<char>>) -> Option<
    (Seq<Seq<char>>, int),
>
    decreases t.len() - i,
{
    if i < t.len() && t[i] is Comma {
        match spec_p_dotted(t, i + 1) {
            Some((s, j)) => if i < j <= t.len() {
                spec_p_tuple_rest(t, j, acc.push(s))
            } else {
                None
            },
            None => None,
        }
    } else {
        Some((acc, i))
    }
}

/// A variant payload `"(" dotted_ident ("," dotted_ident)* ")"`, with at
/// least one item.
pub open spec fn spec_p_tuple(t: Seq<TokenV>, i: int) -> Option<(Seq<Seq<char>>, int)> {
    if i < t.len() && t[i] is LParen {
        match spec_p_dotted(t, i + 1) {
            Some((first, j)) => match spec_p_tuple_rest(t, j, seq![first]) {
                Some((items, k)) => if k < t.len() && t[k] is RParen {
                    Some((items, k + 1))
                } else {
                    None
                },
                None => None,
            },
            None => None,
        }
    } else {
        None
    }
}

/// One enum variant: its attributes, its name, and an optional payload.
pub open spec fn spec_p_variant(t: Seq<TokenV>, i: int) -> Option<(EnumVariantV, int)> {
    match spec_p_attrs(t, i, Map::empty()) {
        Some((am, j)) => if j < t.len() {
            match t[j] {
                TokenV::Ident(name) => if j + 1 < t.len() && t[j + 1] is LParen {
                    match spec_p_tuple(t, j + 1) {
                        Some((items, k)) => Some(
                            (EnumVariantV { name, attrs: am, content: Some(items) }, k),
                        ),
                        None => None,
                    }
                } else {
                    Some((EnumVariantV { name, attrs: am, content: None }, j + 1))
                },
                _ => None,
            }
        } else {
            None
        },
        None => None,
    }
}

/// One or more `"|" variant` groups appended to `acc`.
pub open spec fn spec_p_variants(t: Seq<TokenV>, i: int, acc: Seq<EnumVariantV>) -> Option<
    (Seq<EnumVariantV>, int),
>
    decreases t.len() - i,
{
    if i < t.len() && t[i] is Pipe {
        match spec_p_variant(t, i + 1) {
            Some((v, j)) => if j > i {
                spec_p_variants(t, j, acc.push(v))
            } else {
                None
            },
            None => None,
        }
    } else {
        if acc.len() > 0 {
            Some((acc, i))
        } else {
            None
        }
    }
}

/// The fields of a struct body after the opening brace, appended to `acc`;
/// fields are comma-separated, a trailing comma is allowed, and the closing
/// brace is consumed.
pub open spec fn spec_p_fields(t: Seq<TokenV>, i: int, acc: Seq<StructFieldV>) -> Option<
    (Seq<StructFieldV>, int),
>
    decreases t.len() - i,
{
    if i < t.len() && t[i] is RBrace {
        Some((acc, i + 1))
    } else {
        match spec_p_attrs(t, i, Map::empty()) {
            Some((am, j)) => if j + 1 < t.len() {
                match (t[j], t[j + 1]) {
                    (TokenV::Ident(fname), TokenV::Colon) => match spec_p_type(t, j + 2) {
                        Some((ty, k)) => {
                            let (opt, k2): (bool, int) = if k < t.len() && t[k] is Question {
                                (true, k + 1)
                            } else {
                                (false, k)
                            };
                            let fld = StructFieldV {
                                name: fname,
                                type_ref: ty,
                                is_optional: opt,
                                attrs: am,
                            };
                            if k2 < t.len() && t[k2] is Comma {
                                if k2 + 1 > i {
                                    spec_p_fields(t, k2 + 1, acc.push(fld))
                                } else {
                                    None
                                }
                            } else if k2 < t.len() && t[k2] is RBrace {
                                Some((acc.push(fld), k2 + 1))
                            } else {
                                None
                            }
                        },
                        None => None,
                    },
                    _ => None,
                }
            } else {
                None
            },
            None => None,
        }
    }
}

/// A message body: a tagged union introduced by `|`, or a struct introduced
/// by `{`.
pub open spec fn spec_p_body(t: Seq<TokenV>, i: int) -> Option<(MessageTypeV, int)> {
    if i < t.len() {
        match t[i] {
            TokenV::Pipe => match spec_p_variants(t, i, Seq::empty()) {
                Some((vs, j)) => Some((MessageTypeV::Enum(vs), j)),
                None => None,
            },
            TokenV::LBrace => match spec_p_fields(t, i + 1, Seq::empty()) {
                Some((fs, j)) => Some((MessageTypeV::Struct(fs), j)),
                None => None,
            },
            _ => None,
        }
    } else {
        None
    }
}

/// A message declaration after its attributes:
/// `"message" ident "=" body ";"`.
pub open spec fn spec_p_message(t: Seq<TokenV>, i: int, attrs: Map<Seq<char>, Seq<char>>) -> Option<
    (SymbolDefinitionV, int),
> {
    if i + 2 < t.len() {
        match (t[i], t[i + 1], t[i + 2]) {
            (TokenV::KwMessage, TokenV::Ident(name), TokenV::Equals) => match spec_p_body(
                t,
                i + 3,
            ) {
                Some((mt, j)) => if j < t.len() && t[j] is Semi {
                    Some(
                        (
                            SymbolDefinitionV {
                                name: TypeNameV::Concrete(name),
                                attrs,
                                value: SymbolTypeV::Message(mt),
                            },
                            j + 1,
                        ),
                    )
                } else {
                    None
                },
                None => None,
            },
            _ => None,
        }
    } else {
        None
    }
}

/// A primitive declaration after its attributes: `"type" dotted_ident ";"`.
pub open spec fn spec_p_typedef(t: Seq<TokenV>, i: int, attrs: Map<Seq<char>, Seq<char>>) -> Option<
    (SymbolDefinitionV, int),
> {
    if i < t.len() && t[i] is KwType {
        match spec_p_dotted(t, i + 1) {
            Some((name, j)) => if j < t.len() && t[j] is Semi {
                Some(
                    (
                        SymbolDefinitionV {
                            name: TypeNameV::Concrete(name),
                            attrs,
                            value: SymbolTypeV::Primitive,
                        },
                        j + 1,
                    ),
                )
            } else {
                None
            },
            None => None,
        }
    } else {
        None
    }
}

/// An import after its attributes:
/// `"use" string ("as" ident | "." "*") ";"`.
pub open spec fn spec_p_use(t: Seq<TokenV>, i: int, attrs: Map<Seq<char>, Seq<char>>) -> Option<
    (ModuleUseV, int),
> {
    if i + 3 < t.len() {
        match (t[i], t[i + 1], t[i + 2], t[i + 3]) {
            (TokenV::KwUse, TokenV::StrLit(f), TokenV::KwAs, TokenV::Ident(a)) => if i + 4
                < t.len() && t[i + 4] is Semi {
                Some(
                    (
                        ModuleUseV { attrs, filename: f, ident: IdentOrWildcardV::Ident(a) },
                        i + 5,
                    ),
                )
            } else {
                None
            },
            (TokenV::KwUse, TokenV::StrLit(f), TokenV::Dot, TokenV::Star) => if i + 4 < t.len()
                && t[i + 4] is Semi {
                Some(
                    ((ModuleUseV { attrs, filename: f, ident: IdentOrWildcardV::Wildcard }, i + 5)),
                )
            } else {
                None
            },
            _ => None,
        }
    } else {
        None
    }
}

/// The module header: its attributes, the `module` keyword, the dotted
/// module name, and the closing semicolon.
pub open spec fn spec_p_module_decl(t: Seq<TokenV>, i: int) -> Option<(ModuleInfoV, int)> {
    match spec_p_attrs(t, i, Map::empty()) {
        Some((am, j)) => if j < t.len() && t[j] is KwModule {
            match spec_p_dotted(t, j + 1) {
                Some((name, k)) => if k < t.len() && t[k] is Semi {
                    Some((ModuleInfoV { name, attrs: am }, k + 1))
                } else {
                    None
                },
                None => None,
            }
        } else {
            None
        },
        None => None,
    }
}

/// The interleaved `use` statements and declarations after the module
/// header, in any order, to the end of the token stream.
pub open spec fn spec_p_items(
    t: Seq<TokenV>,
    i: int,
    uses: Seq<ModuleUseV>,
    syms: Seq<SymbolDefinitionV>,
) -> Option<(Seq<ModuleUseV>, Seq<SymbolDefinitionV>)>
    decreases t.len() - i,
{
    if i >= t.len() {
        Some((uses, syms))
    } else {
        match spec_p_attrs(t, i, Map::empty()) {
            Some((am, j)) => if j < t.len() {
                match t[j] {
                    TokenV::KwUse => match spec_p_use(t, j, am) {
                        Some((u, k)) => if k > i {
                            spec_p_items(t, k, uses.push(u), syms)
                        } else {
                            None
                        },
                        None => None,
                    },
                    TokenV::KwType => match spec_p_typedef(t, j, am) {
                        Some((d, k)) => if k > i {
                            spec_p_items(t, k, uses, syms.push(d))
                        } else {
                            None
                        },
                        None => None,
                    },
                    TokenV::KwMessage => match spec_p_message(t, j, am) {
                        Some((d, k)) => if k > i {
                            spec_p_items(t, k, uses, syms.push(d))
                        } else {
                            None
                        },
                        None => None,
                    },
                    _ => None,
                }
            } else {
                None
            },
            None => None,
        }
    }
}

/// The file the token stream denotes, if it fits the grammar.
pub open spec fn spec_parse_tokens(t: Seq<TokenV>) -> Option<FileV> {
    match spec_p_module_decl(t, 0) {
        Some((mi, i)) => match spec_p_items(t, i, Seq::empty(), Seq::empty()) {
            Some((us, ss)) => Some(FileV { module_info: mi, use_imports: us, symbols: ss }),
            None => None,
        },
        None => None,
    }
}

/// The file the source text denotes: tokenization followed by the grammar.
pub open spec fn spec_parse(s: Seq<char>) -> Option<FileV> {
    match spec_tokenize(s) {
        Some(ts) => spec_parse_tokens(ts),
        None => None,
    }
}

fn parse_dotted(toks: &Vec<Token>, i: usize) -> (r: Result<(String, usize), usize>)
    ensures
        match r {
            Ok((s, j)) => spec_p_dotted(tokens_view(toks@), i as int) == Some((s@, j as int)) && i
                < j <= toks@.len(),
            Err(_) => spec_p_dotted(tokens_view(toks@), i as int) is None,
        },
{
    let ghost t = tokens_view(toks@);
    if i >= toks.len() {
        return Err(i);
    }
    let first: String = match &toks[i] {
        Token::Ident(s) => s.clone(),
        _ => {
            return Err(i);
        },
    };
    let mut acc = first;
    let mut j = i + 1;
    let ghost acc0 = acc@;
    loop
        invariant
            t == tokens_view(toks@),
            i < j <= toks@.len(),
            spec_p_dotted_rest(t, i + 1, acc0) == spec_p_dotted_rest(t, j as int, acc@),
        ensures
            i < j <= toks@.len(),
            spec_p_dotted_rest(t, i + 1, acc0) == (acc@, j as int),
        decreases toks@.len() - j,
    {
        if j < toks.len() && j + 1 < toks.len() {
            let ghost prev = acc@;
            match (&toks[j], &toks[j + 1]) {
                (Token::Dot, Token::Ident(seg)) => {
                    acc.append(".");
                    acc.append(seg.as_str());
                    proof {
                        reveal_strlit(".");
                        assert(acc@ =~= prev + seq!['.'] + seg@);
                        assert(t[j as int] == TokenV::Dot && t[j + 1] == TokenV::Ident(seg@));
                    }
                    j += 2;
                },
                _ => {
                    proof {
                        assert(!(t[j as int] is Dot && t[j + 1] is Ident));
                    }
                    break ;
                },
            }
        } else {
            break ;
        }
    }
    Ok((acc, j))
}

fn parse_type(toks: &Vec<Token>, i: usize) -> (r: Result<(TypeName, usize), usize>)
    ensures
        match r {
            Ok((v, j)) => spec_p_type(tokens_view(toks@), i as int) == Some((v@, j as int)) && i < j
                <= toks@.len(),
            Err(_) => spec_p_type(tokens_view(toks@), i as int) is None,
        },
    decreases toks@.len() - i,
{
    let ghost t = tokens_view(toks@);
    if i >= toks.len() {
        return Err(i);
    }
    let head: String = match &toks[i] {
        Token::Ident(s) => s.clone(),
        _ => {
            return Err(i);
        },
    };
    if i + 1 < toks.len() && matches!(&toks[i + 1], Token::Lt) {
        let (inner, j) = match parse_type(toks, i + 2) {
            Ok(v) => v,
            Err(p) => {
                return Err(p);
            },
        };
        if j < toks.len() && matches!(&toks[j], Token::Gt) {
            Ok((TypeName::Generic(head, Box::new(inner)), j + 1))
        } else {
            Err(j)
        }
    } else {
        let mut acc = head;
        let mut j = i + 1;
        let ghost acc0 = acc@;
        loop
            invariant
                t == tokens_view(toks@),
                i < j <= toks@.len(),
                spec_p_dotted_rest(t, i + 1, acc0) == spec_p_dotted_rest(t, j as int, acc@),
            ensures
                i < j <= toks@.len(),
                spec_p_dotted_rest(t, i + 1, acc0) == (acc@, j as int),
            decreases toks@.len() - j,
        {
            if j < toks.len() && j + 1 < toks.len() {
                let ghost prev = acc@;
                match (&toks[j], &toks[j + 1]) {
                    (Token::Dot, Token::Ident(seg)) => {
                        acc.append(".");
                        acc.append(seg.as_str());
                        proof {
                            reveal_strlit(".");
                            assert(acc@ =~= prev + seq!['.'] + seg@);
                            assert(t[j as int] == TokenV::Dot && t[j + 1] == TokenV::Ident(seg@));
                        }
                        j += 2;
                    },
                    _ => {
                        proof {
                            assert(!(t[j as int] is Dot && t[j + 1] is Ident));
                        }
                        break ;
                    },
                }
            } else {
                break ;
            }
        }
        Ok((TypeName::Concrete(acc), j))
    }
}

fn parse_attr(toks: &Vec<Token>, i: usize) -> (r: Result<(Attribute, usize), usize>)
    ensures
        match r {
            Ok((a, j)) => spec_p_attr(tokens_view(toks@), i as int) == Some(
                ((a.name@, a.value@), j as int),
            ) && i < j <= toks@.len(),
            Err(_) => spec_p_attr(tokens_view(toks@), i as int) is None,
        },
{
    let ghost t = tokens_view(toks@);
    if i >= toks.len() || !matches!(&toks[i], Token::AttrOpen) {
        return Err(i);
    }
    let (name, j) = match parse_dotted(toks, i + 1) {
        Ok(v) => v,
        Err(p) => {
            return Err(p);
        },
    };
    if j < toks.len() && j + 1 < toks.len() && j + 2 < toks.len() {
        match (&toks[j], &toks[j + 1], &toks[j + 2]) {
            (Token::Equals, Token::StrLit(v), Token::RBracket) => {
                proof {
                    assert(t[j as int] is Equals && t[j + 1] == TokenV::StrLit(v@) && t[j + 2]
                        is RBracket);
                }
                Ok((Attribute { name, value: v.clone() }, j + 3))
            },
            _ => {
                proof {
                    assert(!(t[j as int] is Equals && t[j + 1] is StrLit && t[j + 2] is RBracket));
                }
                Err(j)
            },
        }
    } else {
        Err(j)
    }
}

fn parse_attrs(toks: &Vec<Token>, i: usize) -> (r: Result<(AttributeList, usize), usize>)
    requires
        i <= toks@.len(),
    ensures
        match r {
            Ok((al, j)) => spec_p_attrs(tokens_view(toks@), i as int, Map::empty()) == Some(
                (al@, j as int),
            ) && i <= j <= toks@.len(),
            Err(_) => spec_p_attrs(tokens_view(toks@), i as int, Map::empty()) is None,
        },
{
    let ghost t = tokens_view(toks@);
    let mut al = AttributeList::new();
    let mut j = i;
    loop
        invariant
            t == tokens_view(toks@),
            i <= j <= toks@.len(),
            spec_p_attrs(t, i as int, Map::empty()) == spec_p_attrs(t, j as int, al@),
        ensures
            i <= j <= toks@.len(),
            spec_p_attrs(t, i as int, Map::empty()) == Some((al@, j as int)),
        decreases toks@.len() - j,
    {
        if j >= toks.len() {
            break ;
        }
        if !matches!(&toks[j], Token::AttrOpen) {
            break ;
        }
        match parse_attr(toks, j) {
            Ok((a, k)) => {
                al.add(a);
                j = k;
            },
            Err(p) => {
                return Err(p);
            },
        }
    }
    Ok((al, j))
}

fn parse_tuple(toks: &Vec<Token>, i: usize) -> (r: Result<(Tuple, usize), usize>)
    ensures
        match r {
            Ok((tp, j)) => spec_p_tuple(tokens_view(toks@), i as int) == Some((tp@, j as int)) && i
                < j <= toks@.len(),
            Err(_) => spec_p_tuple(tokens_view(toks@), i as int) is None,
        },
{
    let ghost t = tokens_view(toks@);
    if i >= toks.len() || !matches!(&toks[i], Token::LParen) {
        return Err(i);
    }
    let (first, j0) = match parse_dotted(toks, i + 1) {
        Ok(v) => v,
        Err(p) => {
            return Err(p);
        },
    };
    let ghost first_v = first@;
    let mut items: Vec<String> = Vec::new();
    items.push(first);
    let mut j = j0;
    proof {
        assert(items@.map_values(|s: String| s@) =~= seq![first_v]);
    }
    loop
        invariant
            t == tokens_view(toks@),
            i < j <= toks@.len(),
            i < toks@.len(),
            t[i as int] is LParen,
            spec_p_dotted(t, i + 1) == Some((first_v, j0 as int)),
            spec_p_tuple_rest(t, j0 as int, seq![first_v]) == spec_p_tuple_rest(
                t,
                j as int,
                items@.map_values(|s: String| s@),
            ),
        ensures
            i < j <= toks@.len(),
            spec_p_tuple_rest(t, j0 as int, seq![first_v]) == Some(
                (items@.map_values(|s: String| s@), j as int),
            ),
        decreases toks@.len() - j,
    {
        if j >= toks.len() {
            break ;
        }
        if !matches!(&toks[j], Token::Comma) {
            break ;
        }
        match parse_dotted(toks, j + 1) {
            Ok((s, k)) => {
                let ghost prev = items@.map_values(|s: String| s@);
                let ghost sv = s@;
                items.push(s);
                proof {
                    assert(items@.map_values(|s: String| s@) =~= prev.push(sv));
                }
                j = k;
            },
            Err(p) => {
                return Err(p);
            },
        }
    }
    if j < toks.len() && matches!(&toks[j], Token::RParen) {
        Ok((Tuple(items), j + 1))
    } else {
        Err(j)
    }
}

fn parse_variant(toks: &Vec<Token>, i: usize) -> (r: Result<(EnumVariant, usize), usize>)
    requires
        i <= toks@.len(),
    ensures
        match r {
            Ok((v, j)) => spec_p_variant(tokens_view(toks@), i as int) == Some((v@, j as int)) && i
                < j <= toks@.len(),
            Err(_) => spec_p_variant(tokens_view(toks@), i as int) is None,
        },
{
    let ghost t = tokens_view(toks@);
    let (attrs, j) = match parse_attrs(toks, i) {
        Ok(v) => v,
        Err(p) => {
            return Err(p);
        },
    };
    if j >= toks.len() {
        return Err(j);
    }
    let name: String = match &toks[j] {
        Token::Ident(s) => s.clone(),
        _ => {
            return Err(j);
        },
    };
    if j + 1 < toks.len() && matches!(&toks[j + 1], Token::LParen) {
        match parse_tuple(toks, j + 1) {
            Ok((items, k)) => Ok((EnumVariant { name, attrs, content: Some(items) }, k)),
            Err(p) => Err(p),
        }
    } else {
        Ok((EnumVariant { name, attrs, content: None }, j + 1))
    }
}

fn parse_variants(toks: &Vec<Token>, i: usize) -> (r: Result<(Vec<EnumVariant>, usize), usize>)
    requires
        i <= toks@.len(),
    ensures
        match r {
            Ok((vs, j)) => spec_p_variants(tokens_view(toks@), i as int, Seq::empty()) == Some(
                (vs@.map_values(|v: EnumVariant| v@), j as int),
            ) && i < j <= toks@.len(),
            Err(_) => spec_p_variants(tokens_view(toks@), i as int, Seq::empty()) is None,
        },
{
    let ghost t = tokens_view(toks@);
    let mut vs: Vec<EnumVariant> = Vec::new();
    let mut j = i;
    proof {
        assert(vs@.map_values(|v: EnumVariant| v@) =~= Seq::<EnumVariantV>::empty());
    }
    loop
        invariant
            t == tokens_view(toks@),
            i <= j <= toks@.len(),
            vs@.len() == 0 ==> j == i,
            spec_p_variants(t, i as int, Seq::empty()) == spec_p_variants(
                t,
                j as int,
                vs@.map_values(|v: EnumVariant| v@),
            ),
        ensures
            i <= j <= toks@.len(),
            vs@.len() == 0 ==> j == i,
            spec_p_variants(t, i as int, Seq::empty()) == spec_p_variants(
                t,
                j as int,
                vs@.map_values(|v: EnumVariant| v@),
            ),
            j >= toks@.len() || !(t[j as int] is Pipe),
        decreases toks@.len() - j,
    {
        if j >= toks.len() {
            break ;
        }
        if !matches!(&toks[j], Token::Pipe) {
            break ;
        }
        match parse_variant(toks, j + 1) {
            Ok((v, k)) => {
                let ghost prev = vs@.map_values(|v: EnumVariant| v@);
                let ghost vv = v@;
                vs.push(v);
                proof {
                    assert(vs@.map_values(|v: EnumVariant| v@) =~= prev.push(vv));
                }
                j = k;
            },
            Err(p) => {
                return Err(p);
            },
        }
    }
    if vs.len() > 0 {
        Ok((vs, j))
    } else {
        Err(j)
    }
}

fn parse_fields(toks: &Vec<Token>, i: usize) -> (r: Result<(Vec<StructField>, usize), usize>)
    requires
        i <= toks@.len(),
    ensures
        match r {
            Ok((fs, j)) => spec_p_fields(tokens_view(toks@), i as int, Seq::empty()) == Some(
                (fs@.map_values(|f: StructField| f@), j as int),
            ) && i < j <= toks@.len(),
            Err(_) => spec_p_fields(tokens_view(toks@), i as int, Seq::empty()) is None,
        },
{
    let ghost t = tokens_view(toks@);
    let mut fs: Vec<StructField> = Vec::new();
    let mut j = i;
    proof {
        assert(fs@.map_values(|f: StructField| f@) =~= Seq::<StructFieldV>::empty());
    }
    loop
        invariant
            t == tokens_view(toks@),
            i <= j <= toks@.len(),
            spec_p_fields(t, i as int, Seq::empty()) == spec_p_fields(
                t,
                j as int,
                fs@.map_values(|f: StructField| f@),
            ),
        decreases toks@.len() - j,
    {
        if j >= toks.len() {
            return Err(j);
        }
        if matches!(&toks[j], Token::RBrace) {
            return Ok((fs, j + 1));
        }
        let (am, k) = match parse_attrs(toks, j) {
            Ok(v) => v,
            Err(p) => {
                return Err(p);
            },
        };
        if !(k < toks.len() && k + 1 < toks.len()) {
            return Err(k);
        }
        let fname: String = match (&toks[k], &toks[k + 1]) {
            (Token::Ident(s), Token::Colon) => s.clone(),
            _ => {
                proof {
                    assert(!(t[k as int] is Ident && t[k + 1] is Colon));
                }
                return Err(k);
            },
        };
        let (ty, m) = match parse_type(toks, k + 2) {
            Ok(v) => v,
            Err(p) => {
                return Err(p);
            },
        };
        let (opt, m2): (bool, usize) = if m < toks.len() && matches!(&toks[m], Token::Question) {
            (true, m + 1)
        } else {
            (false, m)
        };
        let fld = StructField { name: fname, type_ref: ty, is_optional: opt, attrs: am };
        let ghost prev = fs@.map_values(|f: StructField| f@);
        let ghost fldv = fld@;
        if m2 < toks.len() && matches!(&toks[m2], Token::Comma) {
            fs.push(fld);
            proof {
                assert(fs@.map_values(|f: StructField| f@) =~= prev.push(fldv));
            }
            j = m2 + 1;
        } else if m2 < toks.len() && matches!(&toks[m2], Token::RBrace) {
            fs.push(fld);
            proof {
                assert(fs@.map_values(|f: StructField| f@) =~= prev.push(fldv));
            }
            return Ok((fs, m2 + 1));
        } else {
            return Err(m2);
        }
    }
}

fn parse_body(toks: &Vec<Token>, i: usize) -> (r: Result<(MessageType, usize), usize>)
    ensures
        match r {
            Ok((mt, j)) => spec_p_body(tokens_view(toks@), i as int) == Some((mt@, j as int)) && i
                < j <= toks@.len(),
            Err(_) => spec_p_body(tokens_view(toks@), i as int) is None,
        },
{
    let ghost t = tokens_view(toks@);
    if i >= toks.len() {
        return Err(i);
    }
    if matches!(&toks[i], Token::Pipe) {
        match parse_variants(toks, i) {
            Ok((vs, j)) => Ok((MessageType::Enum(EnumMessage { variants: vs }), j)),
            Err(p) => Err(p),
        }
    } else if matches!(&toks[i], Token::LBrace) {
        match parse_fields(toks, i + 1) {
            Ok((fields, j)) => Ok((MessageType::Struct(StructMessage { fields }), j)),
            Err(p) => Err(p),
        }
    } else {
        Err(i)
    }
}

fn parse_message(toks: &Vec<Token>, i: usize, attrs: AttributeList) -> (r: Result<
    (SymbolDefinition, usize),
    usize,
>)
    ensures
        match r {
            Ok((d, j)) => spec_p_message(tokens_view(toks@), i as int, attrs@) == Some(
                (d@, j as int),
            ) && i < j <= toks@.len(),
            Err(_) => spec_p_message(tokens_view(toks@), i as int, attrs@) is None,
        },
{
    let ghost t = tokens_view(toks@);
    if !(i < toks.len() && i + 1 < toks.len() && i + 2 < toks.len()) {
        return Err(i);
    }
    let name: String = match (&toks[i], &toks[i + 1], &toks[i + 2]) {
        (Token::KwMessage, Token::Ident(s), Token::Equals) => s.clone(),
        _ => {
            proof {
                assert(!(t[i as int] is KwMessage && t[i + 1] is Ident && t[i + 2] is Equals));
            }
            return Err(i);
        },
    };
    let (mt, j) = match parse_body(toks, i + 3) {
        Ok(v) => v,
        Err(p) => {
            return Err(p);
        },
    };
    if j < toks.len() && matches!(&toks[j], Token::Semi) {
        Ok(
            (
                SymbolDefinition {
                    name: TypeName::Concrete(name),
                    attrs,
                    value: SymbolType::Message(mt),
                },
                j + 1,
            ),
        )
    } else {
        Err(j)
    }
}

fn parse_typedef(toks: &Vec<Token>, i: usize, attrs: AttributeList) -> (r: Result<
    (SymbolDefinition, usize),
    usize,
>)
    ensures
        match r {
            Ok((d, j)) => spec_p_typedef(tokens_view(toks@), i as int, attrs@) == Some(
                (d@, j as int),
            ) && i < j <= toks@.len(),
            Err(_) => spec_p_typedef(tokens_view(toks@), i as int, attrs@) is None,
        },
{
    let ghost t = tokens_view(toks@);
    if i >= toks.len() || !matches!(&toks[i], Token::KwType) {
        return Err(i);
    }
    let (name, j) = match parse_dotted(toks, i + 1) {
        Ok(v) => v,
        Err(p) => {
            return Err(p);
        },
    };
    if j < toks.len() && matches!(&toks[j], Token::Semi) {
        Ok(
            (
                SymbolDefinition {
                    name: TypeName::Concrete(name),
                    attrs,
                    value: SymbolType::Primitive,
                },
                j + 1,
            ),
        )
    } else {
        Err(j)
    }
}

fn parse_use(toks: &Vec<Token>, i: usize, attrs: AttributeList) -> (r: Result<
    (ModuleUse, usize),
    usize,
>)
    ensures
        match r {
            Ok((u, j)) => spec_p_use(tokens_view(toks@), i as int, attrs@) == Some((u@, j as int))
                && i < j <= toks@.len(),
            Err(_) => spec_p_use(tokens_view(toks@), i as int, attrs@) is None,
        },
{
    let ghost t = tokens_view(toks@);
    if !(i < toks.len() && i + 1 < toks.len() && i + 2 < toks.len() && i + 3 < toks.len()) {
        return Err(i);
    }
    let (filename, ident): (String, IdentOrWildcard) = match (
        &toks[i],
        &toks[i + 1],
        &toks[i + 2],
        &toks[i + 3],
    ) {
        (Token::KwUse, Token::StrLit(f), Token::KwAs, Token::Ident(a)) => (
            f.clone(),
            IdentOrWildcard::Ident(a.clone()),
        ),
        (Token::KwUse, Token::StrLit(f), Token::Dot, Token::Star) => (
            f.clone(),
            IdentOrWildcard::Wildcard,
        ),
        _ => {
            proof {
                assert(!(t[i as int] is KwUse && t[i + 1] is StrLit && ((t[i + 2] is KwAs && t[i
                    + 3] is Ident) || (t[i + 2] is Dot && t[i + 3] is Star))));
            }
            return Err(i);
        },
    };
    if i + 4 < toks.len() && matches!(&toks[i + 4], Token::Semi) {
        Ok((ModuleUse { attrs, filename, ident }, i + 5))
    } else {
        Err(i + 4)
    }
}

fn parse_module_decl(toks: &Vec<Token>, i: usize) -> (r: Result<(ModuleInfo, usize), usize>)
    requires
        i <= toks@.len(),
    ensures
        match r {
            Ok((mi, j)) => spec_p_module_decl(tokens_view(toks@), i as int) == Some(
                (mi@, j as int),
            ) && i < j <= toks@.len(),
            Err(_) => spec_p_module_decl(tokens_view(toks@), i as int) is None,
        },
{
    let ghost t = tokens_view(toks@);
    let (attrs, j) = match parse_attrs(toks, i) {
        Ok(v) => v,
        Err(p) => {
            return Err(p);
        },
    };
    if j >= toks.len() || !matches!(&toks[j], Token::KwModule) {
        return Err(j);
    }
    let (name, k) = match parse_dotted(toks, j + 1) {
        Ok(v) => v,
        Err(p) => {
            return Err(p);
        },
    };
    if k < toks.len() && matches!(&toks[k], Token::Semi) {
        Ok((ModuleInfo { name, attrs }, k + 1))
    } else {
        Err(k)
    }
}

fn parse_tokens(toks: &Vec<Token>) -> (r: Result<XtFile, usize>)
    ensures
        match r {
            Ok(f) => spec_parse_tokens(tokens_view(toks@)) == Some(f@),
            Err(_) => spec_parse_tokens(tokens_view(toks@)) is None,
        },
{
    let ghost t = tokens_view(toks@);
    let (mi, start) = match parse_module_decl(toks, 0) {
        Ok(v) => v,
        Err(p) => {
            return Err(p);
        },
    };
    let mut uses: Vec<ModuleUse> = Vec::new();
    let mut syms: Vec<SymbolDefinition> = Vec::new();
    let mut i = start;
    proof {
        assert(uses@.map_values(|u: ModuleUse| u@) =~= Seq::<ModuleUseV>::empty());
        assert(syms@.map_values(|s: SymbolDefinition| s@) =~= Seq::<SymbolDefinitionV>::empty());
    }
    loop
        invariant
            t == tokens_view(toks@),
            start <= i <= toks@.len(),
            spec_p_module_decl(t, 0) == Some((mi@, start as int)),
            spec_p_items(t, start as int, Seq::empty(), Seq::empty()) == spec_p_items(
                t,
                i as int,
                uses@.map_values(|u: ModuleUse| u@),
                syms@.map_values(|s: SymbolDefinition| s@),
            ),
        ensures
            i >= toks@.len(),
            spec_p_items(t, start as int, Seq::empty(), Seq::empty()) == Some(
                (
                    uses@.map_values(|u: ModuleUse| u@),
                    syms@.map_values(|s: SymbolDefinition| s@),
                ),
            ),
        decreases toks@.len() - i,
    {
        if i >= toks.len() {
            break ;
        }
        let (am, j) = match parse_attrs(toks, i) {
            Ok(v) => v,
            Err(p) => {
                return Err(p);
            },
        };
        if j >= toks.len() {
            return Err(j);
        }
        if matches!(&toks[j], Token::KwUse) {
            match parse_use(toks, j, am) {
                Ok((u, k)) => {
                    let ghost prev = uses@.map_values(|u: ModuleUse| u@);
                    let ghost uv = u@;
                    uses.push(u);
                    proof {
                        assert(uses@.map_values(|u: ModuleUse| u@) =~= prev.push(uv));
                    }
                    i = k;
                },
                Err(p) => {
                    return Err(p);
                },
            }
        } else if matches!(&toks[j], Token::KwType) {
            match parse_typedef(toks, j, am) {
                Ok((d, k)) => {
                    let ghost prev = syms@.map_values(|s: SymbolDefinition| s@);
                    let ghost dv = d@;
                    syms.push(d);
                    proof {
                        assert(syms@.map_values(|s: SymbolDefinition| s@) =~= prev.push(dv));
                    }
                    i = k;
                },
                Err(p) => {
                    return Err(p);
                },
            }
        } else if matches!(&toks[j], Token::KwMessage) {
            match parse_message(toks, j, am) {
                Ok((d, k)) => {
                    let ghost prev = syms@.map_values(|s: SymbolDefinition| s@);
                    let ghost dv = d@;
                    syms.push(d);
                    proof {
                        assert(syms@.map_values(|s: SymbolDefinition| s@) =~= prev.push(dv));
                    }
                    i = k;
                },
                Err(p) => {
                    return Err(p);
                },
            }
        } else {
            proof {
                assert(!(t[j as int] is KwUse) && !(t[j as int] is KwType) && !(t[j as int]
                    is KwMessage));
            }
            return Err(j);
        }
    }
    Ok(XtFile { module_info: mi, use_imports: uses, symbols: syms })
}

/// The parser's entry marker; [`parse`] is the operation it stands for.
pub struct XtParser;

/// Parses one source file into its AST. Returns the parsed file exactly
/// when the text fits the grammar, and a syntax error otherwise; the
/// error's anchor counts characters for a lexical fault and tokens for a
/// grammatical one.
pub fn parse(t: &str) -> (r: Result<XtFile, XtError>)
    ensures
        match r {
            Ok(f) => spec_parse(t@) == Some(f@),
            Err(e) => spec_parse(t@) is None && e is Syntax,
        },
{
    let toks = match tokenize(t) {
        Ok(v) => v,
        Err(p) => {
            return Err(XtError::Syntax(p));
        },
    };
    match parse_tokens(&toks) {
        Ok(f) => Ok(f),
        Err(p) => Err(XtError::Syntax(p)),
    }
}


/// The canonical token rendering of a type reference.
pub open spec fn tokens_of_type(t: TypeNameV) -> Seq<TokenV>
    decreases t,
{
    match t {
        TypeNameV::Concrete(s) => seq![TokenV::Ident(s)],
        TypeNameV::Generic(s, inner) => seq![TokenV::Ident(s), TokenV::Lt] + tokens_of_type(*inner)
            + seq![TokenV::Gt],
    }
}

/// Parsing the rendering of a type reference yields that reference back,
/// wherever it stands, provided the token that follows it opens neither a
/// generic application nor a dotted continuation.
pub proof fn lemma_parse_type(t: TypeNameV, pre: Seq<TokenV>, rest: Seq<TokenV>)
    requires
        rest.len() > 0 ==> !(rest[0] is Lt) && !(rest[0] is Dot),
    ensures
        spec_p_type(pre + tokens_of_type(t) + rest, pre.len() as int) == Some(
            (t, pre.len() + tokens_of_type(t).len() as int),
        ),
    decreases t,
{
    let toks = pre + tokens_of_type(t) + rest;
    let i = pre.len() as int;
    match t {
        TypeNameV::Concrete(s) => {
            assert(toks[i] == TokenV::Ident(s));
            if i + 1 < toks.len() {
                assert(toks[i + 1] == rest[0]);
                assert(spec_p_dotted_rest(toks, i + 1, s) == (s, i + 1));
            } else {
                assert(spec_p_dotted_rest(toks, i + 1, s) == (s, i + 1));
            }
        },
        TypeNameV::Generic(s, inner) => {
            let pre2 = pre + seq![TokenV::Ident(s), TokenV::Lt];
            let rest2 = seq![TokenV::Gt] + rest;
            lemma_parse_type(*inner, pre2, rest2);
            assert(pre2 + tokens_of_type(*inner) + rest2 =~= toks);
            assert(toks[i] == TokenV::Ident(s));
            assert(toks[i + 1] == TokenV::Lt);
            let j: int = pre2.len() + tokens_of_type(*inner).len() as int;
            assert(spec_p_type(toks, i + 2) == Some((*inner, j)));
            assert(toks[j] == TokenV::Gt);
            assert(spec_p_type(toks, i) == Some(
                (TypeNameV::Generic(s, Box::new(*inner)), j + 1),
            ));
            assert(TypeNameV::Generic(s, Box::new(*inner)) == t);
            assert(j + 1 == pre.len() + tokens_of_type(t).len() as int);
        },
    }
}


/// The canonical token rendering of one attribute-free struct field.
pub open spec fn tokens_of_field(f: StructFieldV) -> Seq<TokenV> {
    seq![TokenV::Ident(f.name), TokenV::Colon] + tokens_of_type(f.type_ref) + (if f.is_optional {
        seq![TokenV::Question]
    } else {
        Seq::<TokenV>::empty()
    })
}

/// The canonical token rendering of a field list, each field followed by a
/// comma.
pub open spec fn tokens_of_fields(fs: Seq<StructFieldV>) -> Seq<TokenV>
    decreases fs.len(),
{
    if fs.len() == 0 {
        Seq::empty()
    } else {
        tokens_of_field(fs[0]) + seq![TokenV::Comma] + tokens_of_fields(fs.drop_first())
    }
}

#[verifier::rlimit(100)]
#[verifier::spinoff_prover]
proof fn lemma_parse_fields_rt(
    fs: Seq<StructFieldV>,
    acc: Seq<StructFieldV>,
    pre: Seq<TokenV>,
    rest: Seq<TokenV>,
)
    requires
        forall|k: int|
            0 <= k < fs.len() ==> (#[trigger] fs[k]).attrs == Map::<Seq<char>, Seq<char>>::empty(),
    ensures
        spec_p_fields(
            pre + tokens_of_fields(fs) + seq![TokenV::RBrace] + rest,
            pre.len() as int,
            acc,
        ) == Some((acc + fs, pre.len() + tokens_of_fields(fs).len() + 1 as int)),
    decreases fs.len(),
{
    let toks = pre + tokens_of_fields(fs) + seq![TokenV::RBrace] + rest;
    let i = pre.len() as int;
    if fs.len() == 0 {
        assert(toks[i] == TokenV::RBrace);
        assert(acc + fs =~= acc);
    } else {
        let f = fs[0];
        let pre2 = pre + seq![TokenV::Ident(f.name), TokenV::Colon];
        let optseq: Seq<TokenV> = if f.is_optional {
            seq![TokenV::Question]
        } else {
            Seq::<TokenV>::empty()
        };
        let rest2 = optseq + seq![TokenV::Comma] + tokens_of_fields(fs.drop_first()) + seq![
            TokenV::RBrace,
        ] + rest;
        assert(pre2 + tokens_of_type(f.type_ref) + rest2 =~= toks);
        if f.is_optional {
            assert(rest2[0] == TokenV::Question);
        } else {
            assert(rest2[0] == TokenV::Comma);
        }
        lemma_parse_type(f.type_ref, pre2, rest2);
        let k: int = pre2.len() + tokens_of_type(f.type_ref).len() as int;
        assert(spec_p_type(toks, i + 2) == Some((f.type_ref, k)));
        assert(toks[i] == TokenV::Ident(f.name));
        assert(toks[i + 1] == TokenV::Colon);
        assert(!(toks[i] is RBrace));
        assert(!(toks[i] is AttrOpen));
        assert(spec_p_attrs(toks, i, Map::empty()) == Some(
            (Map::<Seq<char>, Seq<char>>::empty(), i),
        ));
        let k2: int = if f.is_optional {
            k + 1
        } else {
            k
        };
        if f.is_optional {
            assert(toks[k] == TokenV::Question);
        } else {
            assert(toks[k] == TokenV::Comma);
        }
        assert(toks[k2] == TokenV::Comma);
        let fld = StructFieldV {
            name: f.name,
            type_ref: f.type_ref,
            is_optional: f.is_optional,
            attrs: Map::empty(),
        };
        assert(fld == f);
        let pre3 = pre + tokens_of_field(f) + seq![TokenV::Comma];
        assert(pre3.len() == k2 + 1);
        lemma_parse_fields_rt(fs.drop_first(), acc.push(f), pre3, rest);
        assert(pre3 + tokens_of_fields(fs.drop_first()) + seq![TokenV::RBrace] + rest =~= toks);
        assert(acc.push(f) + fs.drop_first() =~= acc + fs);
        assert(spec_p_fields(toks, i, acc) == Some(
            (acc + fs, pre.len() + tokens_of_fields(fs).len() + 1 as int),
        ));
    }
}

/// Law: parsing preserves the source declaration order of struct fields.
/// Rendering any attribute-free field list into a struct body and parsing
/// it back yields exactly that list, in the same order.
pub proof fn lemma_struct_fields_parse_in_order(
    fs: Seq<StructFieldV>,
    pre: Seq<TokenV>,
    rest: Seq<TokenV>,
)
    requires
        forall|k: int|
            0 <= k < fs.len() ==> (#[trigger] fs[k]).attrs == Map::<Seq<char>, Seq<char>>::empty(),
    ensures
        spec_p_body(
            pre + seq![TokenV::LBrace] + tokens_of_fields(fs) + seq![TokenV::RBrace] + rest,
            pre.len() as int,
        ) == Some(
            (MessageTypeV::Struct(fs), pre.len() + 2 + tokens_of_fields(fs).len() as int),
        ),
{
    let toks = pre + seq![TokenV::LBrace] + tokens_of_fields(fs) + seq![TokenV::RBrace] + rest;
    assert(toks[pre.len() as int] == TokenV::LBrace);
    lemma_parse_fields_rt(fs, Seq::empty(), pre + seq![TokenV::LBrace], rest);
    assert((pre + seq![TokenV::LBrace]) + tokens_of_fields(fs) + seq![TokenV::RBrace] + rest
        =~= toks);
    assert(Seq::<StructFieldV>::empty() + fs =~= fs);
}

/// The canonical token rendering of the items of a tuple payload after its
/// first item.
pub open spec fn tokens_of_tuple_items(items: Seq<Seq<char>>) -> Seq<TokenV>
    decreases items.len(),
{
    if items.len() == 0 {
        Seq::empty()
    } else {
        seq![TokenV::Comma, TokenV::Ident(items[0])] + tokens_of_tuple_items(items.drop_first())
    }
}

/// The canonical token rendering of a non-empty tuple payload.
pub open spec fn tokens_of_tuple(items: Seq<Seq<char>>) -> Seq<TokenV> {
    seq![TokenV::LParen, TokenV::Ident(items[0])] + tokens_of_tuple_items(items.drop_first())
        + seq![TokenV::RParen]
}

/// The canonical token rendering of one attribute-free enum variant,
/// including its leading `|`.
pub open spec fn tokens_of_variant(v: EnumVariantV) -> Seq<TokenV> {
    seq![TokenV::Pipe, TokenV::Ident(v.name)] + (match v.content {
        Some(items) => tokens_of_tuple(items),
        None => Seq::<TokenV>::empty(),
    })
}

/// The canonical token rendering of a variant list.
pub open spec fn tokens_of_variants(vs: Seq<EnumVariantV>) -> Seq<TokenV>
    decreases vs.len(),
{
    if vs.len() == 0 {
        Seq::empty()
    } else {
        tokens_of_variant(vs[0]) + tokens_of_variants(vs.drop_first())
    }
}

proof fn lemma_parse_tuple_items_rt(
    items: Seq<Seq<char>>,
    acc: Seq<Seq<char>>,
    pre: Seq<TokenV>,
    rest: Seq<TokenV>,
)
    requires
        rest.len() > 0,
        rest[0] is RParen,
    ensures
        spec_p_tuple_rest(
            pre + tokens_of_tuple_items(items) + rest,
            pre.len() as int,
            acc,
        ) == Some((acc + items, pre.len() + tokens_of_tuple_items(items).len() as int)),
    decreases items.len(),
{
    let toks = pre + tokens_of_tuple_items(items) + rest;
    let i = pre.len() as int;
    if items.len() == 0 {
        assert(toks[i] == rest[0]);
        assert(acc + items =~= acc);
    } else {
        assert(toks[i] == TokenV::Comma);
        assert(toks[i + 1] == TokenV::Ident(items[0]));
        let tail = tokens_of_tuple_items(items.drop_first()) + rest;
        assert(toks =~= (pre + seq![TokenV::Comma, TokenV::Ident(items[0])]) + tail);
        assert(toks[i + 2] == tail[0]);
        if items.drop_first().len() > 0 {
            assert(tokens_of_tuple_items(items.drop_first())[0] == TokenV::Comma);
            assert(tail[0] == TokenV::Comma);
        } else {
            assert(tail[0] == rest[0]);
        }
        assert(spec_p_dotted_rest(toks, i + 2, items[0]) == (items[0], i + 2));
        let pre2 = pre + seq![TokenV::Comma, TokenV::Ident(items[0])];
        lemma_parse_tuple_items_rt(items.drop_first(), acc.push(items[0]), pre2, rest);
        assert(pre2 + tokens_of_tuple_items(items.drop_first()) + rest =~= toks);
        assert(acc.push(items[0]) + items.drop_first() =~= acc + items);
    }
}

proof fn lemma_parse_variant_rt(v: EnumVariantV, pre: Seq<TokenV>, rest: Seq<TokenV>)
    requires
        v.attrs == Map::<Seq<char>, Seq<char>>::empty(),
        v.content matches Some(items) ==> items.len() > 0,
        rest.len() > 0 ==> !(rest[0] is LParen),
    ensures
        spec_p_variant(
            pre + seq![TokenV::Ident(v.name)] + (match v.content {
                Some(items) => tokens_of_tuple(items),
                None => Seq::<TokenV>::empty(),
            }) + rest,
            pre.len() as int,
        ) == Some(
            (
                v,
                pre.len() + 1 + (match v.content {
                    Some(items) => tokens_of_tuple(items).len() as int,
                    None => 0,
                }),
            ),
        ),
{
    let body: Seq<TokenV> = match v.content {
        Some(items) => tokens_of_tuple(items),
        None => Seq::<TokenV>::empty(),
    };
    let toks = pre + seq![TokenV::Ident(v.name)] + body + rest;
    let i = pre.len() as int;
    assert(toks[i] == TokenV::Ident(v.name));
    assert(!(toks[i] is AttrOpen));
    assert(spec_p_attrs(toks, i, Map::empty()) == Some(
        (Map::<Seq<char>, Seq<char>>::empty(), i),
    ));
    match v.content {
        None => {
            if i + 1 < toks.len() {
                assert(toks[i + 1] == rest[0]);
            }
            assert(EnumVariantV { name: v.name, attrs: Map::empty(), content: None } == v);
        },
        Some(items) => {
            assert(toks[i + 1] == TokenV::LParen);
            assert(toks[i + 2] == TokenV::Ident(items[0]));
            if i + 3 + 1 < toks.len() {
                assert(toks[i + 3] is Comma || toks[i + 3] is RParen);
            }
            assert(spec_p_dotted_rest(toks, i + 3, items[0]) == (items[0], i + 3));
            let pre2 = pre + seq![TokenV::Ident(v.name), TokenV::LParen, TokenV::Ident(items[0])];
            let rest2 = seq![TokenV::RParen] + rest;
            lemma_parse_tuple_items_rt(items.drop_first(), seq![items[0]], pre2, rest2);
            assert(pre2 + tokens_of_tuple_items(items.drop_first()) + rest2 =~= toks);
            let k: int = pre2.len() + tokens_of_tuple_items(items.drop_first()).len() as int;
            assert(spec_p_tuple_rest(toks, i + 3, seq![items[0]]) == Some(
                (seq![items[0]] + items.drop_first(), k),
            ));
            assert(seq![items[0]] + items.drop_first() =~= items);
            assert(toks[k] == TokenV::RParen);
            assert(spec_p_tuple(toks, i + 1) == Some((items, k + 1)));
            assert(EnumVariantV { name: v.name, attrs: Map::empty(), content: Some(items) } == v);
            assert(k + 1 == pre.len() + 1 + tokens_of_tuple(items).len() as int);
        },
    }
}

#[verifier::rlimit(100)]
#[verifier::spinoff_prover]
proof fn lemma_parse_variants_rt(
    vs: Seq<EnumVariantV>,
    acc: Seq<EnumVariantV>,
    pre: Seq<TokenV>,
    rest: Seq<TokenV>,
)
    requires
        forall|k: int|
            0 <= k < vs.len() ==> (#[trigger] vs[k]).attrs == Map::<Seq<char>, Seq<char>>::empty(),
        forall|k: int|
            0 <= k < vs.len() ==> ((#[trigger] vs[k]).content matches Some(items) ==> items.len()
                > 0),
        rest.len() > 0 ==> !(rest[0] is Pipe) && !(rest[0] is LParen),
        acc.len() + vs.len() > 0,
    ensures
        spec_p_variants(pre + tokens_of_variants(vs) + rest, pre.len() as int, acc) == Some(
            (acc + vs, pre.len() + tokens_of_variants(vs).len() as int),
        ),
    decreases vs.len(),
{
    let toks = pre + tokens_of_variants(vs) + rest;
    let i = pre.len() as int;
    if vs.len() == 0 {
        if i < toks.len() {
            assert(toks[i] == rest[0]);
        }
        assert(acc + vs =~= acc);
    } else {
        let v = vs[0];
        assert(toks[i] == TokenV::Pipe);
        let pre2 = pre + seq![TokenV::Pipe];
        let rest2 = tokens_of_variants(vs.drop_first()) + rest;
        if rest2.len() > 0 {
            if vs.drop_first().len() > 0 {
                assert(rest2[0] == TokenV::Pipe);
            } else {
                assert(rest2[0] == rest[0]);
            }
        }
        lemma_parse_variant_rt(v, pre2, rest2);
        assert(pre2 + seq![TokenV::Ident(v.name)] + (match v.content {
            Some(items) => tokens_of_tuple(items),
            None => Seq::<TokenV>::empty(),
        }) + rest2 =~= toks);
        let j: int = pre.len() + tokens_of_variant(v).len() as int;
        assert(spec_p_variant(toks, i + 1) == Some((v, j)));
        let pre3 = pre + tokens_of_variant(v);
        lemma_parse_variants_rt(vs.drop_first(), acc.push(v), pre3, rest);
        assert(pre3 + tokens_of_variants(vs.drop_first()) + rest =~= toks);
        assert(acc.push(v) + vs.drop_first() =~= acc + vs);
    }
}

/// Law: parsing preserves the source declaration order of enum variants.
/// Rendering any non-empty, attribute-free variant list into an enum body
/// and parsing it back yields exactly that list, in the same order.
pub proof fn lemma_enum_variants_parse_in_order(
    vs: Seq<EnumVariantV>,
    pre: Seq<TokenV>,
    rest: Seq<TokenV>,
)
    requires
        vs.len() > 0,
        forall|k: int|
            0 <= k < vs.len() ==> (#[trigger] vs[k]).attrs == Map::<Seq<char>, Seq<char>>::empty(),
        forall|k: int|
            0 <= k < vs.len() ==> ((#[trigger] vs[k]).content matches Some(items) ==> items.len()
                > 0),
        rest.len() > 0 ==> !(rest[0] is Pipe) && !(rest[0] is LParen),
    ensures
        spec_p_body(pre + tokens_of_variants(vs) + rest, pre.len() as int) == Some(
            (MessageTypeV::Enum(vs), pre.len() + tokens_of_variants(vs).len() as int),
        ),
{
    let toks = pre + tokens_of_variants(vs) + rest;
    assert(toks[pre.len() as int] == TokenV::Pipe);
    lemma_parse_variants_rt(vs, Seq::empty(), pre, rest);
    assert(Seq::<EnumVariantV>::empty() + vs =~= vs);
}


/// The canonical token rendering of a whole struct-message declaration.
pub open spec fn tokens_of_struct_message(name: Seq<char>, fs: Seq<StructFieldV>) -> Seq<TokenV> {
    seq![TokenV::KwMessage, TokenV::Ident(name), TokenV::Equals, TokenV::LBrace]
        + tokens_of_fields(fs) + seq![TokenV::RBrace, TokenV::Semi]
}

/// Law: parsing a whole struct-message declaration yields its fields
/// exactly in source declaration order.
pub proof fn lemma_struct_message_parse_in_order(
    name: Seq<char>,
    fs: Seq<StructFieldV>,
    attrs: Map<Seq<char>, Seq<char>>,
    pre: Seq<TokenV>,
    rest: Seq<TokenV>,
)
    requires
        forall|k: int|
            0 <= k < fs.len() ==> (#[trigger] fs[k]).attrs == Map::<Seq<char>, Seq<char>>::empty(),
    ensures
        spec_p_message(pre + tokens_of_struct_message(name, fs) + rest, pre.len() as int, attrs)
            == Some(
            (
                SymbolDefinitionV {
                    name: TypeNameV::Concrete(name),
                    attrs,
                    value: SymbolTypeV::Message(MessageTypeV::Struct(fs)),
                },
                pre.len() + tokens_of_struct_message(name, fs).len() as int,
            ),
        ),
{
    let toks = pre + tokens_of_struct_message(name, fs) + rest;
    let i = pre.len() as int;
    assert(toks[i] == TokenV::KwMessage);
    assert(toks[i + 1] == TokenV::Ident(name));
    assert(toks[i + 2] == TokenV::Equals);
    let pre2 = pre + seq![TokenV::KwMessage, TokenV::Ident(name), TokenV::Equals];
    let rest2 = seq![TokenV::Semi] + rest;
    lemma_struct_fields_parse_in_order(fs, pre2, rest2);
    assert(pre2 + seq![TokenV::LBrace] + tokens_of_fields(fs) + seq![TokenV::RBrace] + rest2
        =~= toks);
    let j: int = pre2.len() + 2 + tokens_of_fields(fs).len() as int;
    assert(spec_p_body(toks, i + 3) == Some((MessageTypeV::Struct(fs), j)));
    assert(toks[j] == TokenV::Semi);
}

/// The canonical token rendering of a whole enum-message declaration.
pub open spec fn tokens_of_enum_message(name: Seq<char>, vs: Seq<EnumVariantV>) -> Seq<TokenV> {
    seq![TokenV::KwMessage, TokenV::Ident(name), TokenV::Equals] + tokens_of_variants(vs) + seq![
        TokenV::Semi,
    ]
}

/// Law: parsing a whole enum-message declaration yields its variants
/// exactly in source declaration order.
pub proof fn lemma_enum_message_parse_in_order(
    name: Seq<char>,
    vs: Seq<EnumVariantV>,
    attrs: Map<Seq<char>, Seq<char>>,
    pre: Seq<TokenV>,
    rest: Seq<TokenV>,
)
    requires
        vs.len() > 0,
        forall|k: int|
            0 <= k < vs.len() ==> (#[trigger] vs[k]).attrs == Map::<Seq<char>, Seq<char>>::empty(),
        forall|k: int|
            0 <= k < vs.len() ==> ((#[trigger] vs[k]).content matches Some(items) ==> items.len()
                > 0),
    ensures
        spec_p_message(pre + tokens_of_enum_message(name, vs) + rest, pre.len() as int, attrs)
            == Some(
            (
                SymbolDefinitionV {
                    name: TypeNameV::Concrete(name),
                    attrs,
                    value: SymbolTypeV::Message(MessageTypeV::Enum(vs)),
                },
                pre.len() + tokens_of_enum_message(name, vs).len() as int,
            ),
        ),
{
    let toks = pre + tokens_of_enum_message(name, vs) + rest;
    let i = pre.len() as int;
    assert(toks[i] == TokenV::KwMessage);
    assert(toks[i + 1] == TokenV::Ident(name));
    assert(toks[i + 2] == TokenV::Equals);
    let pre2 = pre + seq![TokenV::KwMessage, TokenV::Ident(name), TokenV::Equals];
    let rest2 = seq![TokenV::Semi] + rest;
    lemma_enum_variants_parse_in_order(vs, pre2, rest2);
    assert(pre2 + tokens_of_variants(vs) + rest2 =~= toks);
    let j: int = pre2.len() + tokens_of_variants(vs).len() as int;
    assert(spec_p_body(toks, i + 3) == Some((MessageTypeV::Enum(vs), j)));
    assert(toks[j] == TokenV::Semi);
}

} // verus!
