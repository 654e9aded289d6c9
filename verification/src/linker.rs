//! A namespace-keyed symbol table: symbols addressed by a dotted namespace
//! name plus a symbol name, with last-wins overwrite semantics.

use vstd::prelude::*;
use crate::ast::XtFile;
use crate::token::str_eq;

verus! {

/// Ghost form of what a symbol stands for.
pub enum SymbolDefV {
    Primitive,
    Message(crate::ast::SymbolDefinitionV),
}

/// What a symbol stands for: a primitive that the code generator
/// understands implicitly (declared `type Name;` with no body), or a
/// message whose interface a source file defines.
#[derive(Debug, PartialEq)]
pub enum SymbolDefinition {
    Primitive,
    Message(crate::ast::SymbolDefinition),
}

impl View for SymbolDefinition {
    type V = SymbolDefV;

    open spec fn view(&self) -> SymbolDefV {
        match self {
            SymbolDefinition::Primitive => SymbolDefV::Primitive,
            SymbolDefinition::Message(d) => SymbolDefV::Message(d@),
        }
    }
}

/// Ghost form of one addressed symbol.
pub struct SymbolV {
    pub namespace: Seq<char>,
    pub name: Seq<char>,
    pub symbol_definition: SymbolDefV,
}

/// One symbol addressed by its namespace and its name.
#[derive(Debug, PartialEq)]
pub struct Symbol {
    pub namespace: String,
    pub name: String,
    pub symbol_definition: SymbolDefinition,
}

impl View for Symbol {
    type V = SymbolV;

    open spec fn view(&self) -> SymbolV {
        SymbolV {
            namespace: self.namespace@,
            name: self.name@,
            symbol_definition: self.symbol_definition@,
        }
    }
}

/// The name-keyed mapping a registration list denotes; a later
/// registration with the same name overwrites an earlier one.
pub open spec fn ns_map_of(s: Seq<SymbolV>) -> Map<Seq<char>, SymbolV>
    decreases s.len(),
{
    if s.len() == 0 {
        Map::empty()
    } else {
        ns_map_of(s.drop_last()).insert(s.last().name, s.last())
    }
}

/// The symbols of one namespace, keyed by symbol name.
#[derive(Debug)]
pub struct Namespace {
    pub symbols: Vec<Symbol>,
}

impl View for Namespace {
    type V = Map<Seq<char>, SymbolV>;

    open spec fn view(&self) -> Map<Seq<char>, SymbolV> {
        ns_map_of(self.symbols@.map_values(|s: Symbol| s@))
    }
}

impl Namespace {
    pub fn new() -> (r: Self)
        ensures
            r@ == Map::<Seq<char>, SymbolV>::empty(),
    {
        let ns = Namespace { symbols: Vec::new() };
        proof {
            assert(ns.symbols@.map_values(|s: Symbol| s@) =~= Seq::<SymbolV>::empty());
        }
        ns
    }

    /// Registers a symbol under its name, overwriting any earlier symbol
    /// with that name.
    pub fn add_symbol(&mut self, symbol: Symbol)
        ensures
            final(self)@ == old(self)@.insert(symbol.name@, symbol@),
    {
        let ghost prev = self.symbols@.map_values(|s: Symbol| s@);
        let ghost sv = symbol@;
        self.symbols.push(symbol);
        proof {
            assert(self.symbols@.map_values(|s: Symbol| s@) =~= prev.push(sv));
            assert(prev.push(sv).drop_last() =~= prev);
        }
    }

    /// Looks a symbol up by name.
    pub fn get_symbol(&self, name: &str) -> (r: Option<&Symbol>)
        ensures
            match r {
                Some(sym) => self@.contains_key(name@) && sym@ == self@[name@],
                None => !self@.contains_key(name@),
            },
    {
        let ghost items = self.symbols@.map_values(|s: Symbol| s@);
        let mut i: usize = self.symbols.len();
        proof {
            assert(items.take(i as int) =~= items);
        }
        while i > 0
            invariant
                i <= self.symbols.len(),
                items == self.symbols@.map_values(|s: Symbol| s@),
                ns_map_of(items).contains_key(name@) == ns_map_of(
                    items.take(i as int),
                ).contains_key(name@),
                ns_map_of(items).contains_key(name@) ==> ns_map_of(items)[name@] == ns_map_of(
                    items.take(i as int),
                )[name@],
            decreases i,
        {
            i -= 1;
            proof {
                assert(items.take(i + 1).drop_last() =~= items.take(i as int));
                assert(items.take(i + 1).last() == items[i as int]);
            }
            if str_eq(self.symbols[i].name.as_str(), name) {
                return Some(&self.symbols[i]);
            }
        }
        proof {
            assert(items.take(0) =~= Seq::<SymbolV>::empty());
        }
        None
    }
}

/// The namespace-and-name-keyed mapping a registration list denotes.
pub open spec fn sm_map_of(s: Seq<SymbolV>) -> Map<Seq<char>, Map<Seq<char>, SymbolV>>
    decreases s.len(),
{
    if s.len() == 0 {
        Map::empty()
    } else {
        let m = sm_map_of(s.drop_last());
        let sym = s.last();
        let inner: Map<Seq<char>, SymbolV> = if m.contains_key(sym.namespace) {
            m[sym.namespace]
        } else {
            Map::empty()
        };
        m.insert(sym.namespace, inner.insert(sym.name, sym))
    }
}

/// The symbol a nested mapping holds at a namespace and name, if any.
pub open spec fn sm_lookup(
    m: Map<Seq<char>, Map<Seq<char>, SymbolV>>,
    ns: Seq<char>,
    n: Seq<char>,
) -> Option<SymbolV> {
    if m.contains_key(ns) && m[ns].contains_key(n) {
        Some(m[ns][n])
    } else {
        None
    }
}

/// Symbols from any number of namespaces, addressed by namespace name and
/// symbol name.
#[derive(Debug)]
pub struct SymbolMap {
    pub symbols: Vec<Symbol>,
}

impl View for SymbolMap {
    type V = Map<Seq<char>, Map<Seq<char>, SymbolV>>;

    open spec fn view(&self) -> Map<Seq<char>, Map<Seq<char>, SymbolV>> {
        sm_map_of(self.symbols@.map_values(|s: Symbol| s@))
    }
}

impl SymbolMap {
    pub fn new() -> (r: Self)
        ensures
            r@ == Map::<Seq<char>, Map<Seq<char>, SymbolV>>::empty(),
    {
        let sm = SymbolMap { symbols: Vec::new() };
        proof {
            assert(sm.symbols@.map_values(|s: Symbol| s@) =~= Seq::<SymbolV>::empty());
        }
        sm
    }

    /// Registers a symbol into its namespace, creating the namespace on
    /// first use and overwriting any earlier symbol with the same name in
    /// it.
    pub fn add_symbol(&mut self, symbol: Symbol)
        ensures
            final(self)@ == old(self)@.insert(
                symbol.namespace@,
                (if old(self)@.contains_key(symbol.namespace@) {
                    old(self)@[symbol.namespace@]
                } else {
                    Map::<Seq<char>, SymbolV>::empty()
                }).insert(symbol.name@, symbol@),
            ),
    {
        let ghost prev = self.symbols@.map_values(|s: Symbol| s@);
        let ghost sv = symbol@;
        self.symbols.push(symbol);
        proof {
            assert(self.symbols@.map_values(|s: Symbol| s@) =~= prev.push(sv));
            assert(prev.push(sv).drop_last() =~= prev);
        }
    }

    /// Looks a symbol up by namespace name and symbol name.
    pub fn get_symbol(&self, namespace: &str, name: &str) -> (r: Option<&Symbol>)
        ensures
            match r {
                Some(sym) => sm_lookup(self@, namespace@, name@) == Some(sym@),
                None => sm_lookup(self@, namespace@, name@) is None,
            },
    {
        let ghost items = self.symbols@.map_values(|s: Symbol| s@);
        let mut i: usize = self.symbols.len();
        proof {
            assert(items.take(i as int) =~= items);
        }
        while i > 0
            invariant
                i <= self.symbols.len(),
                items == self.symbols@.map_values(|s: Symbol| s@),
                sm_lookup(sm_map_of(items), namespace@, name@) == sm_lookup(
                    sm_map_of(items.take(i as int)),
                    namespace@,
                    name@,
                ),
            decreases i,
        {
            i -= 1;
            proof {
                assert(items.take(i + 1).drop_last() =~= items.take(i as int));
                assert(items.take(i + 1).last() == items[i as int]);
            }
            if str_eq(self.symbols[i].namespace.as_str(), namespace) && str_eq(
                self.symbols[i].name.as_str(),
                name,
            ) {
                return Some(&self.symbols[i]);
            }
        }
        proof {
            assert(items.take(0) =~= Seq::<SymbolV>::empty());
        }
        None
    }
}

/// What loading one entry module produces for a code generator: the symbols
/// in scope and the parsed entry file.
#[derive(Debug)]
pub struct ModuleResult {
    pub symbol_lookup: SymbolMap,
    pub entry_file: XtFile,
}

} // verus!
