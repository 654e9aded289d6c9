//! The module loader boundary and the scope resolver: loading an entry
//! module and its direct imports, and flattening their symbols into one
//! qualified symbol table.
//!
//! Imports are deliberately not transitive: only the entry module's own
//! `use` statements are followed, and an imported module's imports are never
//! loaded or merged.

use vstd::prelude::*;
use crate::ast::{
    FileV, IdentOrWildcard, IdentOrWildcardV, ModuleUse, ModuleUseV, SymbolDefinition,
    SymbolDefinitionV, TypeName, TypeNameV, XtError, XtFile,
};
use crate::token::str_eq;

verus! {

/// Ghost form of one resolved scope entry.
pub struct ScopeItemV {
    pub symbol: SymbolDefinitionV,
    pub fully_qualified_name: Seq<char>,
    pub use_statement: Option<ModuleUseV>,
}

/// One entry of a resolved scope: an owned copy of the symbol, the key it
/// is registered under, and the import that brought it in (`None` for a
/// symbol of the entry module itself).
#[derive(Debug, PartialEq)]
pub struct ScopeItem {
    pub symbol: SymbolDefinition,
    pub fully_qualified_name: String,
    pub use_statement: Option<ModuleUse>,
}

impl View for ScopeItem {
    type V = ScopeItemV;

    open spec fn view(&self) -> ScopeItemV {
        ScopeItemV {
            symbol: self.symbol@,
            fully_qualified_name: self.fully_qualified_name@,
            use_statement: match self.use_statement {
                Some(u) => Some(u@),
                None => None,
            },
        }
    }
}

/// The key prefix an import contributes: `Alias.` for an alias import,
/// nothing for a wildcard import or for the entry module's own symbols.
pub open spec fn spec_prefix(us: Option<ModuleUseV>) -> Seq<char> {
    match us {
        Some(u) => match u.ident {
            IdentOrWildcardV::Ident(v) => v + seq!['.'],
            IdentOrWildcardV::Wildcard => Seq::empty(),
        },
        None => Seq::empty(),
    }
}

/// The mapping a sequence of registrations denotes: later registrations
/// overwrite earlier ones with the same qualified name.
pub open spec fn scope_map_of(items: Seq<ScopeItemV>) -> Map<Seq<char>, ScopeItemV>
    decreases items.len(),
{
    if items.len() == 0 {
        Map::empty()
    } else {
        scope_map_of(items.drop_last()).insert(
            items.last().fully_qualified_name,
            items.last(),
        )
    }
}

/// Registers every symbol of a module into `m`, in declaration order, each
/// under `spec_prefix(us)` plus its identifier.
pub open spec fn spec_add_symbols(
    m: Map<Seq<char>, ScopeItemV>,
    syms: Seq<SymbolDefinitionV>,
    us: Option<ModuleUseV>,
) -> Map<Seq<char>, ScopeItemV>
    decreases syms.len(),
{
    if syms.len() == 0 {
        m
    } else {
        let s = syms[0];
        let fqn = spec_prefix(us) + s.name.identifier();
        spec_add_symbols(
            m.insert(fqn, ScopeItemV { symbol: s, fully_qualified_name: fqn, use_statement: us }),
            syms.drop_first(),
            us,
        )
    }
}

/// Registers the symbols of each imported module in import order.
pub open spec fn spec_add_modules(
    m: Map<Seq<char>, ScopeItemV>,
    files: Seq<FileV>,
    uses: Seq<ModuleUseV>,
) -> Map<Seq<char>, ScopeItemV>
    decreases files.len(),
{
    if files.len() == 0 || uses.len() == 0 {
        m
    } else {
        spec_add_modules(
            spec_add_symbols(m, files[0].symbols, Some(uses[0])),
            files.drop_first(),
            uses.drop_first(),
        )
    }
}

/// The symbol table of an entry module and its imported modules: the entry
/// module's symbols are registered first under their bare identifiers, then
/// each import's symbols under their prefixed names, so a colliding import
/// wins over an entry symbol and a later import wins over an earlier one.
pub open spec fn spec_scope_map(entry: FileV, imports: Seq<FileV>) -> Map<Seq<char>, ScopeItemV> {
    spec_add_modules(
        spec_add_symbols(Map::empty(), entry.symbols, None),
        imports,
        entry.use_imports,
    )
}

/// The ghost view of an optional borrowed import statement.
pub open spec fn opt_use_view(us: Option<&ModuleUse>) -> Option<ModuleUseV> {
    match us {
        Some(u) => Some(u@),
        None => None,
    }
}

/// Keeps track of the symbols in scope for one compile request: the flat
/// registration list (last registration wins on lookup), the entry module,
/// and the imported modules in import-declaration order.
#[derive(Debug)]
pub struct ModuleScope {
    pub symbol_map: Vec<ScopeItem>,
    pub module: XtFile,
    pub modules: Vec<XtFile>,
}

impl ModuleScope {
    /// The registrations as ghost values.
    pub open spec fn items_view(&self) -> Seq<ScopeItemV> {
        self.symbol_map@.map_values(|it: ScopeItem| it@)
    }

    /// The mapping from fully qualified name to scope entry.
    pub open spec fn map_view(&self) -> Map<Seq<char>, ScopeItemV> {
        scope_map_of(self.items_view())
    }

    /// The imported modules as ghost values.
    pub open spec fn modules_view(&self) -> Seq<FileV> {
        self.modules@.map_values(|f: XtFile| f@)
    }

    /// Registers every symbol of `module`, prefixed as `use_statement`
    /// dictates; a registration under an already-present name overwrites
    /// the earlier entry.
    pub fn add_symbols_from_module(&mut self, module: &XtFile, use_statement: Option<&ModuleUse>)
        ensures
            final(self).map_view() == spec_add_symbols(
                old(self).map_view(),
                module@.symbols,
                opt_use_view(use_statement),
            ),
            final(self).module == old(self).module,
            final(self).modules == old(self).modules,
    {
        let ghost uv = opt_use_view(use_statement);
        let prefix: String = match use_statement {
            Some(u) => match &u.ident {
                IdentOrWildcard::Ident(v) => {
                    let mut p = v.clone();
                    p.append(".");
                    p
                },
                IdentOrWildcard::Wildcard => String::new(),
            },
            None => String::new(),
        };
        proof {
            reveal_strlit(".");
            assert(prefix@ =~= spec_prefix(uv));
            assert(module@.symbols.skip(0) =~= module@.symbols);
        }
        let mut idx: usize = 0;
        while idx < module.symbols.len()
            invariant
                idx <= module.symbols.len(),
                prefix@ == spec_prefix(uv),
                uv == opt_use_view(use_statement),
                self.module == old(self).module,
                self.modules == old(self).modules,
                spec_add_symbols(old(self).map_view(), module@.symbols, uv) == spec_add_symbols(
                    self.map_view(),
                    module@.symbols.skip(idx as int),
                    uv,
                ),
            decreases module.symbols.len() - idx,
        {
            let sym = &module.symbols[idx];
            let mut fqn = prefix.clone();
            fqn.append(sym.name.identifier().as_str());
            let item = ScopeItem {
                symbol: sym.clone(),
                fully_qualified_name: fqn,
                use_statement: match use_statement {
                    Some(u) => Some(u.clone()),
                    None => None,
                },
            };
            let ghost prev_items = self.items_view();
            let ghost prev_map = self.map_view();
            let ghost rest = module@.symbols.skip(idx as int);
            self.symbol_map.push(item);
            proof {
                assert(self.items_view() =~= prev_items.push(item@));
                assert(self.items_view().drop_last() =~= prev_items);
                assert(self.map_view() == prev_map.insert(item@.fully_qualified_name, item@));
                assert(rest[0] == module@.symbols[idx as int]);
                assert(item@.fully_qualified_name =~= spec_prefix(uv)
                    + rest[0].name.identifier());
                assert(item@ == ScopeItemV {
                    symbol: rest[0],
                    fully_qualified_name: spec_prefix(uv) + rest[0].name.identifier(),
                    use_statement: uv,
                });
                assert(rest.drop_first() =~= module@.symbols.skip(idx + 1));
            }
            idx += 1;
        }
        proof {
            assert(module@.symbols.skip(module.symbols@.len() as int)
                =~= Seq::<SymbolDefinitionV>::empty());
        }
    }

    /// Looks a fully qualified name up in the scope.
    pub fn get(&self, name: &str) -> (r: Option<&ScopeItem>)
        ensures
            match r {
                Some(item) => self.map_view().contains_key(name@) && item@
                    == self.map_view()[name@],
                None => !self.map_view().contains_key(name@),
            },
    {
        let ghost items = self.items_view();
        let mut i: usize = self.symbol_map.len();
        proof {
            assert(items.take(i as int) =~= items);
        }
        while i > 0
            invariant
                i <= self.symbol_map.len(),
                items == self.items_view(),
                scope_map_of(items).contains_key(name@) == scope_map_of(
                    items.take(i as int),
                ).contains_key(name@),
                scope_map_of(items).contains_key(name@) ==> scope_map_of(items)[name@]
                    == scope_map_of(items.take(i as int))[name@],
            decreases i,
        {
            i -= 1;
            proof {
                assert(items.take(i + 1).drop_last() =~= items.take(i as int));
                assert(items.take(i + 1).last() == items[i as int]);
            }
            if str_eq(self.symbol_map[i].fully_qualified_name.as_str(), name) {
                return Some(&self.symbol_map[i]);
            }
        }
        proof {
            assert(items.take(0) =~= Seq::<ScopeItemV>::empty());
        }
        None
    }
}

/// True of a type reference when every identifier along its spine is a key
/// of the scope.
pub open spec fn spec_resolves(m: Map<Seq<char>, ScopeItemV>, t: TypeNameV) -> bool
    decreases t,
{
    match t {
        TypeNameV::Concrete(s) => m.contains_key(s),
        TypeNameV::Generic(s, inner) => m.contains_key(s) && spec_resolves(m, *inner),
    }
}

/// True when `s` is one of the identifiers along the spine of `t`.
pub open spec fn spec_mentions(t: TypeNameV, s: Seq<char>) -> bool
    decreases t,
{
    match t {
        TypeNameV::Concrete(n) => n == s,
        TypeNameV::Generic(n, inner) => n == s || spec_mentions(*inner, s),
    }
}

impl ModuleScope {
    /// Resolves a type reference against the scope: succeeds exactly when
    /// every identifier of the reference, outer and nested, is in scope;
    /// otherwise reports an unresolved-type error naming a missing
    /// identifier.
    pub fn resolve_type(&self, t: &TypeName) -> (r: Result<(), XtError>)
        ensures
            r is Ok <==> spec_resolves(self.map_view(), t@),
            match r {
                Ok(_) => true,
                Err(e) => match e {
                    XtError::UnresolvedType(n) => !self.map_view().contains_key(n@)
                        && spec_mentions(t@, n@),
                    _ => false,
                },
            },
        decreases *t,
    {
        match t {
            TypeName::Concrete(s) => {
                match self.get(s.as_str()) {
                    Some(_) => Ok(()),
                    None => Err(XtError::UnresolvedType(s.clone())),
                }
            },
            TypeName::Generic(s, inner) => {
                match self.get(s.as_str()) {
                    Some(_) => self.resolve_type(&**inner),
                    None => Err(XtError::UnresolvedType(s.clone())),
                }
            },
        }
    }
}

/// How modules are supplied to the linker. The file-system loader of an
/// application implements this; [`MemoryModuleLoader`] is a verified
/// in-memory implementation.
pub trait ModuleLoader: Sized {
    /// What this loader yields for a logical module name, as ghost data;
    /// `None` when the loader cannot supply the module. An implementation
    /// outside the verifier may leave this default, which leaves the
    /// yielded data unspecified.
    open spec fn spec_load(&self, name: Seq<char>) -> Option<FileV> {
        vstd::pervasive::arbitrary()
    }

    /// Finds and parses the module the logical name denotes. Fails exactly
    /// when the loader cannot supply it; a module-not-found error names the
    /// requested logical name.
    fn load_module(&self, name: &str) -> (r: Result<XtFile, XtError>)
        ensures
            match r {
                Ok(f) => self.spec_load(name@) == Some(f@),
                Err(e) => self.spec_load(name@) is None && match e {
                    XtError::ModuleNotFound(n) => n@ == name@,
                    XtError::Syntax(_) => true,
                    XtError::UnresolvedType(_) => false,
                },
            },
    ;
}

/// The module a registration list supplies for `name`: the most recently
/// registered entry with that name.
pub open spec fn mem_lookup(entries: Seq<(String, XtFile)>, name: Seq<char>) -> Option<FileV>
    decreases entries.len(),
{
    if entries.len() == 0 {
        None
    } else if entries.last().0@ == name {
        Some(entries.last().1@)
    } else {
        mem_lookup(entries.drop_last(), name)
    }
}

/// A loader over an in-memory table of already-parsed modules, keyed by
/// logical name; registering a name again shadows the earlier entry.
pub struct MemoryModuleLoader {
    pub modules: Vec<(String, XtFile)>,
}

impl MemoryModuleLoader {
    pub fn new() -> (r: Self)
        ensures
            r.modules@.len() == 0,
    {
        MemoryModuleLoader { modules: Vec::new() }
    }

    /// Registers `file` under the logical name `name`.
    pub fn add_module(&mut self, name: String, file: XtFile)
        ensures
            final(self).modules@ == old(self).modules@.push((name, file)),
    {
        self.modules.push((name, file));
    }
}

impl ModuleLoader for MemoryModuleLoader {
    open spec fn spec_load(&self, name: Seq<char>) -> Option<FileV> {
        mem_lookup(self.modules@, name)
    }

    fn load_module(&self, name: &str) -> (r: Result<XtFile, XtError>) {
        let ghost entries = self.modules@;
        let mut i: usize = self.modules.len();
        proof {
            assert(entries.take(i as int) =~= entries);
        }
        while i > 0
            invariant
                i <= self.modules.len(),
                entries == self.modules@,
                mem_lookup(entries, name@) == mem_lookup(entries.take(i as int), name@),
            decreases i,
        {
            i -= 1;
            proof {
                assert(entries.take(i + 1).drop_last() =~= entries.take(i as int));
                assert(entries.take(i + 1).last() == entries[i as int]);
            }
            if str_eq(self.modules[i].0.as_str(), name) {
                return Ok(self.modules[i].1.clone());
            }
        }
        proof {
            assert(entries.take(0) =~= Seq::<(String, XtFile)>::empty());
        }
        Err(XtError::ModuleNotFound(crate::token::copy_str(name)))
    }
}

/// True when building a scope for `name` with this loader must fail: the
/// entry module itself cannot be loaded, or one of its imports cannot.
pub open spec fn spec_some_load_fails<L: ModuleLoader>(loader: &L, name: Seq<char>) -> bool {
    match loader.spec_load(name) {
        None => true,
        Some(entry) => exists|k: int|
            0 <= k < entry.use_imports.len() && loader.spec_load(
                (#[trigger] entry.use_imports[k]).filename,
            ) is None,
    }
}

/// True when a scope-build error names what actually failed: the requested
/// module, one of the entry module's import filenames, or a syntax fault.
pub open spec fn spec_err_names_load<L: ModuleLoader>(
    loader: &L,
    name: Seq<char>,
    e: XtError,
) -> bool {
    match e {
        XtError::ModuleNotFound(n) => n@ == name || (match loader.spec_load(name) {
            Some(entry) => exists|k: int|
                0 <= k < entry.use_imports.len() && (#[trigger] entry.use_imports[k]).filename
                    == n@,
            None => false,
        }),
        XtError::Syntax(_) => true,
        XtError::UnresolvedType(_) => false,
    }
}

proof fn lemma_add_modules_snoc(
    m: Map<Seq<char>, ScopeItemV>,
    files: Seq<FileV>,
    uses: Seq<ModuleUseV>,
    f: FileV,
    u: ModuleUseV,
)
    requires
        files.len() == uses.len(),
    ensures
        spec_add_modules(m, files.push(f), uses.push(u)) == spec_add_symbols(
            spec_add_modules(m, files, uses),
            f.symbols,
            Some(u),
        ),
    decreases files.len(),
{
    if files.len() == 0 {
        assert(files.push(f)[0] == f);
        assert(uses.push(u)[0] == u);
        assert(files.push(f).drop_first() =~= Seq::<FileV>::empty());
        assert(uses.push(u).drop_first() =~= Seq::<ModuleUseV>::empty());
        let y = spec_add_symbols(m, f.symbols, Some(u));
        assert(spec_add_modules(y, Seq::<FileV>::empty(), Seq::<ModuleUseV>::empty()) == y);
        assert(spec_add_modules(m, files, uses) == m);
    } else {
        assert(files.push(f)[0] == files[0]);
        assert(uses.push(u)[0] == uses[0]);
        assert(files.push(f).drop_first() =~= files.drop_first().push(f));
        assert(uses.push(u).drop_first() =~= uses.drop_first().push(u));
        lemma_add_modules_snoc(
            spec_add_symbols(m, files[0].symbols, Some(uses[0])),
            files.drop_first(),
            uses.drop_first(),
            f,
            u,
        );
    }
}

impl ModuleScope {
    /// Builds the scope for an entry module: loads it, registers its own
    /// symbols, then loads each module its `use` statements name, in
    /// declaration order, registering their symbols under the import's
    /// prefix. Succeeds exactly when the loader supplies the entry module
    /// and every imported module; any load failure aborts the whole build
    /// with that loader's error.
    pub fn load_module_and_imports<L: ModuleLoader>(loader: L, module_location: &str) -> (r:
        Result<ModuleScope, XtError>)
        ensures
            match r {
                Ok(scope) => {
                    &&& loader.spec_load(module_location@) == Some(scope.module@)
                    &&& scope.modules@.len() == scope.module@.use_imports.len()
                    &&& forall|k: int|
                        0 <= k < scope.modules@.len() ==> loader.spec_load(
                            scope.module@.use_imports[k].filename,
                        ) == Some(#[trigger] scope.modules@[k]@)
                    &&& scope.map_view() == spec_scope_map(scope.module@, scope.modules_view())
                },
                Err(e) => spec_some_load_fails(&loader, module_location@) && spec_err_names_load(
                    &loader,
                    module_location@,
                    e,
                ),
            },
    {
        let entry = match loader.load_module(module_location) {
            Ok(m) => m,
            Err(e) => {
                return Err(e);
            },
        };
        let mut scope = ModuleScope {
            symbol_map: Vec::new(),
            module: entry.clone(),
            modules: Vec::new(),
        };
        proof {
            assert(scope.items_view() =~= Seq::<ScopeItemV>::empty());
        }
        scope.add_symbols_from_module(&entry, None);
        let mut k: usize = 0;
        proof {
            assert(scope.modules_view() =~= Seq::<FileV>::empty());
            assert(entry@.use_imports.take(0) =~= Seq::<ModuleUseV>::empty());
        }
        while k < entry.use_imports.len()
            invariant
                k <= entry.use_imports@.len(),
                loader.spec_load(module_location@) == Some(entry@),
                scope.module@ == entry@,
                scope.modules@.len() == k,
                forall|x: int|
                    0 <= x < k ==> loader.spec_load(entry@.use_imports[x].filename) == Some(
                        #[trigger] scope.modules@[x]@,
                    ),
                scope.map_view() == spec_add_modules(
                    spec_add_symbols(Map::empty(), entry@.symbols, None),
                    scope.modules_view(),
                    entry@.use_imports.take(k as int),
                ),
            decreases entry.use_imports@.len() - k,
        {
            let us = &entry.use_imports[k];
            let m = match loader.load_module(us.filename.as_str()) {
                Ok(v) => v,
                Err(e) => {
                    proof {
                        assert(entry@.use_imports[k as int].filename == us.filename@);
                        assert(spec_some_load_fails(&loader, module_location@));
                    }
                    return Err(e);
                },
            };
            let ghost prev_mods = scope.modules_view();
            let ghost prev_map = scope.map_view();
            scope.add_symbols_from_module(&m, Some(us));
            scope.modules.push(m);
            proof {
                assert(scope.modules_view() =~= prev_mods.push(scope.modules@.last()@));
                assert(entry@.use_imports.take(k + 1) =~= entry@.use_imports.take(k as int).push(
                    entry@.use_imports[k as int],
                ));
                lemma_add_modules_snoc(
                    spec_add_symbols(Map::empty(), entry@.symbols, None),
                    prev_mods,
                    entry@.use_imports.take(k as int),
                    scope.modules@.last()@,
                    entry@.use_imports[k as int],
                );
            }
            k += 1;
        }
        proof {
            assert(entry@.use_imports.take(entry.use_imports@.len() as int)
                =~= entry@.use_imports);
            assert(scope.modules_view().len() == scope.modules@.len());
        }
        Ok(scope)
    }
}


/// The set of keys a module's symbols contribute under `prefix`.
pub open spec fn prefixed_idents(syms: Seq<SymbolDefinitionV>, prefix: Seq<char>) -> Set<Seq<char>>
    decreases syms.len(),
{
    if syms.len() == 0 {
        Set::empty()
    } else {
        prefixed_idents(syms.drop_first(), prefix).insert(prefix + syms[0].name.identifier())
    }
}

/// The set of a module's own top-level symbol identifiers.
pub open spec fn symbol_idents(syms: Seq<SymbolDefinitionV>) -> Set<Seq<char>>
    decreases syms.len(),
{
    if syms.len() == 0 {
        Set::empty()
    } else {
        symbol_idents(syms.drop_first()).insert(syms[0].name.identifier())
    }
}

/// True when the file declares a top-level symbol whose identifier is
/// `ident`.
pub open spec fn defines(f: FileV, ident: Seq<char>) -> bool {
    symbol_idents(f.symbols).contains(ident)
}

proof fn lemma_symbol_idents_iff(syms: Seq<SymbolDefinitionV>, key: Seq<char>)
    ensures
        symbol_idents(syms).contains(key) <==> (exists|j: int|
            0 <= j < syms.len() && key == (#[trigger] syms[j]).name.identifier()),
    decreases syms.len(),
{
    if syms.len() > 0 {
        lemma_symbol_idents_iff(syms.drop_first(), key);
        if symbol_idents(syms).contains(key) {
            if key == syms[0].name.identifier() {
                assert(0 <= 0 < syms.len() && key == syms[0].name.identifier());
            } else {
                let j = choose|j: int|
                    0 <= j < syms.drop_first().len() && key == (#[trigger] syms.drop_first()[j]).name.identifier();
                assert(syms.drop_first()[j] == syms[j + 1]);
                assert(key == syms[j + 1].name.identifier());
            }
        }
        if exists|j: int| 0 <= j < syms.len() && key == (#[trigger] syms[j]).name.identifier() {
            let j = choose|j: int|
                0 <= j < syms.len() && key == (#[trigger] syms[j]).name.identifier();
            if j > 0 {
                assert(syms.drop_first()[j - 1] == syms[j]);
                assert(exists|x: int|
                    0 <= x < syms.drop_first().len() && key == (#[trigger] syms.drop_first()[x]).name.identifier());
            }
        }
    }
}

proof fn lemma_prefixed_iff(syms: Seq<SymbolDefinitionV>, p: Seq<char>, key: Seq<char>)
    ensures
        prefixed_idents(syms, p).contains(key) <==> (exists|j: int|
            0 <= j < syms.len() && key == p + (#[trigger] syms[j]).name.identifier()),
    decreases syms.len(),
{
    if syms.len() > 0 {
        lemma_prefixed_iff(syms.drop_first(), p, key);
        if prefixed_idents(syms, p).contains(key) {
            if key == p + syms[0].name.identifier() {
                assert(0 <= 0 < syms.len() && key == p + syms[0].name.identifier());
            } else {
                let j = choose|j: int|
                    0 <= j < syms.drop_first().len() && key == p + (#[trigger] syms.drop_first()[j]).name.identifier();
                assert(syms.drop_first()[j] == syms[j + 1]);
                assert(key == p + syms[j + 1].name.identifier());
            }
        }
        if exists|j: int| 0 <= j < syms.len() && key == p + (#[trigger] syms[j]).name.identifier() {
            let j = choose|j: int|
                0 <= j < syms.len() && key == p + (#[trigger] syms[j]).name.identifier();
            if j > 0 {
                assert(syms.drop_first()[j - 1] == syms[j]);
                assert(exists|x: int|
                    0 <= x < syms.drop_first().len() && key == p + (#[trigger] syms.drop_first()[x]).name.identifier());
            }
        }
    }
}

proof fn lemma_add_symbols_dom(
    m: Map<Seq<char>, ScopeItemV>,
    syms: Seq<SymbolDefinitionV>,
    us: Option<ModuleUseV>,
)
    ensures
        spec_add_symbols(m, syms, us).dom() =~= m.dom() + prefixed_idents(syms, spec_prefix(us)),
    decreases syms.len(),
{
    if syms.len() > 0 {
        let fqn = spec_prefix(us) + syms[0].name.identifier();
        let item = ScopeItemV { symbol: syms[0], fully_qualified_name: fqn, use_statement: us };
        lemma_add_symbols_dom(m.insert(fqn, item), syms.drop_first(), us);
    }
}

proof fn lemma_add_symbols_miss(
    m: Map<Seq<char>, ScopeItemV>,
    syms: Seq<SymbolDefinitionV>,
    us: Option<ModuleUseV>,
    key: Seq<char>,
)
    requires
        !prefixed_idents(syms, spec_prefix(us)).contains(key),
    ensures
        spec_add_symbols(m, syms, us).contains_key(key) == m.contains_key(key),
        m.contains_key(key) ==> spec_add_symbols(m, syms, us)[key] == m[key],
    decreases syms.len(),
{
    if syms.len() > 0 {
        let fqn = spec_prefix(us) + syms[0].name.identifier();
        let item = ScopeItemV { symbol: syms[0], fully_qualified_name: fqn, use_statement: us };
        assert(prefixed_idents(syms, spec_prefix(us)).contains(fqn));
        assert(key != fqn);
        lemma_add_symbols_miss(m.insert(fqn, item), syms.drop_first(), us, key);
    }
}

proof fn lemma_add_symbols_hit(
    m: Map<Seq<char>, ScopeItemV>,
    syms: Seq<SymbolDefinitionV>,
    us: Option<ModuleUseV>,
    key: Seq<char>,
)
    requires
        prefixed_idents(syms, spec_prefix(us)).contains(key),
    ensures
        spec_add_symbols(m, syms, us).contains_key(key),
        spec_add_symbols(m, syms, us)[key].use_statement == us,
        spec_add_symbols(m, syms, us)[key].fully_qualified_name == key,
        exists|j: int|
            0 <= j < syms.len() && spec_add_symbols(m, syms, us)[key].symbol == #[trigger] syms[j]
                && key == spec_prefix(us) + syms[j].name.identifier(),
    decreases syms.len(),
{
    let p = spec_prefix(us);
    let fqn = p + syms[0].name.identifier();
    let item = ScopeItemV { symbol: syms[0], fully_qualified_name: fqn, use_statement: us };
    let r = spec_add_symbols(m, syms, us);
    if prefixed_idents(syms.drop_first(), p).contains(key) {
        lemma_add_symbols_hit(m.insert(fqn, item), syms.drop_first(), us, key);
        let j = choose|j: int|
            0 <= j < syms.drop_first().len() && r.index(key).symbol == #[trigger] syms.drop_first()[j] && key == p + syms.drop_first()[j].name.identifier();
        assert(syms.drop_first()[j] == syms[j + 1]);
        assert(0 <= j + 1 < syms.len() && r[key].symbol == syms[j + 1] && key == p + syms[j
            + 1].name.identifier());
    } else {
        assert(key == fqn);
        lemma_add_symbols_miss(m.insert(fqn, item), syms.drop_first(), us, key);
        assert(r[key] == item);
        assert(0 <= 0 < syms.len() && r[key].symbol == syms[0] && key == p
            + syms[0].name.identifier());
    }
}

proof fn lemma_prefixed_empty(syms: Seq<SymbolDefinitionV>)
    ensures
        prefixed_idents(syms, Seq::empty()) =~= symbol_idents(syms),
    decreases syms.len(),
{
    if syms.len() > 0 {
        lemma_prefixed_empty(syms.drop_first());
        assert(Seq::<char>::empty() + syms[0].name.identifier() =~= syms[0].name.identifier());
    }
}

/// Law: a scope built for an entry module with no imports has exactly that
/// module's own top-level symbol identifiers as its key set.
pub proof fn lemma_scope_entry_only(entry: FileV)
    requires
        entry.use_imports.len() == 0,
    ensures
        spec_scope_map(entry, Seq::empty()).dom() =~= symbol_idents(entry.symbols),
{
    let base = spec_add_symbols(Map::<Seq<char>, ScopeItemV>::empty(), entry.symbols, None);
    assert(spec_add_modules(base, Seq::empty(), entry.use_imports) == base);
    lemma_add_symbols_dom(Map::empty(), entry.symbols, None);
    lemma_prefixed_empty(entry.symbols);
    assert(Map::<Seq<char>, ScopeItemV>::empty().dom() =~= Set::<Seq<char>>::empty());
}

/// Law: with a single alias import `use ... as Alias;` of a module that
/// defines `ident`, the scope contains the key `Alias` `.` `ident`; and a
/// dot-free `ident` is in scope under its bare name exactly when the entry
/// module itself defines it.
pub proof fn lemma_alias_import(entry: FileV, m: FileV, alias: Seq<char>, ident: Seq<char>)
    requires
        entry.use_imports.len() == 1,
        entry.use_imports[0].ident == IdentOrWildcardV::Ident(alias),
        defines(m, ident),
        forall|c: int| 0 <= c < ident.len() ==> ident[c] != '.',
    ensures
        spec_scope_map(entry, seq![m]).contains_key(alias + seq!['.'] + ident),
        spec_scope_map(entry, seq![m]).contains_key(ident) <==> defines(entry, ident),
{
    let u = entry.use_imports[0];
    let p = spec_prefix(Some(u));
    let base = spec_add_symbols(Map::<Seq<char>, ScopeItemV>::empty(), entry.symbols, None);
    let x = spec_add_symbols(base, m.symbols, Some(u));
    let full = spec_scope_map(entry, seq![m]);
    assert(seq![m].drop_first() =~= Seq::<FileV>::empty());
    assert(entry.use_imports.drop_first() =~= Seq::<ModuleUseV>::empty());
    assert(seq![m][0] == m);
    assert(entry.use_imports[0] == u);
    assert(spec_add_modules(x, Seq::<FileV>::empty(), Seq::<ModuleUseV>::empty()) == x);
    assert(full == x);

    lemma_symbol_idents_iff(m.symbols, ident);
    let j = choose|j: int| 0 <= j < m.symbols.len() && ident == (#[trigger] m.symbols[j]).name.identifier();
    assert(p + ident == p + m.symbols[j].name.identifier());
    lemma_prefixed_iff(m.symbols, p, p + ident);
    lemma_add_symbols_hit(base, m.symbols, Some(u), p + ident);
    assert(full.contains_key(alias + seq!['.'] + ident));

    lemma_prefixed_iff(m.symbols, p, ident);
    if prefixed_idents(m.symbols, p).contains(ident) {
        let jj = choose|jj: int| 0 <= jj < m.symbols.len() && ident == p + (#[trigger] m.symbols[jj]).name.identifier();
        assert(ident[alias.len() as int] == '.');
        assert(false);
    }
    lemma_add_symbols_miss(base, m.symbols, Some(u), ident);
    lemma_add_symbols_dom(Map::empty(), entry.symbols, None);
    lemma_prefixed_empty(entry.symbols);
    assert(base.contains_key(ident) <==> defines(entry, ident));
}

/// Law: with a single wildcard import of a module that defines `ident`,
/// the scope contains `ident` under its bare name, and the entry recorded
/// there was registered by that import and copies one of the imported
/// module's symbols.
pub proof fn lemma_wildcard_import(entry: FileV, m: FileV, ident: Seq<char>)
    requires
        entry.use_imports.len() == 1,
        entry.use_imports[0].ident == IdentOrWildcardV::Wildcard,
        defines(m, ident),
    ensures
        spec_scope_map(entry, seq![m]).contains_key(ident),
        spec_scope_map(entry, seq![m])[ident].use_statement == Some(entry.use_imports[0]),
        exists|j: int|
            0 <= j < m.symbols.len() && spec_scope_map(entry, seq![m])[ident].symbol
                == #[trigger] m.symbols[j] && m.symbols[j].name.identifier() == ident,
{
    let u = entry.use_imports[0];
    let p = spec_prefix(Some(u));
    let base = spec_add_symbols(Map::<Seq<char>, ScopeItemV>::empty(), entry.symbols, None);
    let x = spec_add_symbols(base, m.symbols, Some(u));
    let full = spec_scope_map(entry, seq![m]);
    assert(seq![m].drop_first() =~= Seq::<FileV>::empty());
    assert(entry.use_imports.drop_first() =~= Seq::<ModuleUseV>::empty());
    assert(seq![m][0] == m);
    assert(spec_add_modules(x, Seq::<FileV>::empty(), Seq::<ModuleUseV>::empty()) == x);
    assert(full == x);

    lemma_symbol_idents_iff(m.symbols, ident);
    let j = choose|j: int| 0 <= j < m.symbols.len() && ident == (#[trigger] m.symbols[j]).name.identifier();
    assert(p =~= Seq::<char>::empty());
    assert(p + ident =~= ident);
    assert(ident == p + m.symbols[j].name.identifier());
    lemma_prefixed_iff(m.symbols, p, ident);
    lemma_add_symbols_hit(base, m.symbols, Some(u), ident);
    let jj = choose|jj: int|
        0 <= jj < m.symbols.len() && full[ident].symbol == #[trigger] m.symbols[jj] && ident == p
            + m.symbols[jj].name.identifier();
    assert(p + m.symbols[jj].name.identifier() =~= m.symbols[jj].name.identifier());
    assert(m.symbols[jj].name.identifier() == ident);
}

/// Law: when a wildcard import and the entry module both define `ident`,
/// the import's registration, made after the entry module's own, wins: the
/// scope's entry for `ident` carries that import as its provenance rather
/// than the entry module.
pub proof fn lemma_wildcard_collision(entry: FileV, m: FileV, ident: Seq<char>)
    requires
        entry.use_imports.len() == 1,
        entry.use_imports[0].ident == IdentOrWildcardV::Wildcard,
        defines(m, ident),
        defines(entry, ident),
    ensures
        spec_scope_map(entry, seq![m]).contains_key(ident),
        spec_scope_map(entry, seq![m])[ident].use_statement == Some(entry.use_imports[0]),
        spec_scope_map(entry, seq![m])[ident].use_statement != None::<ModuleUseV>,
{
    lemma_wildcard_import(entry, m, ident);
}

} // verus!
