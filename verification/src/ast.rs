//! Abstract syntax tree for the schema language: attributes, type names,
//! struct and enum message bodies, symbol definitions, module headers and
//! import statements, plus the ghost views the contracts are stated over.

use vstd::prelude::*;

verus! {

/// Errors of the front end: a grammar mismatch (with a character position
/// anchored into the offending text), a module that no loader could supply
/// (naming the requested logical name), and a type reference absent from a
/// resolved scope (naming the identifier that failed to resolve).
#[derive(Debug, PartialEq)]
pub enum XtError {
    Syntax(usize),
    ModuleNotFound(String),
    UnresolvedType(String),
}

/// An attribute is a free-form `name = value` flag that can be attached to a
/// message, a field, an enum variant, a module declaration or a `use`
/// statement; code generators interpret it as they see fit.
#[derive(Debug, PartialEq)]
pub struct Attribute {
    pub name: String,
    pub value: String,
}

impl Clone for Attribute {
    fn clone(&self) -> (r: Self)
        ensures
            r == *self,
    {
        Attribute { name: self.name.clone(), value: self.value.clone() }
    }
}

/// The attributes of one owner, collapsed into a mapping keyed by attribute
/// name; when two attributes share a name, the later-declared one wins.
pub open spec fn attrs_map_of(s: Seq<Attribute>) -> Map<Seq<char>, Seq<char>>
    decreases s.len(),
{
    if s.len() == 0 {
        Map::empty()
    } else {
        attrs_map_of(s.drop_last()).insert(s.last().name@, s.last().value@)
    }
}

/// An ordered collection of attributes with last-wins lookup semantics,
/// viewed as a mapping from attribute name to attribute value.
#[derive(Debug, PartialEq)]
pub struct AttributeList(pub Vec<Attribute>);

impl View for AttributeList {
    type V = Map<Seq<char>, Seq<char>>;

    open spec fn view(&self) -> Map<Seq<char>, Seq<char>> {
        attrs_map_of(self.0@)
    }
}

impl Clone for AttributeList {
    fn clone(&self) -> (r: Self)
        ensures
            r@ == self@,
    {
        let mut v: Vec<Attribute> = Vec::new();
        let mut i: usize = 0;
        while i < self.0.len()
            invariant
                i <= self.0.len(),
                v@ =~= self.0@.take(i as int),
            decreases self.0.len() - i,
        {
            v.push(self.0[i].clone());
            i += 1;
        }
        proof {
            assert(v@ =~= self.0@);
        }
        AttributeList(v)
    }
}

impl AttributeList {
    pub fn new() -> (r: Self)
        ensures
            r@ == Map::<Seq<char>, Seq<char>>::empty(),
    {
        AttributeList(Vec::new())
    }

    /// Records an attribute; an attribute declared later with the same name
    /// shadows any earlier one.
    pub fn add(&mut self, attr: Attribute)
        ensures
            final(self)@ == old(self)@.insert(attr.name@, attr.value@),
    {
        let ghost prev = self.0@;
        self.0.push(attr);
        proof {
            assert(self.0@.drop_last() =~= prev);
        }
    }

    /// Looks an attribute up by name and returns its value, if present.
    pub fn get(&self, key: &str) -> (r: Option<String>)
        ensures
            match r {
                Some(v) => self@.contains_key(key@) && v@ == self@[key@],
                None => !self@.contains_key(key@),
            },
    {
        let mut i: usize = self.0.len();
        proof {
            assert(self.0@.take(i as int) =~= self.0@);
        }
        while i > 0
            invariant
                i <= self.0.len(),
                attrs_map_of(self.0@).contains_key(key@) == attrs_map_of(
                    self.0@.take(i as int),
                ).contains_key(key@),
                attrs_map_of(self.0@).contains_key(key@) ==> attrs_map_of(self.0@)[key@]
                    == attrs_map_of(self.0@.take(i as int))[key@],
            decreases i,
        {
            i -= 1;
            proof {
                assert(self.0@.take(i + 1).drop_last() =~= self.0@.take(i as int));
                assert(self.0@.take(i + 1).last() == self.0@[i as int]);
            }
            if crate::token::str_eq(self.0[i].name.as_str(), key) {
                return Some(self.0[i].value.clone());
            }
        }
        proof {
            assert(self.0@.take(0) =~= Seq::<Attribute>::empty());
        }
        None
    }
}

/// Ghost form of a type name: either a bare (possibly dotted) identifier or
/// a generic application with exactly one nested parameter.
pub enum TypeNameV {
    Concrete(Seq<char>),
    Generic(Seq<char>, Box<TypeNameV>),
}

impl TypeNameV {
    /// The head identifier: the name itself for a concrete type, the outer
    /// name for a generic one.
    pub open spec fn identifier(self) -> Seq<char> {
        match self {
            TypeNameV::Concrete(s) => s,
            TypeNameV::Generic(s, _) => s,
        }
    }
}

/// A reference to a type: a bare (possibly dotted) identifier, or a generic
/// application `Outer<Inner>` with exactly one type parameter per level.
#[derive(Debug, PartialEq)]
pub enum TypeName {
    Concrete(String),
    Generic(String, Box<TypeName>),
}

impl View for TypeName {
    type V = TypeNameV;

    open spec fn view(&self) -> TypeNameV
        decreases self,
    {
        match self {
            TypeName::Concrete(s) => TypeNameV::Concrete(s@),
            TypeName::Generic(s, b) => TypeNameV::Generic(s@, Box::new((**b)@)),
        }
    }
}

impl Clone for TypeName {
    fn clone(&self) -> (r: Self)
        ensures
            r@ == self@,
        decreases *self,
    {
        match self {
            TypeName::Concrete(s) => TypeName::Concrete(s.clone()),
            TypeName::Generic(s, b) => TypeName::Generic(s.clone(), Box::new((**b).clone())),
        }
    }
}

impl TypeName {
    /// The head identifier of the reference, as the symbol table keys it.
    pub fn identifier(&self) -> (r: String)
        ensures
            r@ == self@.identifier(),
    {
        match self {
            TypeName::Concrete(s) => s.clone(),
            TypeName::Generic(s, _) => s.clone(),
        }
    }
}

/// An anonymous ordered sequence of type-name strings: the positional
/// payload of an enum variant, viewed as a sequence of character sequences.
#[derive(Debug, PartialEq)]
pub struct Tuple(pub Vec<String>);

impl View for Tuple {
    type V = Seq<Seq<char>>;

    open spec fn view(&self) -> Seq<Seq<char>> {
        self.0@.map_values(|s: String| s@)
    }
}

impl Clone for Tuple {
    fn clone(&self) -> (r: Self)
        ensures
            r@ == self@,
    {
        let mut v: Vec<String> = Vec::new();
        let mut i: usize = 0;
        while i < self.0.len()
            invariant
                i <= self.0.len(),
                v@ =~= self.0@.take(i as int),
            decreases self.0.len() - i,
        {
            v.push(self.0[i].clone());
            i += 1;
        }
        proof {
            assert(v@ =~= self.0@);
        }
        Tuple(v)
    }
}

/// Ghost form of one enum variant.
pub struct EnumVariantV {
    pub name: Seq<char>,
    pub attrs: Map<Seq<char>, Seq<char>>,
    pub content: Option<Seq<Seq<char>>>,
}

/// One alternative of a tagged union: a name, its attributes, and an
/// optional positional payload.
#[derive(Debug, PartialEq)]
pub struct EnumVariant {
    pub name: String,
    pub attrs: AttributeList,
    pub content: Option<Tuple>,
}

impl View for EnumVariant {
    type V = EnumVariantV;

    open spec fn view(&self) -> EnumVariantV {
        EnumVariantV {
            name: self.name@,
            attrs: self.attrs@,
            content: match self.content {
                Some(t) => Some(t@),
                None => None,
            },
        }
    }
}

impl Clone for EnumVariant {
    fn clone(&self) -> (r: Self)
        ensures
            r@ == self@,
    {
        EnumVariant {
            name: self.name.clone(),
            attrs: self.attrs.clone(),
            content: match &self.content {
                Some(t) => Some(t.clone()),
                None => None,
            },
        }
    }
}

/// A tagged union: an ordered sequence of variants. The order is the
/// discriminant order in every generation target, so it is significant.
#[derive(Debug, PartialEq)]
pub struct EnumMessage {
    pub variants: Vec<EnumVariant>,
}

impl View for EnumMessage {
    type V = Seq<EnumVariantV>;

    open spec fn view(&self) -> Seq<EnumVariantV> {
        self.variants@.map_values(|v: EnumVariant| v@)
    }
}

impl Clone for EnumMessage {
    fn clone(&self) -> (r: Self)
        ensures
            r@ == self@,
    {
        let mut v: Vec<EnumVariant> = Vec::new();
        let mut i: usize = 0;
        while i < self.variants.len()
            invariant
                i <= self.variants.len(),
                v@.len() == i,
                forall|k: int| 0 <= k < i ==> #[trigger] v@[k]@ == self.variants@[k]@,
            decreases self.variants.len() - i,
        {
            v.push(self.variants[i].clone());
            i += 1;
        }
        proof {
            assert(v@.map_values(|x: EnumVariant| x@) =~= self.variants@.map_values(
                |x: EnumVariant| x@,
            ));
        }
        EnumMessage { variants: v }
    }
}

/// Ghost form of one struct field.
pub struct StructFieldV {
    pub name: Seq<char>,
    pub type_ref: TypeNameV,
    pub is_optional: bool,
    pub attrs: Map<Seq<char>, Seq<char>>,
}

/// One named field of a struct message, with its type reference, its
/// optionality marker and its attributes.
#[derive(Debug, PartialEq)]
pub struct StructField {
    pub name: String,
    pub type_ref: TypeName,
    pub is_optional: bool,
    pub attrs: AttributeList,
}

impl View for StructField {
    type V = StructFieldV;

    open spec fn view(&self) -> StructFieldV {
        StructFieldV {
            name: self.name@,
            type_ref: self.type_ref@,
            is_optional: self.is_optional,
            attrs: self.attrs@,
        }
    }
}

impl Clone for StructField {
    fn clone(&self) -> (r: Self)
        ensures
            r@ == self@,
    {
        StructField {
            name: self.name.clone(),
            type_ref: self.type_ref.clone(),
            is_optional: self.is_optional,
            attrs: self.attrs.clone(),
        }
    }
}

/// A struct message: an ordered sequence of fields. The order is the
/// serialized field order in every generation target, so it is significant.
#[derive(Debug, PartialEq)]
pub struct StructMessage {
    pub fields: Vec<StructField>,
}

impl View for StructMessage {
    type V = Seq<StructFieldV>;

    open spec fn view(&self) -> Seq<StructFieldV> {
        self.fields@.map_values(|f: StructField| f@)
    }
}

impl Clone for StructMessage {
    fn clone(&self) -> (r: Self)
        ensures
            r@ == self@,
    {
        let mut v: Vec<StructField> = Vec::new();
        let mut i: usize = 0;
        while i < self.fields.len()
            invariant
                i <= self.fields.len(),
                v@.len() == i,
                forall|k: int| 0 <= k < i ==> #[trigger] v@[k]@ == self.fields@[k]@,
            decreases self.fields.len() - i,
        {
            v.push(self.fields[i].clone());
            i += 1;
        }
        proof {
            assert(v@.map_values(|x: StructField| x@) =~= self.fields@.map_values(
                |x: StructField| x@,
            ));
        }
        StructMessage { fields: v }
    }
}

/// Ghost form of a message body.
pub enum MessageTypeV {
    Enum(Seq<EnumVariantV>),
    Struct(Seq<StructFieldV>),
}

/// The body of a message: exactly one of a tagged union or a struct.
#[derive(Debug, PartialEq)]
pub enum MessageType {
    Enum(EnumMessage),
    Struct(StructMessage),
}

impl View for MessageType {
    type V = MessageTypeV;

    open spec fn view(&self) -> MessageTypeV {
        match self {
            MessageType::Enum(m) => MessageTypeV::Enum(m@),
            MessageType::Struct(m) => MessageTypeV::Struct(m@),
        }
    }
}

impl Clone for MessageType {
    fn clone(&self) -> (r: Self)
        ensures
            r@ == self@,
    {
        match self {
            MessageType::Enum(m) => MessageType::Enum(m.clone()),
            MessageType::Struct(m) => MessageType::Struct(m.clone()),
        }
    }
}

/// Ghost form of what a symbol stands for.
pub enum SymbolTypeV {
    Message(MessageTypeV),
    Primitive,
}

/// What a top-level symbol stands for: a message defined in the file, or an
/// opaque built-in primitive declared with `type Name;` and no body.
#[derive(Debug, PartialEq)]
pub enum SymbolType {
    Message(MessageType),
    Primitive,
}

impl View for SymbolType {
    type V = SymbolTypeV;

    open spec fn view(&self) -> SymbolTypeV {
        match self {
            SymbolType::Message(m) => SymbolTypeV::Message(m@),
            SymbolType::Primitive => SymbolTypeV::Primitive,
        }
    }
}

impl Clone for SymbolType {
    fn clone(&self) -> (r: Self)
        ensures
            r@ == self@,
    {
        match self {
            SymbolType::Message(m) => SymbolType::Message(m.clone()),
            SymbolType::Primitive => SymbolType::Primitive,
        }
    }
}

/// Ghost form of one top-level declaration.
pub struct SymbolDefinitionV {
    pub name: TypeNameV,
    pub attrs: Map<Seq<char>, Seq<char>>,
    pub value: SymbolTypeV,
}

/// One top-level declaration of a file: its name, its attributes and what it
/// stands for.
#[derive(Debug, PartialEq)]
pub struct SymbolDefinition {
    pub name: TypeName,
    pub attrs: AttributeList,
    pub value: SymbolType,
}

impl View for SymbolDefinition {
    type V = SymbolDefinitionV;

    open spec fn view(&self) -> SymbolDefinitionV {
        SymbolDefinitionV { name: self.name@, attrs: self.attrs@, value: self.value@ }
    }
}

impl Clone for SymbolDefinition {
    fn clone(&self) -> (r: Self)
        ensures
            r@ == self@,
    {
        SymbolDefinition {
            name: self.name.clone(),
            attrs: self.attrs.clone(),
            value: self.value.clone(),
        }
    }
}

/// Ghost form of a module header.
pub struct ModuleInfoV {
    pub name: Seq<char>,
    pub attrs: Map<Seq<char>, Seq<char>>,
}

/// A file's own namespace: its dotted module name and its attributes.
#[derive(Debug, PartialEq)]
pub struct ModuleInfo {
    pub name: String,
    pub attrs: AttributeList,
}

impl View for ModuleInfo {
    type V = ModuleInfoV;

    open spec fn view(&self) -> ModuleInfoV {
        ModuleInfoV { name: self.name@, attrs: self.attrs@ }
    }
}

impl Clone for ModuleInfo {
    fn clone(&self) -> (r: Self)
        ensures
            r@ == self@,
    {
        ModuleInfo { name: self.name.clone(), attrs: self.attrs.clone() }
    }
}

/// A portion of a [`DottedIdent`]: one identifier segment, or the trailing
/// wildcard segment.
#[derive(Debug, PartialEq)]
pub enum DottedIdentPart {
    Ident(String),
    Wildcard,
}

impl Clone for DottedIdentPart {
    fn clone(&self) -> (r: Self)
        ensures
            r == *self,
    {
        match self {
            DottedIdentPart::Ident(s) => DottedIdentPart::Ident(s.clone()),
            DottedIdentPart::Wildcard => DottedIdentPart::Wildcard,
        }
    }
}

/// A dotted variable name such as `SomeModule.SubModule.*`, kept as its
/// ordered segments; only the last segment may be a wildcard.
#[derive(Debug, PartialEq)]
pub struct DottedIdent {
    pub parts: Vec<DottedIdentPart>,
}

/// Ghost form of an import binding.
pub enum IdentOrWildcardV {
    Ident(Seq<char>),
    Wildcard,
}

/// How a `use` statement binds the imported symbols: under an alias prefix
/// (`as Name`), or unqualified (`.*`).
#[derive(Debug, PartialEq)]
pub enum IdentOrWildcard {
    Ident(String),
    Wildcard,
}

impl View for IdentOrWildcard {
    type V = IdentOrWildcardV;

    open spec fn view(&self) -> IdentOrWildcardV {
        match self {
            IdentOrWildcard::Ident(s) => IdentOrWildcardV::Ident(s@),
            IdentOrWildcard::Wildcard => IdentOrWildcardV::Wildcard,
        }
    }
}

impl Clone for IdentOrWildcard {
    fn clone(&self) -> (r: Self)
        ensures
            r@ == self@,
    {
        match self {
            IdentOrWildcard::Ident(s) => IdentOrWildcard::Ident(s.clone()),
            IdentOrWildcard::Wildcard => IdentOrWildcard::Wildcard,
        }
    }
}

/// Ghost form of one `use` statement.
pub struct ModuleUseV {
    pub attrs: Map<Seq<char>, Seq<char>>,
    pub filename: Seq<char>,
    pub ident: IdentOrWildcardV,
}

/// One import: the quoted filename of the module to load, and how its
/// symbols are bound into the importing scope.
#[derive(Debug, PartialEq)]
pub struct ModuleUse {
    pub attrs: AttributeList,
    pub filename: String,
    pub ident: IdentOrWildcard,
}

impl View for ModuleUse {
    type V = ModuleUseV;

    open spec fn view(&self) -> ModuleUseV {
        ModuleUseV { attrs: self.attrs@, filename: self.filename@, ident: self.ident@ }
    }
}

impl Clone for ModuleUse {
    fn clone(&self) -> (r: Self)
        ensures
            r@ == self@,
    {
        ModuleUse {
            attrs: self.attrs.clone(),
            filename: self.filename.clone(),
            ident: self.ident.clone(),
        }
    }
}

/// Ghost form of one parsed file.
pub struct FileV {
    pub module_info: ModuleInfoV,
    pub use_imports: Seq<ModuleUseV>,
    pub symbols: Seq<SymbolDefinitionV>,
}

/// One parsed source file: its module header, its `use` statements in
/// declaration order, and its top-level symbols in declaration order.
#[derive(Debug, PartialEq)]
pub struct XtFile {
    pub module_info: ModuleInfo,
    pub use_imports: Vec<ModuleUse>,
    pub symbols: Vec<SymbolDefinition>,
}

impl View for XtFile {
    type V = FileV;

    open spec fn view(&self) -> FileV {
        FileV {
            module_info: self.module_info@,
            use_imports: self.use_imports@.map_values(|u: ModuleUse| u@),
            symbols: self.symbols@.map_values(|s: SymbolDefinition| s@),
        }
    }
}

impl Clone for XtFile {
    fn clone(&self) -> (r: Self)
        ensures
            r@ == self@,
    {
        let mut uses: Vec<ModuleUse> = Vec::new();
        let mut i: usize = 0;
        while i < self.use_imports.len()
            invariant
                i <= self.use_imports.len(),
                uses@.len() == i,
                forall|k: int| 0 <= k < i ==> #[trigger] uses@[k]@ == self.use_imports@[k]@,
            decreases self.use_imports.len() - i,
        {
            uses.push(self.use_imports[i].clone());
            i += 1;
        }
        let mut syms: Vec<SymbolDefinition> = Vec::new();
        let mut j: usize = 0;
        while j < self.symbols.len()
            invariant
                j <= self.symbols.len(),
                syms@.len() == j,
                forall|k: int| 0 <= k < j ==> #[trigger] syms@[k]@ == self.symbols@[k]@,
            decreases self.symbols.len() - j,
        {
            syms.push(self.symbols[j].clone());
            j += 1;
        }
        proof {
            assert(uses@.map_values(|u: ModuleUse| u@) =~= self.use_imports@.map_values(
                |u: ModuleUse| u@,
            ));
            assert(syms@.map_values(|s: SymbolDefinition| s@) =~= self.symbols@.map_values(
                |s: SymbolDefinition| s@,
            ));
        }
        XtFile { module_info: self.module_info.clone(), use_imports: uses, symbols: syms }
    }
}

} // verus!
