//! The Rust types that RON documents are checked against.

use crate::keyed::{
    key_index, keys_distinct, last_with_key, lemma_key_index, lemma_last_with_key, lemma_put_all,
    lemma_put_all_again, lemma_put_all_concat, lemma_put_one, put_all,
};
use crate::lsp::opt_view;
use crate::rust_syntax::{
    attribute_views, field_views, fields_have_names, item_views, items_have_names, leaf_has_names,
    leaves_have_names, parse_rust, rust_items, variant_views, variants_have_names, AttributeModel,
    EnumModel, FieldModel, FieldsModel, IdentModel, ItemModel, RustAlias, RustAttribute, RustEnum,
    RustField, RustFields, RustItem, RustStruct, RustType, RustVariant, StructModel, TypeModel,
    VariantModel,
};
use crate::text;
use vstd::prelude::*;
use vstd::string::StringExecFns;

verus! {

// ---------------------------------------------------------------------------
// Types
// ---------------------------------------------------------------------------

/// A field of a struct or of an enum variant.
#[derive(Debug, Clone)]
pub struct FieldInfo {
    pub name: String,
    pub type_text: String,
    pub docs: Option<String>,
    pub line: Option<usize>,
    pub column: Option<usize>,
    pub has_default: bool,
}

/// A variant of an enum.
#[derive(Debug, Clone)]
pub struct EnumVariant {
    pub name: String,
    pub fields: Vec<FieldInfo>,
    pub docs: Option<String>,
    pub line: Option<usize>,
    pub column: Option<usize>,
}

/// What a type is made of.
#[derive(Debug, Clone)]
pub enum TypeKind {
    Struct(Vec<FieldInfo>),
    Enum(Vec<EnumVariant>),
}

/// A type: its path and what it is made of.
#[derive(Debug, Clone)]
pub struct TypeInfo {
    pub name: String,
    pub kind: TypeKind,
    pub docs: Option<String>,
    pub source_file: Option<String>,
    pub line: Option<usize>,
    pub column: Option<usize>,
    pub has_default: bool,
    pub is_transparent: bool,
}

/// The model of a field.
#[verifier::ext_equal]
pub ghost struct FieldInfoModel {
    pub name: Seq<char>,
    pub type_text: Seq<char>,
    pub docs: Option<Seq<char>>,
    pub line: Option<usize>,
    pub column: Option<usize>,
    pub has_default: bool,
}

/// The model of a variant.
#[verifier::ext_equal]
pub ghost struct EnumVariantModel {
    pub name: Seq<char>,
    pub fields: Seq<FieldInfoModel>,
    pub docs: Option<Seq<char>>,
    pub line: Option<usize>,
    pub column: Option<usize>,
}

/// The model of what a type is made of.
#[verifier::ext_equal]
pub ghost enum TypeKindModel {
    Struct(Seq<FieldInfoModel>),
    Enum(Seq<EnumVariantModel>),
}

/// The model of a type.
#[verifier::ext_equal]
pub ghost struct TypeInfoModel {
    pub name: Seq<char>,
    pub kind: TypeKindModel,
    pub docs: Option<Seq<char>>,
    pub source_file: Option<Seq<char>>,
    pub line: Option<usize>,
    pub column: Option<usize>,
    pub has_default: bool,
    pub is_transparent: bool,
}

impl View for FieldInfo {
    type V = FieldInfoModel;

    open spec fn view(&self) -> FieldInfoModel {
        FieldInfoModel {
            name: self.name@,
            type_text: self.type_text@,
            docs: opt_view(self.docs),
            line: self.line,
            column: self.column,
            has_default: self.has_default,
        }
    }
}

/// The models of the fields of a list.
pub open spec fn field_info_views(fields: Seq<FieldInfo>) -> Seq<FieldInfoModel> {
    fields.map_values(|f: FieldInfo| f@)
}

impl View for EnumVariant {
    type V = EnumVariantModel;

    open spec fn view(&self) -> EnumVariantModel {
        EnumVariantModel {
            name: self.name@,
            fields: field_info_views(self.fields@),
            docs: opt_view(self.docs),
            line: self.line,
            column: self.column,
        }
    }
}

/// The models of the variants of a list.
pub open spec fn variant_info_views(variants: Seq<EnumVariant>) -> Seq<EnumVariantModel> {
    variants.map_values(|v: EnumVariant| v@)
}

impl View for TypeInfo {
    type V = TypeInfoModel;

    open spec fn view(&self) -> TypeInfoModel {
        TypeInfoModel {
            name: self.name@,
            kind: match self.kind {
                TypeKind::Struct(fields) => TypeKindModel::Struct(field_info_views(fields@)),
                TypeKind::Enum(variants) => TypeKindModel::Enum(variant_info_views(variants@)),
            },
            docs: opt_view(self.docs),
            source_file: opt_view(self.source_file),
            line: self.line,
            column: self.column,
            has_default: self.has_default,
            is_transparent: self.is_transparent,
        }
    }
}

/// The models of the types of a list.
pub open spec fn type_views(types: Seq<TypeInfo>) -> Seq<TypeInfoModel> {
    types.map_values(|t: TypeInfo| t@)
}

impl FieldInfo {
    /// Whether a document may leave the field out.
    pub open spec fn optional(self) -> bool {
        "Option"@.is_prefix_of(self.type_text@) || self.has_default
    }

    /// Whether a document may leave the field out: it is an `Option` or has a default.
    pub fn is_optional(&self) -> (r: bool)
        ensures
            r == self.optional(),
    {
        text::starts_with(self.type_text.as_str(), "Option") || self.has_default
    }
}

/// The first field, from index `i` on, that has a name.
pub open spec fn field_named(fields: Seq<FieldInfo>, name: Seq<char>, i: int) -> Option<FieldInfo>
    decreases fields.len() - i,
{
    if i < 0 || i >= fields.len() {
        None
    } else if fields[i].name@ == name {
        Some(fields[i])
    } else {
        field_named(fields, name, i + 1)
    }
}

/// The first field that has a name among the fields of the variants from index `i` on.
pub open spec fn variant_field_named(
    variants: Seq<EnumVariant>,
    name: Seq<char>,
    i: int,
) -> Option<FieldInfo>
    decreases variants.len() - i,
{
    if i < 0 || i >= variants.len() {
        None
    } else if field_named(variants[i].fields@, name, 0) is Some {
        field_named(variants[i].fields@, name, 0)
    } else {
        variant_field_named(variants, name, i + 1)
    }
}

/// The first variant, from index `i` on, that has a name.
pub open spec fn variant_named(variants: Seq<EnumVariant>, name: Seq<char>, i: int) -> Option<
    EnumVariant,
>
    decreases variants.len() - i,
{
    if i < 0 || i >= variants.len() {
        None
    } else if variants[i].name@ == name {
        Some(variants[i])
    } else {
        variant_named(variants, name, i + 1)
    }
}

/// The first field of a list that has a name.
pub fn find_field_in<'a>(fields: &'a Vec<FieldInfo>, name: &str) -> (r: Option<&'a FieldInfo>)
    ensures
        match r {
            Some(f) => field_named(fields@, name@, 0) == Some(*f),
            None => field_named(fields@, name@, 0) is None,
        },
{
    let mut i: usize = 0;
    while i < fields.len()
        invariant
            i <= fields@.len(),
            field_named(fields@, name@, 0) == field_named(fields@, name@, i as int),
        decreases fields@.len() - i,
    {
        if text::str_eq(fields[i].name.as_str(), name) {
            return Some(&fields[i]);
        }
        i = i + 1;
    }
    None
}

/// The first variant of a list that has a name.
pub fn find_variant_in<'a>(variants: &'a Vec<EnumVariant>, name: &str) -> (r: Option<
    &'a EnumVariant,
>)
    ensures
        match r {
            Some(v) => variant_named(variants@, name@, 0) == Some(*v),
            None => variant_named(variants@, name@, 0) is None,
        },
{
    let mut i: usize = 0;
    while i < variants.len()
        invariant
            i <= variants@.len(),
            variant_named(variants@, name@, 0) == variant_named(variants@, name@, i as int),
        decreases variants@.len() - i,
    {
        if text::str_eq(variants[i].name.as_str(), name) {
            return Some(&variants[i]);
        }
        i = i + 1;
    }
    None
}

impl TypeInfo {
    /// The field that a name stands for: of a struct its own, of an enum one of any variant.
    pub open spec fn field_with_name(self, name: Seq<char>) -> Option<FieldInfo> {
        match self.kind {
            TypeKind::Struct(fields) => field_named(fields@, name, 0),
            TypeKind::Enum(variants) => variant_field_named(variants@, name, 0),
        }
    }

    /// The variant that a name stands for: of an enum only.
    pub open spec fn variant_with_name(self, name: Seq<char>) -> Option<EnumVariant> {
        match self.kind {
            TypeKind::Struct(_) => None,
            TypeKind::Enum(variants) => variant_named(variants@, name, 0),
        }
    }

    /// The fields of a struct; `None` for an enum.
    pub fn fields(&self) -> (r: Option<&Vec<FieldInfo>>)
        ensures
            match self.kind {
                TypeKind::Struct(fields) => r == Some(&fields),
                TypeKind::Enum(_) => r is None,
            },
    {
        match &self.kind {
            TypeKind::Struct(fields) => Some(fields),
            TypeKind::Enum(_) => None,
        }
    }

    /// The first field with a name; of an enum, among the fields of all its variants.
    pub fn find_field(&self, field_name: &str) -> (r: Option<&FieldInfo>)
        ensures
            match r {
                Some(f) => self.field_with_name(field_name@) == Some(*f),
                None => self.field_with_name(field_name@) is None,
            },
    {
        match &self.kind {
            TypeKind::Struct(fields) => find_field_in(fields, field_name),
            TypeKind::Enum(variants) => {
                let mut i: usize = 0;
                while i < variants.len()
                    invariant
                        i <= variants@.len(),
                        variant_field_named(variants@, field_name@, 0) == variant_field_named(
                            variants@,
                            field_name@,
                            i as int,
                        ),
                        self.kind == TypeKind::Enum(*variants),
                    decreases variants@.len() - i,
                {
                    let found = find_field_in(&variants[i].fields, field_name);
                    if found.is_some() {
                        return found;
                    }
                    i = i + 1;
                }
                None
            },
        }
    }

    /// The first variant with a name; `None` for a struct.
    pub fn find_variant(&self, variant_name: &str) -> (r: Option<&EnumVariant>)
        ensures
            match r {
                Some(v) => self.variant_with_name(variant_name@) == Some(*v),
                None => self.variant_with_name(variant_name@) is None,
            },
    {
        match &self.kind {
            TypeKind::Enum(variants) => find_variant_in(variants, variant_name),
            TypeKind::Struct(_) => None,
        }
    }
}

// ---------------------------------------------------------------------------
// Looking types up
// ---------------------------------------------------------------------------

/// A type alias: the path of the alias and the type it stands for.
#[derive(Debug, Clone)]
pub struct TypeAlias {
    pub path: String,
    pub target: String,
}

/// The index of the first type, from index `i` on, that has a path.
pub open spec fn type_index(types: Seq<TypeInfo>, path: Seq<char>, i: int) -> Option<int>
    decreases types.len() - i,
{
    if i < 0 || i >= types.len() {
        None
    } else if types[i].name@ == path {
        Some(i)
    } else {
        type_index(types, path, i + 1)
    }
}

/// The type that has a path.
pub open spec fn type_at(types: Seq<TypeInfo>, path: Seq<char>) -> Option<TypeInfo> {
    match type_index(types, path, 0) {
        Some(i) => Some(types[i]),
        None => None,
    }
}

/// The index of the first alias, from index `i` on, that has a path.
pub open spec fn alias_index(aliases: Seq<TypeAlias>, path: Seq<char>, i: int) -> Option<int>
    decreases aliases.len() - i,
{
    if i < 0 || i >= aliases.len() {
        None
    } else if aliases[i].path@ == path {
        Some(i)
    } else {
        alias_index(aliases, path, i + 1)
    }
}

/// What a type path stands for once the aliases are resolved.
pub open spec fn resolved_path(aliases: Seq<TypeAlias>, path: Seq<char>) -> Seq<char> {
    match alias_index(aliases, path, 0) {
        Some(i) => aliases[i].target@,
        None => path,
    }
}

/// Whether a full path is the given one, or ends in it after a separator.
pub open spec fn path_matches(full: Seq<char>, path: Seq<char>) -> bool {
    (text::path_separator() + path).is_suffix_of(full) || full == path
}

/// The first type, from index `i` on, that one of two paths matches.
pub open spec fn type_matching(
    types: Seq<TypeInfo>,
    path: Seq<char>,
    other: Seq<char>,
    i: int,
) -> Option<TypeInfo>
    decreases types.len() - i,
{
    if i < 0 || i >= types.len() {
        None
    } else if path_matches(types[i].name@, path) || path_matches(types[i].name@, other) {
        Some(types[i])
    } else {
        type_matching(types, path, other, i + 1)
    }
}

/// The type that a path stands for: the one with the resolved path, else the one with the path
/// itself, else one whose path ends in either.
pub open spec fn lookup(types: Seq<TypeInfo>, aliases: Seq<TypeAlias>, path: Seq<char>) -> Option<
    TypeInfo,
> {
    let resolved = resolved_path(aliases, path);
    if type_at(types, resolved) is Some {
        type_at(types, resolved)
    } else if type_at(types, path) is Some {
        type_at(types, path)
    } else {
        type_matching(types, path, resolved, 0)
    }
}

/// The type that a path stands for after a scan that its first lookup asked for: the one with the
/// path resolved before the scan, else the one with the path itself, else one whose path ends in
/// the path itself.
pub open spec fn lookup_after_scan(
    types: Seq<TypeInfo>,
    resolved: Seq<char>,
    path: Seq<char>,
) -> Option<TypeInfo> {
    if type_at(types, resolved) is Some {
        type_at(types, resolved)
    } else if type_at(types, path) is Some {
        type_at(types, path)
    } else {
        type_matching(types, path, path, 0)
    }
}

/// Whether no two types of a list have the same path.
pub open spec fn distinct_paths(types: Seq<TypeInfo>) -> bool {
    forall|i: int, j: int|
        0 <= i < j < types.len() ==> (#[trigger] types[i]).name@ != (#[trigger] types[j]).name@
}

/// Whether no two aliases of a list have the same path.
pub open spec fn distinct_aliases(aliases: Seq<TypeAlias>) -> bool {
    forall|i: int, j: int|
        0 <= i < j < aliases.len() ==> (#[trigger] aliases[i]).path@ != (
        #[trigger] aliases[j]).path@
}

/// A list of types with one put in under its path.
pub open spec fn with_type(types: Seq<TypeInfo>, info: TypeInfo) -> Seq<TypeInfo> {
    match type_index(types, info.name@, 0) {
        Some(i) => types.update(i, info),
        None => types.push(info),
    }
}

/// The index is one of the list, of a type with the path, and no earlier type has it; without an
/// index no type has it.
pub proof fn lemma_type_index(types: Seq<TypeInfo>, path: Seq<char>, i: int)
    requires
        0 <= i,
    ensures
        match type_index(types, path, i) {
            Some(k) => i <= k < types.len() && types[k].name@ == path && (forall|j: int|
                i <= j < k ==> (#[trigger] types[j]).name@ != path),
            None => forall|j: int| i <= j < types.len() ==> (#[trigger] types[j]).name@ != path,
        },
    decreases types.len() - i,
{
    if i < types.len() && types[i].name@ != path {
        lemma_type_index(types, path, i + 1);
    }
}

/// The same for aliases.
pub proof fn lemma_alias_index(aliases: Seq<TypeAlias>, path: Seq<char>, i: int)
    requires
        0 <= i,
    ensures
        match alias_index(aliases, path, i) {
            Some(k) => i <= k < aliases.len() && aliases[k].path@ == path && (forall|j: int|
                i <= j < k ==> (#[trigger] aliases[j]).path@ != path),
            None => forall|j: int| i <= j < aliases.len() ==> (#[trigger] aliases[j]).path@ != path,
        },
    decreases aliases.len() - i,
{
    if i < aliases.len() && aliases[i].path@ != path {
        lemma_alias_index(aliases, path, i + 1);
    }
}

// ---------------------------------------------------------------------------
// Reading types
// ---------------------------------------------------------------------------

/// The lines of documentation in a list of attributes, each without white space around it.
pub open spec fn doc_lines(attrs: Seq<AttributeModel>) -> Seq<Seq<char>>
    decreases attrs.len(),
{
    if attrs.len() == 0 {
        Seq::empty()
    } else {
        let rest = doc_lines(attrs.drop_last());
        match attrs.last().value {
            Some(value) => if attrs.last().ident == Some("doc"@) {
                rest.push(text::trimmed(value))
            } else {
                rest
            },
            None => rest,
        }
    }
}

/// The documentation in a list of attributes.
pub open spec fn docs_of(attrs: Seq<AttributeModel>) -> Option<Seq<char>> {
    if doc_lines(attrs).len() == 0 {
        None
    } else {
        Some(text::joined(doc_lines(attrs), "\n"@))
    }
}

/// Whether the path of an attribute is one identifier.
pub open spec fn is_attribute(attr: AttributeModel, ident: Seq<char>) -> bool {
    attr.ident == Some(ident)
}

/// Whether one of the pieces between the commas of a text is `Default`.
pub open spec fn lists_default(tokens: Seq<char>) -> bool {
    exists|i: int|
        0 <= i < text::split_at_char(tokens, ',').len() && text::trimmed(
            #[trigger] text::split_at_char(tokens, ',')[i],
        ) == "Default"@
}

/// Whether an attribute derives `Default`.
pub open spec fn derives_default(attr: AttributeModel) -> bool {
    is_attribute(attr, "derive"@) && match attr.list {
        Some(tokens) => lists_default(tokens),
        None => false,
    }
}

/// Whether a list of attributes derives `Default`.
pub open spec fn default_derived(attrs: Seq<AttributeModel>) -> bool {
    exists|i: int| 0 <= i < attrs.len() && derives_default(#[trigger] attrs[i])
}

/// Whether an attribute is `#[serde(..)]` with a word in it.
pub open spec fn is_serde_word(attr: AttributeModel, word: Seq<char>) -> bool {
    is_attribute(attr, "serde"@) && attr.nested.contains(Some(word))
}

/// Whether a list of attributes has `#[serde(..)]` with a word in it.
pub open spec fn serde_says(attrs: Seq<AttributeModel>, word: Seq<char>) -> bool {
    exists|i: int| 0 <= i < attrs.len() && is_serde_word(#[trigger] attrs[i], word)
}

/// The text of a type.
pub open spec fn text_of_type(ty: TypeModel) -> Seq<char>
    decreases ty,
{
    match ty {
        TypeModel::Reference { mutable, elem } => if mutable {
            "&mut "@ + text_of_type(*elem)
        } else {
            "&"@ + text_of_type(*elem)
        },
        TypeModel::Other(tokens) => tokens,
    }
}

fn attribute_is(attr: &RustAttribute, ident: &str) -> (r: bool)
    ensures
        r == is_attribute(attr@, ident@),
{
    match &attr.ident {
        Some(found) => text::str_eq(found.as_str(), ident),
        None => false,
    }
}

/// The documentation in a list of attributes.
pub fn extract_docs(attrs: &Vec<RustAttribute>) -> (r: Option<String>)
    ensures
        opt_view(r) == docs_of(attribute_views(attrs@)),
{
    let mut lines: Vec<String> = Vec::new();
    assert(text::views(lines@) == Seq::<Seq<char>>::empty());
    let mut i: usize = 0;
    while i < attrs.len()
        invariant
            i <= attrs@.len(),
            text::views(lines@) == doc_lines(attribute_views(attrs@).take(i as int)),
        decreases attrs@.len() - i,
    {
        let ghost all = attribute_views(attrs@);
        assert(all.take(i + 1).drop_last() == all.take(i as int));
        assert(all[i as int] == attrs@[i as int]@);
        let ghost before = lines@;
        if attribute_is(&attrs[i], "doc") {
            if let Some(value) = &attrs[i].value {
                let line = text::trim(value.as_str()).to_owned();
                lines.push(line);
                assert(text::views(lines@) == text::views(before).push(line@));
            }
        }
        i = i + 1;
    }
    assert(attribute_views(attrs@).take(i as int) == attribute_views(attrs@));
    assert(text::views(lines@).len() == lines@.len());
    if lines.len() == 0 {
        None
    } else {
        Some(text::join(&lines, "\n"))
    }
}

fn has_default_in(tokens: &str) -> (r: bool)
    ensures
        r == lists_default(tokens@),
{
    let pieces = text::split(tokens, ',');
    let ghost all = text::split_at_char(tokens@, ',');
    assert(all.len() == pieces@.len());
    let mut i: usize = 0;
    while i < pieces.len()
        invariant
            i <= pieces@.len(),
            all == text::views(pieces@),
            all == text::split_at_char(tokens@, ','),
            forall|k: int| 0 <= k < i ==> text::trimmed(#[trigger] all[k]) != "Default"@,
        decreases pieces@.len() - i,
    {
        assert(all[i as int] == pieces@[i as int]@);
        if text::str_eq(text::trim(pieces[i].as_str()), "Default") {
            return true;
        }
        i = i + 1;
    }
    false
}

/// Whether a list of attributes derives `Default`.
pub fn has_default_derive(attrs: &Vec<RustAttribute>) -> (r: bool)
    ensures
        r == default_derived(attribute_views(attrs@)),
{
    let ghost all = attribute_views(attrs@);
    let mut i: usize = 0;
    while i < attrs.len()
        invariant
            i <= attrs@.len(),
            all == attribute_views(attrs@),
            forall|k: int| 0 <= k < i ==> !derives_default(#[trigger] all[k]),
        decreases attrs@.len() - i,
    {
        assert(all[i as int] == attrs@[i as int]@);
        if attribute_is(&attrs[i], "derive") {
            if let Some(tokens) = &attrs[i].list {
                if has_default_in(tokens.as_str()) {
                    return true;
                }
            }
        }
        i = i + 1;
    }
    false
}

fn has_word(words: &Vec<Option<String>>, word: &str) -> (r: bool)
    ensures
        r == words@.map_values(|s: Option<String>| opt_view(s)).contains(Some(word@)),
{
    let ghost all = words@.map_values(|s: Option<String>| opt_view(s));
    let mut i: usize = 0;
    while i < words.len()
        invariant
            i <= words@.len(),
            all == words@.map_values(|s: Option<String>| opt_view(s)),
            forall|k: int| 0 <= k < i ==> #[trigger] all[k] != Some(word@),
        decreases words@.len() - i,
    {
        assert(all[i as int] == opt_view(words@[i as int]));
        if let Some(found) = &words[i] {
            if text::str_eq(found.as_str(), word) {
                return true;
            }
        }
        i = i + 1;
    }
    false
}

fn has_serde_word(attrs: &Vec<RustAttribute>, word: &str) -> (r: bool)
    ensures
        r == serde_says(attribute_views(attrs@), word@),
{
    let ghost all = attribute_views(attrs@);
    let mut i: usize = 0;
    while i < attrs.len()
        invariant
            i <= attrs@.len(),
            all == attribute_views(attrs@),
            forall|k: int| 0 <= k < i ==> !is_serde_word(#[trigger] all[k], word@),
        decreases attrs@.len() - i,
    {
        assert(all[i as int] == attrs@[i as int]@);
        if attribute_is(&attrs[i], "serde") && has_word(&attrs[i].nested, word) {
            return true;
        }
        i = i + 1;
    }
    false
}

/// What the serde attributes of a field say.
#[derive(Debug, Clone, Copy)]
pub struct SerdeFieldAttributes {
    /// `#[serde(default)]`
    pub has_default: bool,
}

/// What the serde attributes of a type say.
#[derive(Debug, Clone, Copy)]
pub struct SerdeContainerAttributes {
    /// `#[serde(transparent)]`
    pub is_transparent: bool,
}

/// What the serde attributes of a field say.
pub fn extract_serde_field_attributes(field: &RustField) -> (r: SerdeFieldAttributes)
    ensures
        r.has_default == serde_says(field@.attrs, "default"@),
{
    SerdeFieldAttributes { has_default: has_serde_word(&field.attrs, "default") }
}

/// What the serde attributes of a type say.
pub fn extract_serde_container_attributes(attrs: &Vec<RustAttribute>) -> (r:
    SerdeContainerAttributes)
    ensures
        r.is_transparent == serde_says(attribute_views(attrs@), "transparent"@),
{
    SerdeContainerAttributes { is_transparent: has_serde_word(attrs, "transparent") }
}

/// The text of a type.
pub fn type_to_string(ty: &RustType) -> (r: String)
    ensures
        r@ == text_of_type(ty@),
    decreases ty,
{
    match ty {
        RustType::Reference { mutable, elem } => {
            let inner = type_to_string(&**elem);
            let mut out = if *mutable {
                "&mut ".to_owned()
            } else {
                "&".to_owned()
            };
            out.append(inner.as_str());
            out
        },
        RustType::Other(tokens) => tokens.clone(),
    }
}

/// A field that has a name.
pub open spec fn named_field_info(field: FieldModel) -> FieldInfoModel {
    FieldInfoModel {
        name: field.ident->0.text,
        type_text: text_of_type(field.ty),
        docs: docs_of(field.attrs),
        line: Some(field.ident->0.line),
        column: Some(field.ident->0.column),
        has_default: serde_says(field.attrs, "default"@),
    }
}

/// A field that has an index.
pub open spec fn indexed_field_info(field: FieldModel, i: int) -> FieldInfoModel {
    FieldInfoModel {
        name: text::decimal(i as nat),
        type_text: text_of_type(field.ty),
        docs: None,
        line: None,
        column: None,
        has_default: serde_says(field.attrs, "default"@),
    }
}

/// The fields of a struct or of a variant.
pub open spec fn fields_info(fields: FieldsModel) -> Seq<FieldInfoModel> {
    match fields {
        FieldsModel::Named(fields) => Seq::new(
            fields.len(),
            |i: int| named_field_info(fields[i]),
        ),
        FieldsModel::Unnamed(fields) => Seq::new(
            fields.len(),
            |i: int| indexed_field_info(fields[i], i),
        ),
        FieldsModel::Unit => Seq::empty(),
    }
}

/// A variant of an enum.
pub open spec fn variant_info(variant: VariantModel) -> EnumVariantModel {
    EnumVariantModel {
        name: variant.ident.text,
        fields: fields_info(variant.fields),
        docs: docs_of(variant.attrs),
        line: Some(variant.ident.line),
        column: Some(variant.ident.column),
    }
}

/// The path of an item in a module.
pub open spec fn full_path(module_prefix: Seq<char>, name: Seq<char>) -> Seq<char> {
    if module_prefix.len() == 0 {
        name
    } else {
        module_prefix + "::"@ + name
    }
}

/// The type that a struct is.
pub open spec fn struct_info(
    item: StructModel,
    module_prefix: Seq<char>,
    file_path: Seq<char>,
) -> TypeInfoModel {
    TypeInfoModel {
        name: full_path(module_prefix, item.ident.text),
        kind: TypeKindModel::Struct(fields_info(item.fields)),
        docs: docs_of(item.attrs),
        source_file: Some(file_path),
        line: Some(item.ident.line),
        column: Some(item.ident.column),
        has_default: default_derived(item.attrs),
        is_transparent: serde_says(item.attrs, "transparent"@),
    }
}

/// The type that an enum is.
pub open spec fn enum_info(
    item: EnumModel,
    module_prefix: Seq<char>,
    file_path: Seq<char>,
) -> TypeInfoModel {
    TypeInfoModel {
        name: full_path(module_prefix, item.ident.text),
        kind: TypeKindModel::Enum(
            Seq::new(item.variants.len(), |i: int| variant_info(item.variants[i])),
        ),
        docs: docs_of(item.attrs),
        source_file: Some(file_path),
        line: Some(item.ident.line),
        column: Some(item.ident.column),
        has_default: default_derived(item.attrs),
        is_transparent: serde_says(item.attrs, "transparent"@),
    }
}

fn extract_named_fields(fields: &Vec<RustField>) -> (r: Vec<FieldInfo>)
    requires
        fields_have_names(FieldsModel::Named(field_views(fields@))),
    ensures
        field_info_views(r@) == fields_info(FieldsModel::Named(field_views(fields@))),
{
    let ghost all = field_views(fields@);
    let mut out: Vec<FieldInfo> = Vec::new();
    let mut i: usize = 0;
    while i < fields.len()
        invariant
            i <= fields@.len(),
            all == field_views(fields@),
            fields_have_names(FieldsModel::Named(all)),
            out@.len() == i,
            forall|k: int| 0 <= k < i ==> (#[trigger] out@[k])@ == named_field_info(all[k]),
        decreases fields@.len() - i,
    {
        let field = &fields[i];
        assert(all[i as int] == field@);
        assert(all[i as int].ident is Some);
        if let Some(ident) = &field.ident {
            out.push(
                FieldInfo {
                    name: ident.text.clone(),
                    type_text: type_to_string(&field.ty),
                    docs: extract_docs(&field.attrs),
                    line: Some(ident.line),
                    column: Some(ident.column),
                    has_default: extract_serde_field_attributes(field).has_default,
                },
            );
        }
        i = i + 1;
    }
    assert(field_info_views(out@) == fields_info(FieldsModel::Named(all)));
    out
}

fn extract_indexed_fields(fields: &Vec<RustField>) -> (r: Vec<FieldInfo>)
    ensures
        field_info_views(r@) == fields_info(FieldsModel::Unnamed(field_views(fields@))),
{
    let ghost all = field_views(fields@);
    let mut out: Vec<FieldInfo> = Vec::new();
    let mut i: usize = 0;
    while i < fields.len()
        invariant
            i <= fields@.len(),
            all == field_views(fields@),
            out@.len() == i,
            forall|k: int| 0 <= k < i ==> (#[trigger] out@[k])@ == indexed_field_info(all[k], k),
        decreases fields@.len() - i,
    {
        let field = &fields[i];
        assert(all[i as int] == field@);
        out.push(
            FieldInfo {
                name: text::number_text(i),
                type_text: type_to_string(&field.ty),
                docs: None,
                line: None,
                column: None,
                has_default: extract_serde_field_attributes(field).has_default,
            },
        );
        i = i + 1;
    }
    assert(field_info_views(out@) == fields_info(FieldsModel::Unnamed(all)));
    out
}

fn extract_fields(fields: &RustFields) -> (r: Vec<FieldInfo>)
    requires
        fields_have_names(fields@),
    ensures
        field_info_views(r@) == fields_info(fields@),
{
    match fields {
        RustFields::Named(fields) => extract_named_fields(fields),
        RustFields::Unnamed(fields) => extract_indexed_fields(fields),
        RustFields::Unit => {
            let none: Vec<FieldInfo> = Vec::new();
            assert(field_info_views(none@) == Seq::<FieldInfoModel>::empty());
            none
        },
    }
}

fn extract_variants(variants: &Vec<RustVariant>) -> (r: Vec<EnumVariant>)
    requires
        variants_have_names(variant_views(variants@)),
    ensures
        variant_info_views(r@) == Seq::new(
            variants@.len(),
            |i: int| variant_info(variant_views(variants@)[i]),
        ),
{
    let ghost all = variant_views(variants@);
    let mut out: Vec<EnumVariant> = Vec::new();
    let mut i: usize = 0;
    while i < variants.len()
        invariant
            i <= variants@.len(),
            all == variant_views(variants@),
            variants_have_names(all),
            out@.len() == i,
            forall|k: int| 0 <= k < i ==> (#[trigger] out@[k])@ == variant_info(all[k]),
        decreases variants@.len() - i,
    {
        let variant = &variants[i];
        assert(all[i as int] == variant@);
        out.push(
            EnumVariant {
                name: variant.ident.text.clone(),
                fields: extract_fields(&variant.fields),
                docs: extract_docs(&variant.attrs),
                line: Some(variant.ident.line),
                column: Some(variant.ident.column),
            },
        );
        i = i + 1;
    }
    assert(variant_info_views(out@) == Seq::new(
        variants@.len(),
        |i: int| variant_info(variant_views(variants@)[i]),
    ));
    out
}

fn join_path(module_prefix: &str, name: &str) -> (r: String)
    ensures
        r@ == full_path(module_prefix@, name@),
{
    if text::is_empty(module_prefix) {
        name.to_owned()
    } else {
        let mut path = module_prefix.to_owned();
        path.append("::");
        path.append(name);
        path
    }
}

/// The type that a struct is.
pub fn extract_struct_info(item: &RustStruct, module_prefix: &str, file_path: &str) -> (r: Option<
    TypeInfo,
>)
    requires
        fields_have_names(item@.fields),
    ensures
        match r {
            Some(info) => info@ == struct_info(item@, module_prefix@, file_path@),
            None => false,
        },
{
    Some(
        TypeInfo {
            name: join_path(module_prefix, item.ident.text.as_str()),
            kind: TypeKind::Struct(extract_fields(&item.fields)),
            docs: extract_docs(&item.attrs),
            source_file: Some(file_path.to_owned()),
            line: Some(item.ident.line),
            column: Some(item.ident.column),
            has_default: has_default_derive(&item.attrs),
            is_transparent: extract_serde_container_attributes(&item.attrs).is_transparent,
        },
    )
}

/// The type that an enum is.
pub fn extract_enum_info(item: &RustEnum, module_prefix: &str, file_path: &str) -> (r: Option<
    TypeInfo,
>)
    requires
        variants_have_names(item@.variants),
    ensures
        match r {
            Some(info) => info@ == enum_info(item@, module_prefix@, file_path@),
            None => false,
        },
{
    Some(
        TypeInfo {
            name: join_path(module_prefix, item.ident.text.as_str()),
            kind: TypeKind::Enum(extract_variants(&item.variants)),
            docs: extract_docs(&item.attrs),
            source_file: Some(file_path.to_owned()),
            line: Some(item.ident.line),
            column: Some(item.ident.column),
            has_default: has_default_derive(&item.attrs),
            is_transparent: extract_serde_container_attributes(&item.attrs).is_transparent,
        },
    )
}

// ---------------------------------------------------------------------------
// Module paths
// ---------------------------------------------------------------------------

/// The index of the first part, from index `i` on, that is `src`.
pub open spec fn src_index(parts: Seq<Seq<char>>, i: int) -> Option<int>
    decreases parts.len() - i,
{
    if i < 0 || i >= parts.len() {
        None
    } else if parts[i] == "src"@ {
        Some(i)
    } else {
        src_index(parts, i + 1)
    }
}

/// A file name without the extension `.rs`, however often it has it.
pub open spec fn without_extension(name: Seq<char>) -> Seq<char>
    decreases name.len(),
{
    if seq!['.', 'r', 's'].is_suffix_of(name) && name.len() >= 3 {
        without_extension(name.take(name.len() - 3))
    } else {
        name
    }
}

/// Whether a file of that name holds the module that its directory is.
pub open spec fn is_module_root(stem: Seq<char>) -> bool {
    stem == "lib"@ || stem == "main"@ || stem == "mod"@
}

/// The modules that a file below `src` is in: the directories, and the file itself unless it holds
/// the module that its directory is.
pub open spec fn modules_of(relative: Seq<Seq<char>>) -> Seq<Seq<char>> {
    if relative.len() == 0 {
        relative
    } else {
        let stem = without_extension(relative.last());
        if is_module_root(stem) {
            relative.drop_last()
        } else {
            relative.drop_last().push(stem)
        }
    }
}

/// The module path of a file, from the parts of its file path: `crate` and the modules below the
/// first `src`, or nothing where there is no `src`.
pub open spec fn path_of_module(parts: Seq<Seq<char>>) -> Seq<char> {
    match src_index(parts, 0) {
        Some(i) => {
            let modules = modules_of(parts.skip(i + 1));
            if modules.len() == 0 {
                "crate"@
            } else {
                "crate::"@ + text::joined(modules, "::"@)
            }
        },
        None => Seq::empty(),
    }
}

/// Whether a file path is written with `/` alone and starts with no drive, scheme or server: it has no
/// `\\`, no `:` before the first `/`, and does not start with `//`.
pub open spec fn is_slash_path(path: Seq<char>) -> bool {
    &&& !path.contains('\\')
    &&& !text::split_at_char(path, '/')[0].contains(':')
    &&& !seq!['/', '/'].is_prefix_of(path)
}

/// Whether a text can be the name of a file or a directory.
pub open spec fn is_path_name(name: Seq<char>) -> bool {
    name.len() > 0 && name != seq!['.'] && name != seq!['.', '.']
}

/// The names that a file path with `/` is made of.
pub open spec fn path_names(path: Seq<char>) -> Seq<Seq<char>> {
    text::split_at_char(path, '/').filter(|name: Seq<char>| is_path_name(name))
}

/// The names among the components of a file path.
pub open spec fn component_names(components: Seq<Option<String>>) -> Seq<Seq<char>>
    decreases components.len(),
{
    if components.len() == 0 {
        Seq::empty()
    } else {
        let rest = component_names(components.drop_last());
        match components.last() {
            Some(name) => rest.push(name@),
            None => rest,
        }
    }
}

/// The components of a file path, each as its name where it is a normal one in Unicode:
/// `std::path::Path::components`. How a path is taken apart depends on the platform: `\\` can be
/// a separator, and a drive, a scheme or a server at the start can be a prefix. A path that is written
/// with `/` alone and starts with none of these is taken apart at each `/` on all platforms that have it as a separator,
/// Unix and Windows among them, where empty names, `.` and `..` are no normal components; of the
/// other paths nothing is claimed.
#[verifier::external_body]
fn path_components(path: &str) -> (r: Vec<Option<String>>)
    ensures
        is_slash_path(path@) ==> component_names(r@) == path_names(path@),
{
    std::path::Path::new(path).components().map(
        |component|
            match component {
                std::path::Component::Normal(name) => name.to_str().map(|name| name.to_owned()),
                _ => None,
            },
    ).collect()
}

fn strip_extension(name: &str) -> (r: String)
    ensures
        r@ == without_extension(name@),
{
    let chars = text::to_chars(name);
    let mut n: usize = chars.len();
    assert(chars@.take(n as int) == chars@);
    while n >= 3 && chars[n - 3] == '.' && chars[n - 2] == 'r' && chars[n - 1] == 's'
        invariant
            n <= chars@.len(),
            chars@ == name@,
            without_extension(name@) == without_extension(chars@.take(n as int)),
        decreases n,
    {
        proof {
            let head = chars@.take(n as int);
            assert(head.subrange(n - 3, n as int) == seq!['.', 'r', 's']);
            assert(head.take(n - 3) == chars@.take(n - 3));
        }
        n = n - 3;
    }
    proof {
        let head = chars@.take(n as int);
        if seq!['.', 'r', 's'].is_suffix_of(head) && n >= 3 {
            let tail = head.subrange(n - 3, n as int);
            assert(tail == seq!['.', 'r', 's']);
            assert(tail[0] == chars@[n - 3] && tail[1] == chars@[n - 2] && tail[2] == chars@[n
                - 1]);
        }
    }
    let r = text::from_chars(chars.as_slice(), 0, n);
    assert(r@ == chars@.take(n as int));
    r
}

/// The module path of a file, from the parts of its file path.
pub fn module_path_of_parts(parts: &Vec<String>) -> (r: String)
    ensures
        r@ == path_of_module(text::views(parts@)),
{
    let ghost all = text::views(parts@);
    let n: usize = parts.len();
    let mut src: usize = 0;
    while src < n && !text::str_eq(parts[src].as_str(), "src")
        invariant
            src <= n == parts@.len(),
            all == text::views(parts@),
            src_index(all, 0) == src_index(all, src as int),
        decreases n - src,
    {
        assert(all[src as int] == parts@[src as int]@);
        src = src + 1;
    }
    if src == n {
        return String::new();
    }
    assert(all[src as int] == parts@[src as int]@);
    let ghost relative = all.skip(src + 1);
    let mut modules: Vec<String> = Vec::new();
    let mut i: usize = src + 1;
    assert(text::views(modules@) == relative.take(0));
    while i < n
        invariant
            src + 1 <= i <= n == parts@.len(),
            all == text::views(parts@),
            relative == all.skip(src + 1),
            i < n ==> text::views(modules@) == relative.take(i - src - 1),
            i == n ==> text::views(modules@) == modules_of(relative),
        decreases n - i,
    {
        assert(relative[i - src - 1] == parts@[i as int]@);
        let ghost before = modules@;
        if i + 1 < n {
            modules.push(parts[i].clone());
            assert(text::views(modules@) == text::views(before).push(parts@[i as int]@));
            assert(relative.take(i - src) == relative.take(i - src - 1).push(relative[i - src - 1]));
        } else {
            assert(relative.drop_last() == relative.take(i - src - 1));
            let stem = strip_extension(parts[i].as_str());
            if !(text::str_eq(stem.as_str(), "lib") || text::str_eq(stem.as_str(), "main")
                || text::str_eq(stem.as_str(), "mod")) {
                modules.push(stem);
                assert(text::views(modules@) == text::views(before).push(stem@));
            }
        }
        i = i + 1;
    }
    assert(text::views(modules@).len() == modules@.len());
    if modules.len() == 0 {
        "crate".to_owned()
    } else {
        let mut path = "crate::".to_owned();
        path.append(text::join(&modules, "::").as_str());
        path
    }
}

/// Convert a file path to a module path: `src/models/user.rs` to `crate::models::user`. How a path is
/// taken apart that has a `\\`, or that starts with a drive, a scheme or a server, depends on the
/// platform.
pub fn file_path_to_module_path(file_path: &str) -> (r: String)
    ensures
        is_slash_path(file_path@) ==> r@ == path_of_module(path_names(file_path@)),
        exists|parts: Seq<Seq<char>>| r@ == #[trigger] path_of_module(parts),
{
    let components = path_components(file_path);
    let mut parts: Vec<String> = Vec::new();
    let mut i: usize = 0;
    assert(text::views(parts@) == Seq::<Seq<char>>::empty());
    while i < components.len()
        invariant
            i <= components@.len(),
            text::views(parts@) == component_names(components@.take(i as int)),
        decreases components@.len() - i,
    {
        assert(components@.take(i + 1).drop_last() == components@.take(i as int));
        if let Some(name) = &components[i] {
            let ghost before = parts@;
            parts.push(name.clone());
            assert(text::views(parts@) == text::views(before).push(name@));
        }
        i = i + 1;
    }
    assert(components@.take(i as int) == components@);
    module_path_of_parts(&parts)
}

// ---------------------------------------------------------------------------
// What is known of a workspace
// ---------------------------------------------------------------------------

/// The model of a type alias.
pub ghost struct AliasModel {
    pub path: Seq<char>,
    pub target: Seq<char>,
}

impl View for TypeAlias {
    type V = AliasModel;

    open spec fn view(&self) -> AliasModel {
        AliasModel { path: self.path@, target: self.target@ }
    }
}

/// The models of the aliases of a list.
pub open spec fn alias_views(aliases: Seq<TypeAlias>) -> Seq<AliasModel> {
    aliases.map_values(|a: TypeAlias| a@)
}

/// What is known of a workspace: its types and its type aliases.
#[verifier::ext_equal]
pub ghost struct Known {
    pub types: Seq<TypeInfoModel>,
    pub aliases: Seq<AliasModel>,
}

/// The key of a type: its path.
pub open spec fn type_key() -> spec_fn(TypeInfoModel) -> Seq<char> {
    |info: TypeInfoModel| info.name
}

/// The key of an alias: its path.
pub open spec fn alias_key() -> spec_fn(AliasModel) -> Seq<char> {
    |alias: AliasModel| alias.path
}

impl Known {
    /// Nothing is known.
    pub open spec fn nothing() -> Known {
        Known { types: Seq::empty(), aliases: Seq::empty() }
    }

    /// What is known, and then what more is known, in order.
    pub open spec fn plus(self, more: Known) -> Known {
        Known { types: self.types + more.types, aliases: self.aliases + more.aliases }
    }

    /// What is known once definitions were put in, in order: each in place of what had its path.
    pub open spec fn with(self, definitions: Known) -> Known {
        Known {
            types: put_all(self.types, type_key(), definitions.types),
            aliases: put_all(self.aliases, alias_key(), definitions.aliases),
        }
    }

    /// Whether each path stands for one type and one alias at most.
    pub open spec fn distinct(self) -> bool {
        keys_distinct(self.types, type_key()) && keys_distinct(self.aliases, alias_key())
    }
}

/// One type.
pub open spec fn type_definition(info: TypeInfoModel) -> Known {
    Known { types: seq![info], aliases: Seq::empty() }
}

/// One alias.
pub open spec fn alias_definition(alias: AliasModel) -> Known {
    Known { types: Seq::empty(), aliases: seq![alias] }
}

/// The alias that a type item of a module is.
pub open spec fn alias_of(ident: IdentModel, ty: TypeModel, module_prefix: Seq<char>) -> AliasModel {
    AliasModel { path: full_path(module_prefix, ident.text), target: text_of_type(ty) }
}

/// The type or the alias that an item of a module is.
pub open spec fn leaf_definition(
    item: ItemModel,
    module_prefix: Seq<char>,
    file_path: Seq<char>,
) -> Known {
    match item {
        ItemModel::Struct(item) => type_definition(struct_info(item, module_prefix, file_path)),
        ItemModel::Enum(item) => type_definition(enum_info(item, module_prefix, file_path)),
        ItemModel::Type { ident, ty } => alias_definition(alias_of(ident, ty, module_prefix)),
        _ => Known::nothing(),
    }
}

/// The types and the aliases that the first `n` items of an inline module are.
pub open spec fn leaf_definitions(
    items: Seq<ItemModel>,
    n: nat,
    module_prefix: Seq<char>,
    file_path: Seq<char>,
) -> Known
    decreases n,
{
    if n == 0 || n > items.len() {
        Known::nothing()
    } else {
        leaf_definitions(items, (n - 1) as nat, module_prefix, file_path).plus(
            leaf_definition(items[n - 1], module_prefix, file_path),
        )
    }
}

/// The type or the alias that an item of a file is; of an inline module, those that are in it, but
/// not those in modules in it.
pub open spec fn item_definitions(
    item: ItemModel,
    module_prefix: Seq<char>,
    file_path: Seq<char>,
) -> Known {
    match item {
        ItemModel::Mod { ident, content: Some(items) } => leaf_definitions(
            items,
            items.len(),
            full_path(module_prefix, ident.text),
            file_path,
        ),
        _ => leaf_definition(item, module_prefix, file_path),
    }
}

/// The types and the aliases that the first `n` items of a file define.
pub open spec fn definitions_of(
    items: Seq<ItemModel>,
    n: nat,
    module_prefix: Seq<char>,
    file_path: Seq<char>,
) -> Known
    decreases n,
{
    if n == 0 || n > items.len() {
        Known::nothing()
    } else {
        definitions_of(items, (n - 1) as nat, module_prefix, file_path).plus(
            item_definitions(items[n - 1], module_prefix, file_path),
        )
    }
}

/// The types and the aliases that a file defines; none where it is no Rust source file.
pub open spec fn file_definitions(file: SourceModel) -> Known {
    match rust_items(file.content) {
        Some(items) => definitions_of(items, items.len(), file.path_of_module, file.path),
        None => Known::nothing(),
    }
}

/// The types and the aliases that the first `n` of a list of files define.
pub open spec fn workspace_definitions(files: Seq<SourceModel>, n: nat) -> Known
    decreases n,
{
    if n == 0 || n > files.len() {
        Known::nothing()
    } else {
        workspace_definitions(files, (n - 1) as nat).plus(file_definitions(files[n - 1]))
    }
}

/// Putting definitions in one after the other is putting in all of them.
pub proof fn lemma_with_plus(known: Known, first: Known, second: Known)
    ensures
        known.with(first.plus(second)) == known.with(first).with(second),
{
    lemma_put_all_concat(known.types, type_key(), first.types, second.types);
    lemma_put_all_concat(known.aliases, alias_key(), first.aliases, second.aliases);
}

/// Where nothing is put in, nothing changes.
proof fn lemma_with_nothing(known: Known)
    ensures
        known.with(Known::nothing()) == known,
{
}

/// The index of a type in a list of types and in the list of their models is the same.
proof fn lemma_type_views(types: Seq<TypeInfo>, path: Seq<char>, i: int)
    requires
        0 <= i,
    ensures
        key_index(type_views(types), type_key(), path, i) == type_index(types, path, i),
    decreases types.len() - i,
{
    if i < types.len() {
        assert(type_views(types)[i] == types[i]@);
        if types[i].name@ != path {
            lemma_type_views(types, path, i + 1);
        }
    }
}

/// The index of an alias in a list of aliases and in the list of their models is the same.
proof fn lemma_alias_views(aliases: Seq<TypeAlias>, path: Seq<char>, i: int)
    requires
        0 <= i,
    ensures
        key_index(alias_views(aliases), alias_key(), path, i) == alias_index(aliases, path, i),
    decreases aliases.len() - i,
{
    if i < aliases.len() {
        assert(alias_views(aliases)[i] == aliases[i]@);
        if aliases[i].path@ != path {
            lemma_alias_views(aliases, path, i + 1);
        }
    }
}

/// A source file of a workspace.
#[derive(Debug, Clone)]
pub struct SourceFile {
    pub path: String,
    /// The path of the module that the file holds.
    pub path_of_module: String,
    pub content: String,
}

/// The model of a source file.
pub ghost struct SourceModel {
    pub path: Seq<char>,
    pub path_of_module: Seq<char>,
    pub content: Seq<char>,
}

impl View for SourceFile {
    type V = SourceModel;

    open spec fn view(&self) -> SourceModel {
        SourceModel {
            path: self.path@,
            path_of_module: self.path_of_module@,
            content: self.content@,
        }
    }
}

/// The models of the files of a list.
pub open spec fn source_views(files: Seq<SourceFile>) -> Seq<SourceModel> {
    files.map_values(|f: SourceFile| f@)
}

impl SourceFile {
    /// A source file at a path; the module path follows from the path.
    pub fn new(path: String, content: String) -> (r: Self)
        ensures
            r.path@ == path@,
            r.content@ == content@,
            is_slash_path(path@) ==> r.path_of_module@ == path_of_module(path_names(path@)),
            exists|parts: Seq<Seq<char>>| r.path_of_module@ == #[trigger] path_of_module(parts),
    {
        let path_of_module = file_path_to_module_path(path.as_str());
        SourceFile { path, path_of_module, content }
    }
}

/// The types of a workspace.
pub struct RustAnalyzer {
    workspace_root: Option<String>,
    type_cache: Vec<TypeInfo>,
    type_aliases: Vec<TypeAlias>,
    initial_scan_complete: bool,
}

/// What a lookup found out.
pub enum TypeLookup<'a> {
    /// The type.
    Found(&'a TypeInfo),
    /// There is no such type.
    Missing,
    /// There is no such type yet, and the workspace is to be scanned before the lookup goes on
    /// with the path that the aliases gave.
    NeedsScan { resolved: String },
}

impl RustAnalyzer {
    /// The types, in the order in which their paths came up.
    pub closed spec fn types(self) -> Seq<TypeInfo> {
        self.type_cache@
    }

    /// The aliases, in the order in which their paths came up.
    pub closed spec fn aliases(self) -> Seq<TypeAlias> {
        self.type_aliases@
    }

    /// The root of the workspace.
    pub closed spec fn root(self) -> Option<Seq<char>> {
        match self.workspace_root {
            Some(root) => Some(root@),
            None => None,
        }
    }

    /// Whether the workspace was scanned since its root was set.
    pub closed spec fn scanned(self) -> bool {
        self.initial_scan_complete
    }

    /// The models of the types and of the aliases.
    pub open spec fn known(self) -> Known {
        Known { types: type_views(self.types()), aliases: alias_views(self.aliases()) }
    }

    /// Each path stands for one type and one alias at most.
    pub open spec fn wf(self) -> bool {
        distinct_paths(self.types()) && distinct_aliases(self.aliases())
    }

    /// An analyzer that knows no workspace and no type.
    pub fn new() -> (r: Self)
        ensures
            r.wf(),
            r.types() == Seq::<TypeInfo>::empty(),
            r.aliases() == Seq::<TypeAlias>::empty(),
            r.root() is None,
            !r.scanned(),
    {
        RustAnalyzer {
            workspace_root: None,
            type_cache: Vec::new(),
            type_aliases: Vec::new(),
            initial_scan_complete: false,
        }
    }

    /// The root of the workspace.
    pub fn workspace_root(&self) -> (r: Option<&str>)
        ensures
            match r {
                Some(root) => self.root() == Some(root@),
                None => self.root() is None,
            },
    {
        match &self.workspace_root {
            Some(root) => Some(root.as_str()),
            None => None,
        }
    }

    /// Whether the workspace was scanned since its root was set.
    pub fn is_scanned(&self) -> (r: bool)
        ensures
            r == self.scanned(),
    {
        self.initial_scan_complete
    }

    fn position(&self, path: &str) -> (r: Option<usize>)
        ensures
            match r {
                Some(i) => type_index(self.types(), path@, 0) == Some(i as int) && i
                    < self.types().len(),
                None => type_index(self.types(), path@, 0) is None,
            },
    {
        let mut i: usize = 0;
        while i < self.type_cache.len()
            invariant
                i <= self.type_cache@.len(),
                type_index(self.type_cache@, path@, 0) == type_index(
                    self.type_cache@,
                    path@,
                    i as int,
                ),
            decreases self.type_cache@.len() - i,
        {
            if text::str_eq(self.type_cache[i].name.as_str(), path) {
                return Some(i);
            }
            i = i + 1;
        }
        None
    }

    fn alias_position(&self, path: &str) -> (r: Option<usize>)
        ensures
            match r {
                Some(i) => alias_index(self.aliases(), path@, 0) == Some(i as int) && i
                    < self.aliases().len(),
                None => alias_index(self.aliases(), path@, 0) is None,
            },
    {
        let mut i: usize = 0;
        while i < self.type_aliases.len()
            invariant
                i <= self.type_aliases@.len(),
                alias_index(self.type_aliases@, path@, 0) == alias_index(
                    self.type_aliases@,
                    path@,
                    i as int,
                ),
            decreases self.type_aliases@.len() - i,
        {
            if text::str_eq(self.type_aliases[i].path.as_str(), path) {
                return Some(i);
            }
            i = i + 1;
        }
        None
    }

    /// The type that has a path.
    fn get(&self, path: &str) -> (r: Option<&TypeInfo>)
        ensures
            match r {
                Some(info) => type_at(self.types(), path@) == Some(*info),
                None => type_at(self.types(), path@) is None,
            },
    {
        match self.position(path) {
            Some(i) => Some(&self.type_cache[i]),
            None => None,
        }
    }

    /// The first type that one of two paths matches.
    fn get_matching(&self, path: &str, other: &str) -> (r: Option<&TypeInfo>)
        ensures
            match r {
                Some(info) => type_matching(self.types(), path@, other@, 0) == Some(*info),
                None => type_matching(self.types(), path@, other@, 0) is None,
            },
    {
        let mut i: usize = 0;
        while i < self.type_cache.len()
            invariant
                i <= self.type_cache@.len(),
                type_matching(self.type_cache@, path@, other@, 0) == type_matching(
                    self.type_cache@,
                    path@,
                    other@,
                    i as int,
                ),
            decreases self.type_cache@.len() - i,
        {
            let full = self.type_cache[i].name.as_str();
            if matches_path(full, path) || matches_path(full, other) {
                return Some(&self.type_cache[i]);
            }
            i = i + 1;
        }
        None
    }

    /// What a type path stands for once the aliases are resolved.
    pub fn resolve_alias(&self, type_path: &str) -> (r: String)
        ensures
            r@ == resolved_path(self.aliases(), type_path@),
    {
        match self.alias_position(type_path) {
            Some(i) => self.type_aliases[i].target.clone(),
            None => type_path.to_owned(),
        }
    }

    /// The known type that a path stands for: with its alias resolved, as it is, or as the end of
    /// a longer path.
    pub fn known_type(&self, type_path: &str) -> (r: Option<&TypeInfo>)
        ensures
            match r {
                Some(info) => lookup(self.types(), self.aliases(), type_path@) == Some(*info),
                None => lookup(self.types(), self.aliases(), type_path@) is None,
            },
    {
        let resolved = self.resolve_alias(type_path);
        let exact = self.get(resolved.as_str());
        if exact.is_some() {
            return exact;
        }
        let original = self.get(type_path);
        if original.is_some() {
            return original;
        }
        self.get_matching(type_path, resolved.as_str())
    }

    /// Looks a type path up: the known type that it stands for; without one, whether the workspace
    /// is still to be scanned.
    pub fn get_type_info(&self, type_path: &str) -> (r: TypeLookup<'_>)
        ensures
            match r {
                TypeLookup::Found(info) => lookup(self.types(), self.aliases(), type_path@) == Some(
                    *info,
                ),
                TypeLookup::Missing => lookup(self.types(), self.aliases(), type_path@) is None
                    && self.scanned(),
                TypeLookup::NeedsScan { resolved } => lookup(
                    self.types(),
                    self.aliases(),
                    type_path@,
                ) is None && !self.scanned() && resolved@ == resolved_path(
                    self.aliases(),
                    type_path@,
                ),
            },
    {
        match self.known_type(type_path) {
            Some(info) => TypeLookup::Found(info),
            None => if self.initial_scan_complete {
                TypeLookup::Missing
            } else {
                TypeLookup::NeedsScan { resolved: self.resolve_alias(type_path) }
            },
        }
    }

    /// Goes on with a lookup that needed a scan, once the workspace was scanned.
    pub fn get_type_info_after_scan(&self, resolved: &str, type_path: &str) -> (r: Option<
        &TypeInfo,
    >)
        ensures
            match r {
                Some(info) => lookup_after_scan(self.types(), resolved@, type_path@) == Some(*info),
                None => lookup_after_scan(self.types(), resolved@, type_path@) is None,
            },
    {
        let exact = self.get(resolved);
        if exact.is_some() {
            return exact;
        }
        let original = self.get(type_path);
        if original.is_some() {
            return original;
        }
        self.get_matching(type_path, type_path)
    }

    /// All types of the workspace.
    pub fn get_all_types(&self) -> (r: &Vec<TypeInfo>)
        ensures
            r@ == self.types(),
    {
        &self.type_cache
    }

    /// Puts a type in under its path, in place of one that had the path.
    pub fn insert_type_for_test(&mut self, type_info: TypeInfo)
        requires
            old(self).wf(),
        ensures
            final(self).wf(),
            final(self).types() == with_type(old(self).types(), type_info),
            final(self).known() == old(self).known().with(type_definition(type_info@)),
            final(self).aliases() == old(self).aliases(),
            final(self).root() == old(self).root(),
            final(self).scanned() == old(self).scanned(),
    {
        self.insert_type(type_info);
    }

    /// Puts the alias in that a type item of a module is.
    pub fn extract_type_alias(&mut self, item: &RustAlias, module_prefix: &str)
        requires
            old(self).wf(),
        ensures
            final(self).wf(),
            final(self).known() == old(self).known().with(
                alias_definition(alias_of(item.ident@, item.ty@, module_prefix@)),
            ),
            final(self).types() == old(self).types(),
            final(self).root() == old(self).root(),
            final(self).scanned() == old(self).scanned(),
    {
        let alias = TypeAlias {
            path: join_path(module_prefix, item.ident.text.as_str()),
            target: type_to_string(&item.ty),
        };
        let ghost before = self.aliases();
        proof {
            lemma_alias_index(before, alias.path@, 0);
            lemma_alias_views(before, alias.path@, 0);
            lemma_put_one(alias_views(before), alias_key(), alias@);
        }
        match self.alias_position(alias.path.as_str()) {
            Some(i) => {
                let ghost model = alias@;
                self.type_aliases.set(i, alias);
                assert(alias_views(self.aliases()) == alias_views(before).update(i as int, model));
            },
            None => {
                let ghost model = alias@;
                self.type_aliases.push(alias);
                assert(alias_views(self.aliases()) == alias_views(before).push(model));
            },
        }
    }

    /// Puts the type or the alias in that an item of a module is.
    fn add_leaf(&mut self, item: &RustItem, module_prefix: &str, file_path: &str)
        requires
            old(self).wf(),
            leaf_has_names(item@),
        ensures
            final(self).wf(),
            final(self).known() == old(self).known().with(
                leaf_definition(item@, module_prefix@, file_path@),
            ),
            final(self).root() == old(self).root(),
            final(self).scanned() == old(self).scanned(),
    {
        proof {
            lemma_with_nothing(self.known());
        }
        match item {
            RustItem::Struct(item) => {
                if let Some(info) = extract_struct_info(item, module_prefix, file_path) {
                    self.insert_type(info);
                }
            },
            RustItem::Enum(item) => {
                if let Some(info) = extract_enum_info(item, module_prefix, file_path) {
                    self.insert_type(info);
                }
            },
            RustItem::Type(item) => {
                self.extract_type_alias(item, module_prefix);
            },
            _ => {},
        }
    }

    /// Puts the types and the aliases in that the items of an inline module are.
    fn add_leaves(&mut self, items: &Vec<RustItem>, module_prefix: &str, file_path: &str)
        requires
            old(self).wf(),
            leaves_have_names(item_views(items@)),
        ensures
            final(self).wf(),
            final(self).known() == old(self).known().with(
                leaf_definitions(item_views(items@), items@.len(), module_prefix@, file_path@),
            ),
            final(self).root() == old(self).root(),
            final(self).scanned() == old(self).scanned(),
    {
        proof {
            lemma_with_nothing(self.known());
        }
        let ghost all = item_views(items@);
        let mut i: usize = 0;
        while i < items.len()
            invariant
                i <= items@.len(),
                all == item_views(items@),
                leaves_have_names(all),
                self.wf(),
                self.known() == old(self).known().with(
                    leaf_definitions(all, i as nat, module_prefix@, file_path@),
                ),
                self.root() == old(self).root(),
                self.scanned() == old(self).scanned(),
            decreases items@.len() - i,
        {
            assert(all[i as int] == items@[i as int]@);
            proof {
                lemma_with_plus(
                    old(self).known(),
                    leaf_definitions(all, i as nat, module_prefix@, file_path@),
                    leaf_definition(all[i as int], module_prefix@, file_path@),
                );
            }
            self.add_leaf(&items[i], module_prefix, file_path);
            i = i + 1;
        }
    }

    /// Puts the types and the aliases in that the items of a file, and of the inline modules among
    /// them, are.
    pub fn extract_types_from_file(
        &mut self,
        items: &Vec<RustItem>,
        module_prefix: &str,
        file_path: &str,
    )
        requires
            old(self).wf(),
            items_have_names(item_views(items@)),
        ensures
            final(self).wf(),
            final(self).known() == old(self).known().with(
                definitions_of(item_views(items@), items@.len(), module_prefix@, file_path@),
            ),
            final(self).root() == old(self).root(),
            final(self).scanned() == old(self).scanned(),
    {
        proof {
            lemma_with_nothing(self.known());
        }
        let ghost all = item_views(items@);
        let mut i: usize = 0;
        while i < items.len()
            invariant
                i <= items@.len(),
                all == item_views(items@),
                items_have_names(all),
                self.wf(),
                self.known() == old(self).known().with(
                    definitions_of(all, i as nat, module_prefix@, file_path@),
                ),
                self.root() == old(self).root(),
                self.scanned() == old(self).scanned(),
            decreases items@.len() - i,
        {
            let item = &items[i];
            assert(all[i as int] == item@);
            proof {
                lemma_with_plus(
                    old(self).known(),
                    definitions_of(all, i as nat, module_prefix@, file_path@),
                    item_definitions(all[i as int], module_prefix@, file_path@),
                );
                lemma_with_nothing(self.known());
            }
            match item {
                RustItem::Mod { ident, content } => {
                    if let Some(nested) = content {
                        assert(item@->content->0 == item_views(nested@));
                        let nested_prefix = join_path(module_prefix, ident.text.as_str());
                        self.add_leaves(nested, nested_prefix.as_str(), file_path);
                    }
                },
                _ => {
                    self.add_leaf(item, module_prefix, file_path);
                },
            }
            i = i + 1;
        }
    }

    /// Puts in what a source file holds; nothing where it is no Rust source file.
    pub fn add_file(&mut self, file: &SourceFile)
        requires
            old(self).wf(),
        ensures
            final(self).wf(),
            final(self).known() == old(self).known().with(file_definitions(file@)),
            final(self).root() == old(self).root(),
            final(self).scanned() == old(self).scanned(),
    {
        proof {
            lemma_with_nothing(self.known());
        }
        if let Some(items) = parse_rust(file.content.as_str()) {
            assert(item_views(items@).len() == items@.len());
            self.extract_types_from_file(
                &items,
                file.path_of_module.as_str(),
                file.path.as_str(),
            );
        }
    }

    /// Puts in what the Rust files of the workspace hold, in order; nothing without a workspace.
    pub fn scan_workspace(&mut self, files: &Vec<SourceFile>)
        requires
            old(self).wf(),
        ensures
            final(self).wf(),
            old(self).root() is Some ==> final(self).known() == old(self).known().with(
                workspace_definitions(source_views(files@), files@.len()),
            ),
            old(self).root() is None ==> *final(self) == *old(self),
            final(self).root() == old(self).root(),
            final(self).scanned() == old(self).scanned(),
    {
        proof {
            lemma_with_nothing(self.known());
        }
        if self.workspace_root.is_none() {
            return;
        }
        let ghost all = source_views(files@);
        let mut i: usize = 0;
        while i < files.len()
            invariant
                i <= files@.len(),
                all == source_views(files@),
                self.wf(),
                self.known() == old(self).known().with(workspace_definitions(all, i as nat)),
                self.root() == old(self).root(),
                self.scanned() == old(self).scanned(),
            decreases files@.len() - i,
        {
            assert(all[i as int] == files@[i as int]@);
            proof {
                lemma_with_plus(
                    old(self).known(),
                    workspace_definitions(all, i as nat),
                    file_definitions(all[i as int]),
                );
            }
            self.add_file(&files[i]);
            i = i + 1;
        }
    }

    /// Sets the root of the workspace, puts in what its Rust files hold, and takes it as scanned.
    pub fn set_workspace_root(&mut self, root: &str, files: &Vec<SourceFile>)
        requires
            old(self).wf(),
        ensures
            final(self).wf(),
            final(self).known() == old(self).known().with(
                workspace_definitions(source_views(files@), files@.len()),
            ),
            final(self).root() == Some(root@),
            final(self).scanned(),
    {
        self.workspace_root = Some(root.to_owned());
        self.scan_workspace(files);
        self.initial_scan_complete = true;
    }

    /// Puts a type in under its path, in place of one that had the path.
    fn insert_type(&mut self, type_info: TypeInfo)
        requires
            old(self).wf(),
        ensures
            final(self).wf(),
            final(self).types() == with_type(old(self).types(), type_info),
            final(self).known() == old(self).known().with(type_definition(type_info@)),
            final(self).aliases() == old(self).aliases(),
            final(self).root() == old(self).root(),
            final(self).scanned() == old(self).scanned(),
    {
        let ghost before = self.types();
        let ghost model = type_info@;
        proof {
            lemma_type_index(before, type_info.name@, 0);
            lemma_type_views(before, type_info.name@, 0);
            lemma_put_one(type_views(before), type_key(), type_info@);
        }
        match self.position(type_info.name.as_str()) {
            Some(i) => {
                self.type_cache.set(i, type_info);
                assert(type_views(self.types()) == type_views(before).update(i as int, model));
            },
            None => {
                self.type_cache.push(type_info);
                assert(type_views(self.types()) == type_views(before).push(model));
            },
        }
    }
}

/// Whether a full path is the given one, or ends in it after a separator.
fn matches_path(full: &str, path: &str) -> (r: bool)
    ensures
        r == path_matches(full@, path@),
{
    let mut tail = String::new();
    tail.push(':');
    tail.push(':');
    tail.append(path);
    assert(tail@ == text::path_separator() + path@);
    text::ends_with(full, tail.as_str()) || text::str_eq(full, path)
}

// ---------------------------------------------------------------------------
// Laws
// ---------------------------------------------------------------------------

/// The field that is found under a name is the first one that has it, and one is found wherever
/// there is one.
pub proof fn lemma_field_named(fields: Seq<FieldInfo>, name: Seq<char>, i: int)
    requires
        0 <= i,
    ensures
        match field_named(fields, name, i) {
            Some(f) => f.name@ == name && fields.contains(f),
            None => forall|k: int| i <= k < fields.len() ==> (#[trigger] fields[k]).name@ != name,
        },
    decreases fields.len() - i,
{
    if i < fields.len() && fields[i].name@ != name {
        lemma_field_named(fields, name, i + 1);
    }
}

/// The variant that is found under a name has it, and one is found wherever there is one.
pub proof fn lemma_variant_named(variants: Seq<EnumVariant>, name: Seq<char>, i: int)
    requires
        0 <= i,
    ensures
        match variant_named(variants, name, i) {
            Some(v) => v.name@ == name && variants.contains(v),
            None => forall|k: int|
                i <= k < variants.len() ==> (#[trigger] variants[k]).name@ != name,
        },
    decreases variants.len() - i,
{
    if i < variants.len() && variants[i].name@ != name {
        lemma_variant_named(variants, name, i + 1);
    }
}

/// The field of an enum that is found under a name is one of a variant, and one is found wherever
/// there is one.
pub proof fn lemma_variant_field_named(variants: Seq<EnumVariant>, name: Seq<char>, i: int)
    requires
        0 <= i,
    ensures
        match variant_field_named(variants, name, i) {
            Some(f) => f.name@ == name && exists|k: int|
                i <= k < variants.len() && (#[trigger] variants[k]).fields@.contains(f),
            None => forall|k: int, j: int|
                #![trigger variants[k].fields@[j]]
                i <= k < variants.len() && 0 <= j < variants[k].fields@.len()
                    ==> variants[k].fields@[j].name@ != name,
        },
    decreases variants.len() - i,
{
    if i < variants.len() {
        lemma_field_named(variants[i].fields@, name, 0);
        if field_named(variants[i].fields@, name, 0) is None {
            lemma_variant_field_named(variants, name, i + 1);
        }
    }
}

proof fn lemma_type_matching(types: Seq<TypeInfo>, path: Seq<char>, other: Seq<char>, i: int)
    requires
        0 <= i,
    ensures
        match type_matching(types, path, other, i) {
            Some(info) => types.contains(info) && (path_matches(info.name@, path) || path_matches(
                info.name@,
                other,
            )),
            None => forall|k: int|
                i <= k < types.len() ==> !path_matches((#[trigger] types[k]).name@, path)
                    && !path_matches(types[k].name@, other),
        },
    decreases types.len() - i,
{
    if i < types.len() && !(path_matches(types[i].name@, path) || path_matches(
        types[i].name@,
        other,
    )) {
        lemma_type_matching(types, path, other, i + 1);
    }
}

/// The type that a lookup finds is a known one whose path is, or ends in, the path that was looked
/// up or what its alias stands for; and a lookup finds one wherever there is one.
pub proof fn lemma_lookup(types: Seq<TypeInfo>, aliases: Seq<TypeAlias>, path: Seq<char>)
    ensures
        match lookup(types, aliases, path) {
            Some(info) => types.contains(info) && (path_matches(info.name@, path) || path_matches(
                info.name@,
                resolved_path(aliases, path),
            )),
            None => forall|k: int|
                0 <= k < types.len() ==> !path_matches((#[trigger] types[k]).name@, path)
                    && !path_matches(types[k].name@, resolved_path(aliases, path)),
        },
{
    let resolved = resolved_path(aliases, path);
    lemma_type_index(types, resolved, 0);
    lemma_type_index(types, path, 0);
    lemma_type_matching(types, path, resolved, 0);
}

/// A type that was put in is found under its path, where no alias leads elsewhere.
pub proof fn lemma_insert_then_lookup(
    types: Seq<TypeInfo>,
    aliases: Seq<TypeAlias>,
    info: TypeInfo,
)
    requires
        resolved_path(aliases, info.name@) == info.name@,
    ensures
        lookup(with_type(types, info), aliases, info.name@) == Some(info),
{
    let after = with_type(types, info);
    lemma_type_index(types, info.name@, 0);
    lemma_type_index(after, info.name@, 0);
    let at = match type_index(types, info.name@, 0) {
        Some(i) => i,
        None => types.len() as int,
    };
    assert(after[at] == info);
    let found = type_index(after, info.name@, 0)->0;
    if found < at {
        assert(after[found] == types[found]);
    }
}

/// A type that is put in leaves the types under the other paths as they are.
pub proof fn lemma_insert_leaves_others(types: Seq<TypeInfo>, info: TypeInfo, path: Seq<char>)
    requires
        path != info.name@,
    ensures
        type_at(with_type(types, info), path) == type_at(types, path),
{
    let after = with_type(types, info);
    lemma_type_index(types, info.name@, 0);
    lemma_type_index(types, path, 0);
    lemma_type_index(after, path, 0);
    if let Some(j) = type_index(types, path, 0) {
        assert(after[j] == types[j]);
        let i = type_index(after, path, 0)->0;
        if i < j {
            assert(after[i] == types[i]);
        }
    }
    if let Some(i) = type_index(after, path, 0) {
        assert(after[i] == types[i]);
    }
}

/// A type that is put in once more changes nothing.
pub proof fn lemma_insert_again(types: Seq<TypeInfo>, info: TypeInfo)
    ensures
        with_type(with_type(types, info), info) == with_type(types, info),
{
    let after = with_type(types, info);
    lemma_type_index(types, info.name@, 0);
    lemma_type_index(after, info.name@, 0);
    let at = match type_index(types, info.name@, 0) {
        Some(i) => i,
        None => types.len() as int,
    };
    assert(after[at] == info);
    let found = type_index(after, info.name@, 0)->0;
    if found < at {
        assert(after[found] == types[found]);
    }
    assert(after.update(at, info) == after);
}

/// An analyzer keeps one type and one alias to a path exactly where its models do.
pub proof fn lemma_wf_is_distinct(analyzer: RustAnalyzer)
    ensures
        analyzer.wf() == analyzer.known().distinct(),
{
    let types = analyzer.types();
    let aliases = analyzer.aliases();
    assert(forall|i: int|
        0 <= i < types.len() ==> (#[trigger] type_views(types)[i]).name == types[i].name@);
    assert(forall|i: int|
        0 <= i < aliases.len() ==> (#[trigger] alias_views(aliases)[i]).path == aliases[i].path@);
    if analyzer.wf() {
        assert(analyzer.known().distinct());
    }
    if analyzer.known().distinct() {
        assert forall|i: int, j: int| 0 <= i < j < types.len() implies (#[trigger] types[i]).name@
            != (#[trigger] types[j]).name@ by {
            assert(type_key()(type_views(types)[i]) != type_key()(type_views(types)[j]));
        }
        assert forall|i: int, j: int| 0 <= i < j < aliases.len() implies (
        #[trigger] aliases[i]).path@ != (#[trigger] aliases[j]).path@ by {
            assert(alias_key()(alias_views(aliases)[i]) != alias_key()(alias_views(aliases)[j]));
        }
    }
}

/// Scanning the same files once more changes nothing.
pub proof fn lemma_scan_again(known: Known, files: Seq<SourceModel>)
    requires
        known.distinct(),
    ensures
        known.with(workspace_definitions(files, files.len())).with(
            workspace_definitions(files, files.len()),
        ) == known.with(workspace_definitions(files, files.len())),
{
    let definitions = workspace_definitions(files, files.len());
    lemma_put_all_again(known.types, type_key(), definitions.types);
    lemma_put_all_again(known.aliases, alias_key(), definitions.aliases);
}

/// After a scan, each type that the files define is known under its path, as the last definition
/// with that path has it; and each path stands for one type at most.
pub proof fn lemma_scanned_types(known: Known, files: Seq<SourceModel>, j: int)
    requires
        known.distinct(),
        0 <= j < workspace_definitions(files, files.len()).types.len(),
    ensures
        ({
            let definitions = workspace_definitions(files, files.len()).types;
            let types = known.with(workspace_definitions(files, files.len())).types;
            &&& keys_distinct(types, type_key())
            &&& key_index(types, type_key(), definitions[j].name, 0) matches Some(i)
                && 0 <= i < types.len() && Some(types[i]) == last_with_key(
                definitions,
                type_key(),
                definitions[j].name,
            )
        }),
{
    let definitions = workspace_definitions(files, files.len()).types;
    let types = known.with(workspace_definitions(files, files.len())).types;
    let name = definitions[j].name;
    lemma_put_all(known.types, type_key(), definitions);
    assert(type_key()(definitions[j]) == name);
    lemma_key_index(types, type_key(), name, 0);
    let i = key_index(types, type_key(), name, 0)->0;
    assert(type_key()(types[i]) == name);
    lemma_last_with_key(definitions, type_key(), name, j);
}

/// The module path of a file starts at the root of its crate, or is empty.
pub proof fn lemma_module_path_starts_at_crate(parts: Seq<Seq<char>>)
    ensures
        path_of_module(parts).len() == 0 || "crate"@.is_prefix_of(path_of_module(parts)),
{
    reveal_strlit("crate");
    reveal_strlit("crate::");
    let path = path_of_module(parts);
    if path.len() > 0 {
        assert("crate"@ == path.subrange(0, 5));
    }
}

/// The module path of `src/a/b/name.rs` is `crate::a::b::name`, unless the file holds the module
/// that its directory is.
pub proof fn lemma_module_path_of_file(directories: Seq<Seq<char>>, name: Seq<char>)
    requires
        !is_module_root(name),
        !seq!['.', 'r', 's'].is_suffix_of(name),
    ensures
        path_of_module(
            seq!["src"@] + directories + seq![name + seq!['.', 'r', 's']],
        ) == "crate::"@ + text::joined(directories.push(name), "::"@),
{
    let file = name + seq!['.', 'r', 's'];
    let parts = seq!["src"@] + directories + seq![file];
    let relative = parts.skip(1);
    assert(parts[0] == "src"@);
    assert(src_index(parts, 0) == Some(0int));
    assert(relative == directories + seq![file]);
    assert(relative.drop_last() == directories);
    assert(without_extension(file) == name) by {
        assert(seq!['.', 'r', 's'] == file.subrange(file.len() - 3, file.len() as int));
        assert(file.take(file.len() - 3) == name);
        assert(without_extension(name) == name);
    }
}

} // verus!
