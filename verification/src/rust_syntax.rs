//! The parts of Rust source files that types are read from, and the `syn` parser that they come
//! from.

use crate::lsp::opt_view;
use vstd::prelude::*;

verus! {

// ---------------------------------------------------------------------------
// Plain values
// ---------------------------------------------------------------------------

/// An identifier, and where it stands: its line, counted from one, and its column, from zero.
#[derive(Debug, Clone)]
pub struct RustIdent {
    pub text: String,
    pub line: usize,
    pub column: usize,
}

/// An attribute.
#[derive(Debug, Clone)]
pub struct RustAttribute {
    /// The path of the attribute, where it is a single identifier.
    pub ident: Option<String>,
    /// The string of an attribute like `#[name = "value"]`.
    pub value: Option<String>,
    /// The tokens of an attribute like `#[name(tokens)]`.
    pub list: Option<String>,
    /// The paths in an attribute like `#[name(first, second)]`, up to the first that another token
    /// than a comma follows on; for each, the identifier where it is a single one.
    pub nested: Vec<Option<String>>,
}

/// A type: a reference to a type, or its tokens.
#[derive(Debug)]
pub enum RustType {
    Reference { mutable: bool, elem: Box<RustType> },
    Other(String),
}

/// A field of a struct or of an enum variant.
#[derive(Debug)]
pub struct RustField {
    pub attrs: Vec<RustAttribute>,
    pub ident: Option<RustIdent>,
    pub ty: RustType,
}

/// The fields of a struct or of an enum variant.
#[derive(Debug)]
pub enum RustFields {
    Named(Vec<RustField>),
    Unnamed(Vec<RustField>),
    Unit,
}

/// A variant of an enum.
#[derive(Debug)]
pub struct RustVariant {
    pub attrs: Vec<RustAttribute>,
    pub ident: RustIdent,
    pub fields: RustFields,
}

/// A struct.
#[derive(Debug)]
pub struct RustStruct {
    pub attrs: Vec<RustAttribute>,
    pub ident: RustIdent,
    pub fields: RustFields,
}

/// An enum.
#[derive(Debug)]
pub struct RustEnum {
    pub attrs: Vec<RustAttribute>,
    pub ident: RustIdent,
    pub variants: Vec<RustVariant>,
}

/// A type alias.
#[derive(Debug)]
pub struct RustAlias {
    pub ident: RustIdent,
    pub ty: RustType,
}

/// An item of a source file.
#[derive(Debug)]
pub enum RustItem {
    Struct(RustStruct),
    Enum(RustEnum),
    Type(RustAlias),
    /// A module, with its items where it is inline.
    Mod { ident: RustIdent, content: Option<Vec<RustItem>> },
    Other,
}

// ---------------------------------------------------------------------------
// Models
// ---------------------------------------------------------------------------

/// The model of an identifier.
pub ghost struct IdentModel {
    pub text: Seq<char>,
    pub line: usize,
    pub column: usize,
}

/// The model of an attribute.
#[verifier::ext_equal]
pub ghost struct AttributeModel {
    pub ident: Option<Seq<char>>,
    pub value: Option<Seq<char>>,
    pub list: Option<Seq<char>>,
    pub nested: Seq<Option<Seq<char>>>,
}

/// The model of a type.
pub ghost enum TypeModel {
    Reference { mutable: bool, elem: Box<TypeModel> },
    Other(Seq<char>),
}

/// The model of a field.
#[verifier::ext_equal]
pub ghost struct FieldModel {
    pub attrs: Seq<AttributeModel>,
    pub ident: Option<IdentModel>,
    pub ty: TypeModel,
}

/// The model of the fields of a struct or of an enum variant.
#[verifier::ext_equal]
pub ghost enum FieldsModel {
    Named(Seq<FieldModel>),
    Unnamed(Seq<FieldModel>),
    Unit,
}

/// The model of a variant.
#[verifier::ext_equal]
pub ghost struct VariantModel {
    pub attrs: Seq<AttributeModel>,
    pub ident: IdentModel,
    pub fields: FieldsModel,
}

/// The model of a struct.
#[verifier::ext_equal]
pub ghost struct StructModel {
    pub attrs: Seq<AttributeModel>,
    pub ident: IdentModel,
    pub fields: FieldsModel,
}

/// The model of an enum.
#[verifier::ext_equal]
pub ghost struct EnumModel {
    pub attrs: Seq<AttributeModel>,
    pub ident: IdentModel,
    pub variants: Seq<VariantModel>,
}

/// The model of an item.
#[verifier::ext_equal]
pub ghost enum ItemModel {
    Struct(StructModel),
    Enum(EnumModel),
    Type { ident: IdentModel, ty: TypeModel },
    Mod { ident: IdentModel, content: Option<Seq<ItemModel>> },
    Other,
}

impl View for RustIdent {
    type V = IdentModel;

    open spec fn view(&self) -> IdentModel {
        IdentModel { text: self.text@, line: self.line, column: self.column }
    }
}

impl View for RustAttribute {
    type V = AttributeModel;

    open spec fn view(&self) -> AttributeModel {
        AttributeModel {
            ident: opt_view(self.ident),
            value: opt_view(self.value),
            list: opt_view(self.list),
            nested: self.nested@.map_values(|s: Option<String>| opt_view(s)),
        }
    }
}

impl RustType {
    /// The type with each string in it taken by its view.
    pub open spec fn model(self) -> TypeModel
        decreases self,
    {
        match self {
            RustType::Reference { mutable, elem } => TypeModel::Reference {
                mutable,
                elem: Box::new(elem.model()),
            },
            RustType::Other(tokens) => TypeModel::Other(tokens@),
        }
    }
}

impl View for RustType {
    type V = TypeModel;

    open spec fn view(&self) -> TypeModel {
        self.model()
    }
}

/// The models of the attributes of a list.
pub open spec fn attribute_views(attrs: Seq<RustAttribute>) -> Seq<AttributeModel> {
    attrs.map_values(|a: RustAttribute| a@)
}

impl View for RustField {
    type V = FieldModel;

    open spec fn view(&self) -> FieldModel {
        FieldModel {
            attrs: attribute_views(self.attrs@),
            ident: match self.ident {
                Some(ident) => Some(ident@),
                None => None,
            },
            ty: self.ty@,
        }
    }
}

/// The models of the fields of a list.
pub open spec fn field_views(fields: Seq<RustField>) -> Seq<FieldModel> {
    fields.map_values(|f: RustField| f@)
}

impl View for RustFields {
    type V = FieldsModel;

    open spec fn view(&self) -> FieldsModel {
        match self {
            RustFields::Named(fields) => FieldsModel::Named(field_views(fields@)),
            RustFields::Unnamed(fields) => FieldsModel::Unnamed(field_views(fields@)),
            RustFields::Unit => FieldsModel::Unit,
        }
    }
}

impl View for RustVariant {
    type V = VariantModel;

    open spec fn view(&self) -> VariantModel {
        VariantModel {
            attrs: attribute_views(self.attrs@),
            ident: self.ident@,
            fields: self.fields@,
        }
    }
}

/// The models of the variants of a list.
pub open spec fn variant_views(variants: Seq<RustVariant>) -> Seq<VariantModel> {
    variants.map_values(|v: RustVariant| v@)
}

impl View for RustStruct {
    type V = StructModel;

    open spec fn view(&self) -> StructModel {
        StructModel {
            attrs: attribute_views(self.attrs@),
            ident: self.ident@,
            fields: self.fields@,
        }
    }
}

impl View for RustEnum {
    type V = EnumModel;

    open spec fn view(&self) -> EnumModel {
        EnumModel {
            attrs: attribute_views(self.attrs@),
            ident: self.ident@,
            variants: variant_views(self.variants@),
        }
    }
}

impl RustItem {
    /// The item with each list and string in it taken by its view.
    pub open spec fn model(self) -> ItemModel
        decreases self,
    {
        match self {
            RustItem::Struct(item) => ItemModel::Struct(item@),
            RustItem::Enum(item) => ItemModel::Enum(item@),
            RustItem::Type(item) => ItemModel::Type { ident: item.ident@, ty: item.ty@ },
            RustItem::Mod { ident, content } => ItemModel::Mod {
                ident: ident@,
                content: match content {
                    Some(items) => Some(
                        Seq::new(
                            items@.len(),
                            |i: int|
                                if 0 <= i < items@.len() {
                                    items@[i].model()
                                } else {
                                    arbitrary()
                                },
                        ),
                    ),
                    None => None,
                },
            },
            RustItem::Other => ItemModel::Other,
        }
    }
}

impl View for RustItem {
    type V = ItemModel;

    open spec fn view(&self) -> ItemModel {
        self.model()
    }
}

/// The models of the items of a list.
pub open spec fn item_views(items: Seq<RustItem>) -> Seq<ItemModel> {
    items.map_values(|i: RustItem| i@)
}

/// Whether each field in braces has a name.
pub open spec fn fields_have_names(fields: FieldsModel) -> bool {
    match fields {
        FieldsModel::Named(fields) => forall|i: int|
            0 <= i < fields.len() ==> (#[trigger] fields[i]).ident is Some,
        _ => true,
    }
}

/// Whether each field in braces of each variant has a name.
pub open spec fn variants_have_names(variants: Seq<VariantModel>) -> bool {
    forall|i: int| 0 <= i < variants.len() ==> fields_have_names((#[trigger] variants[i]).fields)
}

/// Whether each field in braces of a struct or an enum has a name.
pub open spec fn leaf_has_names(item: ItemModel) -> bool {
    match item {
        ItemModel::Struct(item) => fields_have_names(item.fields),
        ItemModel::Enum(item) => variants_have_names(item.variants),
        _ => true,
    }
}

/// Whether each field in braces of the structs and enums of a list has a name.
pub open spec fn leaves_have_names(items: Seq<ItemModel>) -> bool {
    forall|i: int| 0 <= i < items.len() ==> leaf_has_names(#[trigger] items[i])
}

/// Whether each field in braces of an item, or of the items of an inline module, has a name.
pub open spec fn item_has_names(item: ItemModel) -> bool {
    match item {
        ItemModel::Mod { ident, content: Some(items) } => leaves_have_names(items),
        _ => leaf_has_names(item),
    }
}

/// Whether each field in braces of the items of a file, and of the items of its inline modules, has
/// a name.
pub open spec fn items_have_names(items: Seq<ItemModel>) -> bool {
    forall|i: int| 0 <= i < items.len() ==> item_has_names(#[trigger] items[i])
}

// ---------------------------------------------------------------------------
// syn
// ---------------------------------------------------------------------------

/// An item, as `syn` reads it.
#[verifier::external_type_specification]
#[verifier::external_body]
pub struct ExItem(syn::Item);

/// The fields of a struct or a variant, as `syn` reads them.
#[verifier::external_type_specification]
#[verifier::external_body]
pub struct ExFields(syn::Fields);

/// A field, as `syn` reads it.
#[verifier::external_type_specification]
#[verifier::external_body]
pub struct ExField(syn::Field);

/// A variant of an enum, as `syn` reads it.
#[verifier::external_type_specification]
#[verifier::external_body]
pub struct ExVariant(syn::Variant);

/// A type, as `syn` reads it.
#[verifier::external_type_specification]
#[verifier::external_body]
pub struct ExType(syn::Type);

/// An attribute, as `syn` reads it.
#[verifier::external_type_specification]
#[verifier::external_body]
pub struct ExAttribute(syn::Attribute);

/// An identifier.
#[verifier::external_type_specification]
#[verifier::external_body]
pub struct ExIdent(proc_macro2::Ident);

/// The items that `syn` reads from a source file; `None` where it is no Rust source file.
pub uninterp spec fn rust_items(content: Seq<char>) -> Option<Seq<ItemModel>>;

/// What a `syn` item holds.
pub uninterp spec fn item_model(item: syn::Item) -> ItemModel;

/// What the fields of a `syn` struct or variant hold.
pub uninterp spec fn fields_model(fields: syn::Fields) -> FieldsModel;

/// What a `syn` field holds.
pub uninterp spec fn field_model(field: syn::Field) -> FieldModel;

/// What a `syn` variant holds.
pub uninterp spec fn variant_model(variant: syn::Variant) -> VariantModel;

/// What a `syn` type holds.
pub uninterp spec fn type_model(ty: syn::Type) -> TypeModel;

/// The text of an identifier.
pub uninterp spec fn ident_text_of(ident: proc_macro2::Ident) -> Seq<char>;

/// The line and the column at which an identifier starts.
pub uninterp spec fn ident_start_of(ident: proc_macro2::Ident) -> (usize, usize);

/// The single identifier that the path of an attribute is.
pub uninterp spec fn attribute_ident_of(attr: syn::Attribute) -> Option<Seq<char>>;

/// The string that an attribute sets its path to.
pub uninterp spec fn attribute_value_of(attr: syn::Attribute) -> Option<Seq<char>>;

/// The tokens in the brackets of an attribute.
pub uninterp spec fn attribute_list_of(attr: syn::Attribute) -> Option<Seq<char>>;

/// The paths that an attribute lists, each as the single identifier that it is.
pub uninterp spec fn attribute_nested_of(attr: syn::Attribute) -> Seq<Option<Seq<char>>>;

/// What a `syn` attribute holds; what it lists is read of one with a single identifier as its path.
pub open spec fn attribute_model(attr: syn::Attribute) -> AttributeModel {
    AttributeModel {
        ident: attribute_ident_of(attr),
        value: attribute_value_of(attr),
        list: attribute_list_of(attr),
        nested: if attribute_ident_of(attr) is Some {
            attribute_nested_of(attr)
        } else {
            Seq::empty()
        },
    }
}

/// What an identifier holds.
pub open spec fn ident_model(ident: proc_macro2::Ident) -> IdentModel {
    let start = ident_start_of(ident);
    IdentModel { text: ident_text_of(ident), line: start.0, column: start.1 }
}

/// A `syn` item, taken apart.
pub enum SplitItem<'a> {
    Struct(&'a Vec<syn::Attribute>, &'a proc_macro2::Ident, &'a syn::Fields),
    Enum(&'a Vec<syn::Attribute>, &'a proc_macro2::Ident, Vec<&'a syn::Variant>),
    Type(&'a proc_macro2::Ident, &'a syn::Type),
    Mod(&'a proc_macro2::Ident, Option<&'a Vec<syn::Item>>),
    Other,
}

/// The fields of a `syn` struct or variant, taken apart.
pub enum SplitFields<'a> {
    Named(Vec<&'a syn::Field>),
    Unnamed(Vec<&'a syn::Field>),
    Unit,
}

/// What the parts of an item hold.
pub open spec fn split_item_model(parts: SplitItem) -> ItemModel {
    match parts {
        SplitItem::Struct(attrs, ident, fields) => ItemModel::Struct(
            StructModel {
                attrs: attrs@.map_values(|a: syn::Attribute| attribute_model(a)),
                ident: ident_model(*ident),
                fields: fields_model(*fields),
            },
        ),
        SplitItem::Enum(attrs, ident, variants) => ItemModel::Enum(
            EnumModel {
                attrs: attrs@.map_values(|a: syn::Attribute| attribute_model(a)),
                ident: ident_model(*ident),
                variants: variants@.map_values(|v: &syn::Variant| variant_model(*v)),
            },
        ),
        SplitItem::Type(ident, ty) => ItemModel::Type {
            ident: ident_model(*ident),
            ty: type_model(*ty),
        },
        SplitItem::Mod(ident, content) => ItemModel::Mod {
            ident: ident_model(*ident),
            content: match content {
                Some(items) => Some(items@.map_values(|i: syn::Item| item_model(i))),
                None => None,
            },
        },
        SplitItem::Other => ItemModel::Other,
    }
}

/// What the parts of a list of fields hold.
pub open spec fn split_fields_model(parts: SplitFields) -> FieldsModel {
    match parts {
        SplitFields::Named(fields) => FieldsModel::Named(
            fields@.map_values(|f: &syn::Field| field_model(*f)),
        ),
        SplitFields::Unnamed(fields) => FieldsModel::Unnamed(
            fields@.map_values(|f: &syn::Field| field_model(*f)),
        ),
        SplitFields::Unit => FieldsModel::Unit,
    }
}

/// `syn::parse_file`: what it gives depends on the text alone. Each field that it reads between
/// braces has a name, since `syn::FieldsNamed` is read with `syn::Field::parse_named`.
#[verifier::external_body]
fn parse_items(content: &str) -> (r: Option<Vec<syn::Item>>)
    ensures
        match r {
            Some(items) => {
                let models = items@.map_values(|i: syn::Item| item_model(i));
                rust_items(content@) == Some(models) && items_have_names(models)
            },
            None => rust_items(content@) is None,
        },
{
    let file = syn::parse_file(content).ok()?;
    Some(file.items)
}

/// The variants of `syn::Item` and their parts, as `syn` declares them.
#[verifier::external_body]
fn split_item(item: &syn::Item) -> (r: SplitItem<'_>)
    ensures
        item_model(*item) == split_item_model(r),
{
    match item {
        syn::Item::Struct(i) => SplitItem::Struct(&i.attrs, &i.ident, &i.fields),
        syn::Item::Enum(i) => SplitItem::Enum(&i.attrs, &i.ident, i.variants.iter().collect()),
        syn::Item::Type(i) => SplitItem::Type(&i.ident, &*i.ty),
        syn::Item::Mod(i) => SplitItem::Mod(&i.ident, i.content.as_ref().map(|content| &content.1)),
        _ => SplitItem::Other,
    }
}

/// The variants of `syn::Fields` and the fields in them, in order.
#[verifier::external_body]
fn split_fields(fields: &syn::Fields) -> (r: SplitFields<'_>)
    ensures
        fields_model(*fields) == split_fields_model(r),
{
    match fields {
        syn::Fields::Named(f) => SplitFields::Named(f.named.iter().collect()),
        syn::Fields::Unnamed(f) => SplitFields::Unnamed(f.unnamed.iter().collect()),
        syn::Fields::Unit => SplitFields::Unit,
    }
}

/// The attributes, the name and the fields of a `syn::Variant`.
#[verifier::external_body]
fn split_variant(variant: &syn::Variant) -> (r: (
    &Vec<syn::Attribute>,
    &proc_macro2::Ident,
    &syn::Fields,
))
    ensures
        variant_model(*variant) == (VariantModel {
            attrs: r.0@.map_values(|a: syn::Attribute| attribute_model(a)),
            ident: ident_model(*r.1),
            fields: fields_model(*r.2),
        }),
{
    (&variant.attrs, &variant.ident, &variant.fields)
}

/// The attributes, the name and the type of a `syn::Field`.
#[verifier::external_body]
fn split_field(field: &syn::Field) -> (r: (
    &Vec<syn::Attribute>,
    Option<&proc_macro2::Ident>,
    &syn::Type,
))
    ensures
        field_model(*field) == (FieldModel {
            attrs: r.0@.map_values(|a: syn::Attribute| attribute_model(a)),
            ident: match r.1 {
                Some(ident) => Some(ident_model(*ident)),
                None => None,
            },
            ty: type_model(*r.2),
        }),
{
    (&field.attrs, field.ident.as_ref(), &field.ty)
}

/// The type that a `syn::Type::Reference` refers to, and whether it is a mutable reference; `None`
/// for any other type.
#[verifier::external_body]
fn reference_target(ty: &syn::Type) -> (r: Option<(bool, &syn::Type)>)
    ensures
        match r {
            Some((mutable, elem)) => type_model(*ty) == (TypeModel::Reference {
                mutable,
                elem: Box::new(type_model(*elem)),
            }),
            None => type_model(*ty) is Other,
        },
{
    match ty {
        syn::Type::Reference(reference) => Some((reference.mutability.is_some(), &*reference.elem)),
        _ => None,
    }
}

/// `quote::ToTokens::to_token_stream` on a type, and the text of the tokens: what the model of a
/// type holds that is no reference.
#[verifier::external_body]
fn type_tokens(ty: &syn::Type) -> (r: String)
    ensures
        type_model(*ty) matches TypeModel::Other(tokens) ==> r@ == tokens,
{
    quote::ToTokens::to_token_stream(ty).to_string()
}

/// `proc_macro2::Ident::to_string`: the text of the identifier.
#[verifier::external_body]
fn ident_text(ident: &proc_macro2::Ident) -> (r: String)
    ensures
        r@ == ident_text_of(*ident),
{
    ident.to_string()
}

/// `proc_macro2::Ident::span` and `Span::start`: the line, from one, and the column, from zero.
#[verifier::external_body]
fn ident_start(ident: &proc_macro2::Ident) -> (r: (usize, usize))
    ensures
        r == ident_start_of(*ident),
{
    let start = ident.span().start();
    (start.line, start.column)
}

/// `syn::Attribute::path` and `syn::Path::get_ident`: the identifier that the path of the attribute
/// is, where it has one segment.
#[verifier::external_body]
fn attribute_ident(attr: &syn::Attribute) -> (r: Option<String>)
    ensures
        opt_view(r) == attribute_ident_of(*attr),
{
    Some(attr.path().get_ident()?.to_string())
}

/// `syn::LitStr::value` of the literal in a `syn::Meta::NameValue`; `None` for another attribute
/// and for another value.
#[verifier::external_body]
fn attribute_value(attr: &syn::Attribute) -> (r: Option<String>)
    ensures
        opt_view(r) == attribute_value_of(*attr),
{
    match &attr.meta {
        syn::Meta::NameValue(meta) => match &meta.value {
            syn::Expr::Lit(expr) => match &expr.lit {
                syn::Lit::Str(value) => Some(value.value()),
                _ => None,
            },
            _ => None,
        },
        _ => None,
    }
}

/// The text of the tokens in a `syn::Meta::List`; `None` for another attribute.
#[verifier::external_body]
fn attribute_list(attr: &syn::Attribute) -> (r: Option<String>)
    ensures
        opt_view(r) == attribute_list_of(*attr),
{
    match &attr.meta {
        syn::Meta::List(meta) => Some(meta.tokens.to_string()),
        _ => None,
    }
}

/// `syn::Attribute::parse_nested_meta`, with each path that it comes to kept as its single
/// identifier: it goes on as long as commas follow on the paths. The path of the attribute itself
/// must have a segment, for the error that it may come to.
#[verifier::external_body]
fn attribute_nested(attr: &syn::Attribute) -> (r: Vec<Option<String>>)
    requires
        attribute_ident_of(*attr) is Some,
    ensures
        r@.map_values(|s: Option<String>| opt_view(s)) == attribute_nested_of(*attr),
{
    let mut paths = Vec::new();
    let _ = attr.parse_nested_meta(
        |meta| {
            paths.push(meta.path.get_ident().map(|ident| ident.to_string()));
            Ok(())
        },
    );
    paths
}

// ---------------------------------------------------------------------------
// Reading
// ---------------------------------------------------------------------------

fn read_ident(ident: &proc_macro2::Ident) -> (r: RustIdent)
    ensures
        r@ == ident_model(*ident),
{
    let (line, column): (usize, usize) = ident_start(ident);
    RustIdent { text: ident_text(ident), line, column }
}

fn read_attribute(attr: &syn::Attribute) -> (r: RustAttribute)
    ensures
        r@ == attribute_model(*attr),
{
    let ident = attribute_ident(attr);
    let nested = if ident.is_some() {
        attribute_nested(attr)
    } else {
        Vec::new()
    };
    assert(ident is None ==> nested@.map_values(|s: Option<String>| opt_view(s)) == Seq::<
        Option<Seq<char>>,
    >::empty());
    RustAttribute {
        ident,
        value: attribute_value(attr),
        list: attribute_list(attr),
        nested,
    }
}

fn read_attributes(attrs: &Vec<syn::Attribute>) -> (r: Vec<RustAttribute>)
    ensures
        attribute_views(r@) == attrs@.map_values(|a: syn::Attribute| attribute_model(a)),
{
    let mut out: Vec<RustAttribute> = Vec::new();
    let mut i: usize = 0;
    while i < attrs.len()
        invariant
            i <= attrs@.len(),
            out@.len() == i,
            forall|k: int| 0 <= k < i ==> (#[trigger] out@[k])@ == attribute_model(attrs@[k]),
        decreases attrs@.len() - i,
    {
        out.push(read_attribute(&attrs[i]));
        i = i + 1;
    }
    assert(attribute_views(out@) == attrs@.map_values(|a: syn::Attribute| attribute_model(a)));
    out
}

fn read_type(ty: &syn::Type) -> (r: RustType)
    ensures
        r@ == type_model(*ty),
    decreases type_model(*ty),
{
    match reference_target(ty) {
        Some((mutable, elem)) => {
            assert(decreases_to!(type_model(*ty) => type_model(*ty)->elem));
            RustType::Reference { mutable, elem: Box::new(read_type(elem)) }
        },
        None => RustType::Other(type_tokens(ty)),
    }
}

fn read_field(field: &syn::Field) -> (r: RustField)
    ensures
        r@ == field_model(*field),
{
    let (attrs, ident, ty) = split_field(field);
    let ident = match ident {
        Some(ident) => Some(read_ident(ident)),
        None => None,
    };
    RustField { attrs: read_attributes(attrs), ident, ty: read_type(ty) }
}

fn read_field_list(fields: &Vec<&syn::Field>) -> (r: Vec<RustField>)
    ensures
        field_views(r@) == fields@.map_values(|f: &syn::Field| field_model(*f)),
{
    let mut out: Vec<RustField> = Vec::new();
    let mut i: usize = 0;
    while i < fields.len()
        invariant
            i <= fields@.len(),
            out@.len() == i,
            forall|k: int| 0 <= k < i ==> (#[trigger] out@[k])@ == field_model(*fields@[k]),
        decreases fields@.len() - i,
    {
        out.push(read_field(fields[i]));
        i = i + 1;
    }
    assert(field_views(out@) == fields@.map_values(|f: &syn::Field| field_model(*f)));
    out
}

fn read_fields(fields: &syn::Fields) -> (r: RustFields)
    ensures
        r@ == fields_model(*fields),
{
    match split_fields(fields) {
        SplitFields::Named(fields) => RustFields::Named(read_field_list(&fields)),
        SplitFields::Unnamed(fields) => RustFields::Unnamed(read_field_list(&fields)),
        SplitFields::Unit => RustFields::Unit,
    }
}

fn read_variant(variant: &syn::Variant) -> (r: RustVariant)
    ensures
        r@ == variant_model(*variant),
{
    let (attrs, ident, fields) = split_variant(variant);
    RustVariant {
        attrs: read_attributes(attrs),
        ident: read_ident(ident),
        fields: read_fields(fields),
    }
}

fn read_variants(variants: &Vec<&syn::Variant>) -> (r: Vec<RustVariant>)
    ensures
        variant_views(r@) == variants@.map_values(|v: &syn::Variant| variant_model(*v)),
{
    let mut out: Vec<RustVariant> = Vec::new();
    let mut i: usize = 0;
    while i < variants.len()
        invariant
            i <= variants@.len(),
            out@.len() == i,
            forall|k: int| 0 <= k < i ==> (#[trigger] out@[k])@ == variant_model(*variants@[k]),
        decreases variants@.len() - i,
    {
        out.push(read_variant(variants[i]));
        i = i + 1;
    }
    assert(variant_views(out@) == variants@.map_values(|v: &syn::Variant| variant_model(*v)));
    out
}

fn read_item(item: &syn::Item) -> (r: RustItem)
    ensures
        r@ == item_model(*item),
    decreases item_model(*item), 0int,
{
    match split_item(item) {
        SplitItem::Struct(attrs, ident, fields) => RustItem::Struct(
            RustStruct {
                attrs: read_attributes(attrs),
                ident: read_ident(ident),
                fields: read_fields(fields),
            },
        ),
        SplitItem::Enum(attrs, ident, variants) => RustItem::Enum(
            RustEnum {
                attrs: read_attributes(attrs),
                ident: read_ident(ident),
                variants: read_variants(&variants),
            },
        ),
        SplitItem::Type(ident, ty) => RustItem::Type(
            RustAlias { ident: read_ident(ident), ty: read_type(ty) },
        ),
        SplitItem::Mod(ident, content) => {
            let ghost model = item_model(*item);
            let content = match content {
                Some(items) => {
                    assert(decreases_to!(model => model->content));
                    assert(decreases_to!(model->content => model->content->0));
                    Some(read_items(items))
                },
                None => None,
            };
            let r = RustItem::Mod { ident: read_ident(ident), content };
            assert(r@->content == model->content) by {
                if let Some(items) = content {
                    assert(r@->content->0 == item_views(items@));
                }
            }
            r
        },
        SplitItem::Other => RustItem::Other,
    }
}

fn read_items(items: &Vec<syn::Item>) -> (r: Vec<RustItem>)
    ensures
        item_views(r@) == items@.map_values(|i: syn::Item| item_model(i)),
    decreases items@.map_values(|i: syn::Item| item_model(i)), 1int,
{
    let ghost models = items@.map_values(|i: syn::Item| item_model(i));
    let mut out: Vec<RustItem> = Vec::new();
    let mut i: usize = 0;
    while i < items.len()
        invariant
            i <= items@.len(),
            models == items@.map_values(|i: syn::Item| item_model(i)),
            out@.len() == i,
            forall|k: int| 0 <= k < i ==> (#[trigger] out@[k])@ == models[k],
        decreases items@.len() - i,
    {
        assert(models[i as int] == item_model(items@[i as int]));
        assert(decreases_to!(models => models[i as int]));
        out.push(read_item(&items[i]));
        i = i + 1;
    }
    assert(item_views(out@) == models);
    out
}

/// The items of a source file; `None` where it is no Rust source file.
pub fn parse_rust(content: &str) -> (r: Option<Vec<RustItem>>)
    ensures
        match r {
            Some(items) => rust_items(content@) == Some(item_views(items@)) && items_have_names(
                item_views(items@),
            ),
            None => rust_items(content@) is None,
        },
{
    match parse_items(content) {
        Some(items) => Some(read_items(&items)),
        None => None,
    }
}

} // verus!
