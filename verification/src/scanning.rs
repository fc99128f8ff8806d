//! What is known of a workspace after its files were read: each definition in them, and nothing else.

use crate::keyed::{key_index, keys_distinct, put, put_all};
use crate::lists::{
    if_any, image_of, is_image, lemma_image_holds, lemma_image_of, lemma_image_of_concat,
    lemma_image_of_nothing, lemma_image_of_one, lemma_image_step,
};
use crate::rust_analyzer::{
    alias_key, default_derived, definitions_of, doc_lines, docs_of, enum_info, fields_info,
    file_definitions, item_definitions, leaf_definition, leaf_definitions, lemma_alias_index,
    lemma_type_index, lists_default, lookup, lookup_after_scan, path_matches, path_of_module,
    resolved_path, serde_says, src_index, struct_info, text_of_type, type_key, type_matching,
    type_views, without_extension, workspace_definitions, AliasModel, EnumVariantModel,
    FieldInfoModel, Known, RustAnalyzer, SourceModel, TypeAlias, TypeInfo, TypeInfoModel,
    TypeKindModel,
};
use crate::rust_syntax::{
    rust_items, AttributeModel, EnumModel, FieldsModel, ItemModel, StructModel, TypeModel,
    VariantModel,
};
use crate::text;
use vstd::prelude::*;

verus! {

// ---------------------------------------------------------------------------
// The definitions in a file
// ---------------------------------------------------------------------------

/// The path of an item in a module.
pub open spec fn path_in(module: Seq<char>, name: Seq<char>) -> Seq<char> {
    if module.len() == 0 {
        name
    } else {
        module + "::"@ + name
    }
}

/// The items of a file that can define something, each with the path of its module: those at the top
/// level, and those directly in the modules at the top level that are written out.
pub open spec fn leaves_of(items: Seq<ItemModel>, module: Seq<char>) -> Seq<(ItemModel, Seq<char>)>
    decreases items.len(),
{
    if items.len() == 0 {
        Seq::empty()
    } else {
        leaves_of(items.drop_last(), module) + match items.last() {
            ItemModel::Mod { ident, content: Some(inner) } => Seq::new(
                inner.len(),
                |j: int| (inner[j], path_in(module, ident.text)),
            ),
            item => seq![(item, module)],
        }
    }
}

/// The type that an item defines, if it is a struct or an enum.
pub open spec fn type_defined(file_path: Seq<char>) -> spec_fn((ItemModel, Seq<char>)) -> Option<
    TypeInfoModel,
> {
    |leaf: (ItemModel, Seq<char>)|
        match leaf.0 {
            ItemModel::Struct(item) => Some(struct_info(item, leaf.1, file_path)),
            ItemModel::Enum(item) => Some(enum_info(item, leaf.1, file_path)),
            _ => None,
        }
}

/// The alias that an item defines, if it is a type alias.
pub open spec fn alias_defined() -> spec_fn((ItemModel, Seq<char>)) -> Option<AliasModel> {
    |leaf: (ItemModel, Seq<char>)|
        match leaf.0 {
            ItemModel::Type { ident, ty } => Some(
                AliasModel { path: path_in(leaf.1, ident.text), target: text_of_type(ty) },
            ),
            _ => None,
        }
}

proof fn lemma_leaf(item: ItemModel, module: Seq<char>, file_path: Seq<char>)
    ensures
        leaf_definition(item, module, file_path).types == if_any(
            type_defined(file_path)((item, module)),
        ),
        leaf_definition(item, module, file_path).aliases == if_any(alias_defined()((item, module))),
{
}

proof fn lemma_leaves(items: Seq<ItemModel>, n: nat, module: Seq<char>, file_path: Seq<char>)
    requires
        n <= items.len(),
    ensures
        leaf_definitions(items, n, module, file_path).types == image_of(
            Seq::new(n, |j: int| (items[j], module)),
            type_defined(file_path),
        ),
        leaf_definitions(items, n, module, file_path).aliases == image_of(
            Seq::new(n, |j: int| (items[j], module)),
            alias_defined(),
        ),
    decreases n,
{
    let leaves = Seq::new(n, |j: int| (items[j], module));
    if n > 0 {
        let m = (n - 1) as nat;
        lemma_leaves(items, m, module, file_path);
        assert(leaves.drop_last() == Seq::new(m, |j: int| (items[j], module)));
        assert(leaves.last() == (items[n - 1], module));
        lemma_leaf(items[n - 1], module, file_path);
    }
}

proof fn lemma_item(item: ItemModel, module: Seq<char>, file_path: Seq<char>)
    ensures
        ({
            let leaves = match item {
                ItemModel::Mod { ident, content: Some(inner) } => Seq::new(
                    inner.len(),
                    |j: int| (inner[j], path_in(module, ident.text)),
                ),
                item => seq![(item, module)],
            };
            &&& item_definitions(item, module, file_path).types == image_of(
                leaves,
                type_defined(file_path),
            )
            &&& item_definitions(item, module, file_path).aliases == image_of(
                leaves,
                alias_defined(),
            )
        }),
{
    match item {
        ItemModel::Mod { ident, content: Some(inner) } => {
            lemma_leaves(inner, inner.len(), path_in(module, ident.text), file_path);
        },
        _ => {
            lemma_leaf(item, module, file_path);
            lemma_image_of_one((item, module), type_defined(file_path));
            lemma_image_of_one((item, module), alias_defined());
        },
    }
}

proof fn lemma_definitions(items: Seq<ItemModel>, n: nat, module: Seq<char>, file_path: Seq<char>)
    requires
        n <= items.len(),
    ensures
        definitions_of(items, n, module, file_path).types == image_of(
            leaves_of(items.take(n as int), module),
            type_defined(file_path),
        ),
        definitions_of(items, n, module, file_path).aliases == image_of(
            leaves_of(items.take(n as int), module),
            alias_defined(),
        ),
    decreases n,
{
    if n > 0 {
        let m = (n - 1) as nat;
        lemma_definitions(items, m, module, file_path);
        let list = items.take(n as int);
        assert(list.drop_last() == items.take(m as int));
        assert(list.last() == items[n - 1]);
        let before = leaves_of(list.drop_last(), module);
        let own = match list.last() {
            ItemModel::Mod { ident, content: Some(inner) } => Seq::new(
                inner.len(),
                |j: int| (inner[j], path_in(module, ident.text)),
            ),
            item => seq![(item, module)],
        };
        assert(leaves_of(list, module) == before + own);
        lemma_item(items[n - 1], module, file_path);
        lemma_image_of_concat(before, own, type_defined(file_path));
        lemma_image_of_concat(before, own, alias_defined());
    } else {
        assert(items.take(0).len() == 0);
    }
}

/// The definitions of a file are those of its items, at the top level and in its inline modules: a
/// type for each struct and each enum, an alias for each type alias, in their order, and no other.
pub proof fn lemma_definitions_of_a_file(
    items: Seq<ItemModel>,
    module: Seq<char>,
    file_path: Seq<char>,
)
    ensures
        is_image(
            definitions_of(items, items.len(), module, file_path).types,
            leaves_of(items, module),
            type_defined(file_path),
        ),
        is_image(
            definitions_of(items, items.len(), module, file_path).aliases,
            leaves_of(items, module),
            alias_defined(),
        ),
{
    lemma_definitions(items, items.len(), module, file_path);
    assert(items.take(items.len() as int) == items);
    lemma_image_of(leaves_of(items, module), type_defined(file_path));
    lemma_image_of(leaves_of(items, module), alias_defined());
}

proof fn lemma_leaf_at_top(items: Seq<ItemModel>, module: Seq<char>, i: int) -> (k: int)
    requires
        0 <= i < items.len(),
        !(items[i] is Mod),
    ensures
        0 <= k < leaves_of(items, module).len(),
        leaves_of(items, module)[k] == (items[i], module),
    decreases items.len(),
{
    let before = leaves_of(items.drop_last(), module);
    if i == items.len() - 1 {
        assert(leaves_of(items, module)[before.len() as int] == (items[i], module));
        before.len() as int
    } else {
        assert(items.drop_last()[i] == items[i]);
        lemma_leaf_at_top(items.drop_last(), module, i)
    }
}

proof fn lemma_leaf_in_module(items: Seq<ItemModel>, module: Seq<char>, i: int, j: int) -> (k: int)
    requires
        0 <= i < items.len(),
        items[i] is Mod,
        items[i]->content is Some,
        0 <= j < items[i]->content->0.len(),
    ensures
        0 <= k < leaves_of(items, module).len(),
        leaves_of(items, module)[k] == (
            items[i]->content->0[j],
            path_in(module, items[i]->Mod_ident.text),
        ),
    decreases items.len(),
{
    let before = leaves_of(items.drop_last(), module);
    if i == items.len() - 1 {
        before.len() + j
    } else {
        assert(items.drop_last()[i] == items[i]);
        lemma_leaf_in_module(items.drop_last(), module, i, j)
    }
}

/// What an item in a module defines is among the definitions: under its path, with its kind.
pub open spec fn is_defined(
    definitions: Known,
    item: ItemModel,
    module: Seq<char>,
    file_path: Seq<char>,
) -> bool {
    match item {
        ItemModel::Struct(item) => exists|k: int|
            0 <= k < definitions.types.len() && is_struct_info(
                #[trigger] definitions.types[k],
                item,
                module,
                file_path,
            ),
        ItemModel::Enum(item) => exists|k: int|
            0 <= k < definitions.types.len() && is_enum_info(
                #[trigger] definitions.types[k],
                item,
                module,
                file_path,
            ),
        ItemModel::Type { ident, ty } => exists|k: int|
            0 <= k < definitions.aliases.len() && (#[trigger] definitions.aliases[k]).path
                == path_in(module, ident.text) && definitions.aliases[k].target == text_of_type(ty),
        _ => true,
    }
}

/// Each struct, each enum and each type alias at the top level of a file is defined by it.
pub proof fn lemma_top_level_items_are_defined(
    items: Seq<ItemModel>,
    module: Seq<char>,
    file_path: Seq<char>,
    i: int,
)
    requires
        0 <= i < items.len(),
    ensures
        is_defined(
            definitions_of(items, items.len(), module, file_path),
            items[i],
            module,
            file_path,
        ),
{
    if !(items[i] is Mod) {
        let k = lemma_leaf_at_top(items, module, i);
        lemma_leaf_is_defined(items, module, file_path, k);
    }
}

/// Each struct, each enum and each type alias in an inline module of a file is defined by it, under
/// the path of the module.
pub proof fn lemma_items_of_modules_are_defined(
    items: Seq<ItemModel>,
    module: Seq<char>,
    file_path: Seq<char>,
    i: int,
    j: int,
)
    requires
        0 <= i < items.len(),
        items[i] is Mod,
        items[i]->content is Some,
        0 <= j < items[i]->content->0.len(),
    ensures
        is_defined(
            definitions_of(items, items.len(), module, file_path),
            items[i]->content->0[j],
            path_in(module, items[i]->Mod_ident.text),
            file_path,
        ),
{
    let k = lemma_leaf_in_module(items, module, i, j);
    lemma_leaf_is_defined(items, module, file_path, k);
}

proof fn lemma_leaf_is_defined(
    items: Seq<ItemModel>,
    module: Seq<char>,
    file_path: Seq<char>,
    k: int,
)
    requires
        0 <= k < leaves_of(items, module).len(),
    ensures
        is_defined(
            definitions_of(items, items.len(), module, file_path),
            leaves_of(items, module)[k].0,
            leaves_of(items, module)[k].1,
            file_path,
        ),
{
    let definitions = definitions_of(items, items.len(), module, file_path);
    let leaves = leaves_of(items, module);
    let (item, own) = leaves[k];
    lemma_definitions_of_a_file(items, module, file_path);
    match item {
        ItemModel::Struct(item) => {
            lemma_image_holds(definitions.types, leaves, type_defined(file_path), k);
            lemma_struct_info(item, own, file_path);
            let info = struct_info(item, own, file_path);
            let m = choose|m: int| 0 <= m < definitions.types.len() && definitions.types[m] == info;
            assert(is_struct_info(definitions.types[m], item, own, file_path));
        },
        ItemModel::Enum(item) => {
            lemma_image_holds(definitions.types, leaves, type_defined(file_path), k);
            lemma_enum_info(item, own, file_path);
            let info = enum_info(item, own, file_path);
            let m = choose|m: int| 0 <= m < definitions.types.len() && definitions.types[m] == info;
            assert(is_enum_info(definitions.types[m], item, own, file_path));
        },
        ItemModel::Type { ident, ty } => {
            lemma_image_holds(definitions.aliases, leaves, alias_defined(), k);
            let alias = AliasModel { path: path_in(own, ident.text), target: text_of_type(ty) };
            let m = choose|m: int|
                0 <= m < definitions.aliases.len() && definitions.aliases[m] == alias;
            assert(definitions.aliases[m].path == path_in(own, ident.text));
        },
        _ => {},
    }
}

// ---------------------------------------------------------------------------
// What a definition says
// ---------------------------------------------------------------------------

/// What a documentation comment says.
pub open spec fn doc_text() -> spec_fn(AttributeModel) -> Option<Seq<char>> {
    |attr: AttributeModel|
        if attr.ident == Some("doc"@) && attr.value is Some {
            Some(text::trimmed(attr.value->0))
        } else {
            None
        }
}

/// Whether a text is the documentation in attributes: their lines, trimmed, in order, one to a line.
pub open spec fn is_docs(docs: Option<Seq<char>>, attrs: Seq<AttributeModel>) -> bool {
    match docs {
        Some(text) => exists|lines: Seq<Seq<char>>|
            {
                &&& #[trigger] is_image(lines, attrs, doc_text())
                &&& lines.len() > 0
                &&& text == text::joined(lines, "\n"@)
            },
        None => forall|i: int|
            0 <= i < attrs.len() ==> !((#[trigger] attrs[i]).ident == Some("doc"@)
                && attrs[i].value is Some),
    }
}

/// Whether `Default` is among what attributes derive.
pub open spec fn derives(attrs: Seq<AttributeModel>) -> bool {
    exists|i: int|
        0 <= i < attrs.len() && (#[trigger] attrs[i]).ident == Some("derive"@) && (
        attrs[i].list matches Some(tokens) && lists_default(tokens))
}

/// Whether one of the `serde` attributes has a word.
pub open spec fn has_serde(attrs: Seq<AttributeModel>, word: Seq<char>) -> bool {
    exists|i: int|
        0 <= i < attrs.len() && (#[trigger] attrs[i]).ident == Some("serde"@)
            && attrs[i].nested.contains(Some(word))
}

/// Whether the fields of a definition are those of a struct or a variant: as many, in the same order,
/// with their names, types, documentation and defaults. A field without a name has its index for one.
pub open spec fn are_fields(infos: Seq<FieldInfoModel>, fields: FieldsModel) -> bool {
    match fields {
        FieldsModel::Named(fields) => infos.len() == fields.len() && forall|i: int|
            0 <= i < fields.len() ==> {
                let info = #[trigger] infos[i];
                &&& info.name == fields[i].ident->0.text
                &&& info.type_text == text_of_type(fields[i].ty)
                &&& is_docs(info.docs, fields[i].attrs)
                &&& info.line == Some(fields[i].ident->0.line)
                &&& info.column == Some(fields[i].ident->0.column)
                &&& info.has_default == has_serde(fields[i].attrs, "default"@)
            },
        FieldsModel::Unnamed(fields) => infos.len() == fields.len() && forall|i: int|
            0 <= i < fields.len() ==> {
                let info = #[trigger] infos[i];
                &&& info.name == text::decimal(i as nat)
                &&& info.type_text == text_of_type(fields[i].ty)
                &&& info.docs is None && info.line is None && info.column is None
                &&& info.has_default == has_serde(fields[i].attrs, "default"@)
            },
        FieldsModel::Unit => infos.len() == 0,
    }
}

/// Whether the variants of a definition are those of an enum.
pub open spec fn are_variants(infos: Seq<EnumVariantModel>, variants: Seq<VariantModel>) -> bool {
    &&& infos.len() == variants.len()
    &&& forall|i: int|
        0 <= i < variants.len() ==> {
            let info = #[trigger] infos[i];
            &&& info.name == variants[i].ident.text
            &&& are_fields(info.fields, variants[i].fields)
            &&& is_docs(info.docs, variants[i].attrs)
            &&& info.line == Some(variants[i].ident.line)
            &&& info.column == Some(variants[i].ident.column)
        }
}

/// Whether a definition is that of a struct in a module of a file.
pub open spec fn is_struct_info(
    info: TypeInfoModel,
    item: StructModel,
    module: Seq<char>,
    file_path: Seq<char>,
) -> bool {
    &&& info.name == path_in(module, item.ident.text)
    &&& info.kind matches TypeKindModel::Struct(fields) && are_fields(fields, item.fields)
    &&& is_docs(info.docs, item.attrs)
    &&& info.source_file == Some(file_path)
    &&& info.line == Some(item.ident.line)
    &&& info.column == Some(item.ident.column)
    &&& info.has_default == derives(item.attrs)
    &&& info.is_transparent == has_serde(item.attrs, "transparent"@)
}

/// Whether a definition is that of an enum in a module of a file.
pub open spec fn is_enum_info(
    info: TypeInfoModel,
    item: EnumModel,
    module: Seq<char>,
    file_path: Seq<char>,
) -> bool {
    &&& info.name == path_in(module, item.ident.text)
    &&& info.kind matches TypeKindModel::Enum(variants) && are_variants(variants, item.variants)
    &&& is_docs(info.docs, item.attrs)
    &&& info.source_file == Some(file_path)
    &&& info.line == Some(item.ident.line)
    &&& info.column == Some(item.ident.column)
    &&& info.has_default == derives(item.attrs)
    &&& info.is_transparent == has_serde(item.attrs, "transparent"@)
}

proof fn lemma_doc_lines(attrs: Seq<AttributeModel>)
    ensures
        is_image(doc_lines(attrs), attrs, doc_text()),
    decreases attrs.len(),
{
    if attrs.len() == 0 {
        assert(attrs == Seq::<AttributeModel>::empty());
        lemma_image_of_nothing(doc_text());
    } else {
        let rest = attrs.drop_last();
        lemma_doc_lines(rest);
        lemma_image_step(doc_lines(rest), rest, doc_text(), attrs.last());
        assert(rest.push(attrs.last()) == attrs);
        assert(doc_lines(attrs) == doc_lines(rest) + if_any(doc_text()(attrs.last())));
    }
}

/// What is documented is what the documentation comments say.
pub proof fn lemma_docs(attrs: Seq<AttributeModel>)
    ensures
        is_docs(docs_of(attrs), attrs),
{
    lemma_doc_lines(attrs);
    if doc_lines(attrs).len() == 0 {
        assert forall|i: int| 0 <= i < attrs.len() implies !((#[trigger] attrs[i]).ident == Some(
            "doc"@,
        ) && attrs[i].value is Some) by {
            if attrs[i].ident == Some("doc"@) && attrs[i].value is Some {
                assert(doc_text()(attrs[i]) is Some);
                lemma_image_holds(doc_lines(attrs), attrs, doc_text(), i);
            }
        }
    }
}

proof fn lemma_attributes(attrs: Seq<AttributeModel>, word: Seq<char>)
    ensures
        default_derived(attrs) == derives(attrs),
        serde_says(attrs, word) == has_serde(attrs, word),
{
    if derives(attrs) {
        let i = choose|i: int|
            0 <= i < attrs.len() && (#[trigger] attrs[i]).ident == Some("derive"@) && (
            attrs[i].list matches Some(tokens) && lists_default(tokens));
        assert(crate::rust_analyzer::derives_default(attrs[i]));
    }
    if default_derived(attrs) {
        let i = choose|i: int|
            0 <= i < attrs.len() && crate::rust_analyzer::derives_default(#[trigger] attrs[i]);
        assert(attrs[i].ident == Some("derive"@));
    }
    if has_serde(attrs, word) {
        let i = choose|i: int|
            0 <= i < attrs.len() && (#[trigger] attrs[i]).ident == Some("serde"@)
                && attrs[i].nested.contains(Some(word));
        assert(crate::rust_analyzer::is_serde_word(attrs[i], word));
    }
    if serde_says(attrs, word) {
        let i = choose|i: int|
            0 <= i < attrs.len() && crate::rust_analyzer::is_serde_word(#[trigger] attrs[i], word);
        assert(attrs[i].ident == Some("serde"@));
    }
}

/// The fields of a definition are those that were read.
pub proof fn lemma_fields(fields: FieldsModel)
    ensures
        are_fields(fields_info(fields), fields),
{
    match fields {
        FieldsModel::Named(fields) => {
            assert forall|i: int| 0 <= i < fields.len() implies is_docs(
                docs_of(fields[i].attrs),
                (#[trigger] fields[i]).attrs,
            ) && serde_says(fields[i].attrs, "default"@) == has_serde(
                fields[i].attrs,
                "default"@,
            ) by {
                lemma_docs(fields[i].attrs);
                lemma_attributes(fields[i].attrs, "default"@);
            }
        },
        FieldsModel::Unnamed(fields) => {
            assert forall|i: int| 0 <= i < fields.len() implies serde_says(
                (#[trigger] fields[i]).attrs,
                "default"@,
            ) == has_serde(fields[i].attrs, "default"@) by {
                lemma_attributes(fields[i].attrs, "default"@);
            }
        },
        FieldsModel::Unit => {},
    }
}

/// The definition of a struct says what the struct says.
pub proof fn lemma_struct_info(item: StructModel, module: Seq<char>, file_path: Seq<char>)
    ensures
        is_struct_info(struct_info(item, module, file_path), item, module, file_path),
{
    lemma_fields(item.fields);
    lemma_docs(item.attrs);
    lemma_attributes(item.attrs, "transparent"@);
}

/// The definition of an enum says what the enum says.
pub proof fn lemma_enum_info(item: EnumModel, module: Seq<char>, file_path: Seq<char>)
    ensures
        is_enum_info(enum_info(item, module, file_path), item, module, file_path),
{
    lemma_docs(item.attrs);
    lemma_attributes(item.attrs, "transparent"@);
    assert forall|i: int| 0 <= i < item.variants.len() implies are_fields(
        fields_info(item.variants[i].fields),
        (#[trigger] item.variants[i]).fields,
    ) && is_docs(docs_of(item.variants[i].attrs), item.variants[i].attrs) by {
        lemma_fields(item.variants[i].fields);
        lemma_docs(item.variants[i].attrs);
    }
}

// ---------------------------------------------------------------------------
// The definitions in a workspace
// ---------------------------------------------------------------------------

/// A file defines what its items define, in the module that it holds; nothing where it cannot be read
/// as Rust.
pub proof fn lemma_definitions_of_a_source(file: SourceModel)
    ensures
        match rust_items(file.content) {
            Some(items) => is_image(
                file_definitions(file).types,
                leaves_of(items, file.path_of_module),
                type_defined(file.path),
            ) && is_image(
                file_definitions(file).aliases,
                leaves_of(items, file.path_of_module),
                alias_defined(),
            ),
            None => file_definitions(file).types.len() == 0 && file_definitions(file).aliases.len()
                == 0,
        },
{
    if let Some(items) = rust_items(file.content) {
        lemma_definitions_of_a_file(items, file.path_of_module, file.path);
    }
}

proof fn lemma_workspace_prefix(files: Seq<SourceModel>, more: SourceModel, n: nat)
    requires
        n <= files.len(),
    ensures
        workspace_definitions(seq![more] + files, n + 1) == file_definitions(more).plus(
            workspace_definitions(files, n),
        ),
    decreases n,
{
    let all = seq![more] + files;
    let own = file_definitions(more);
    if n == 0 {
        assert(all[0] == more);
        assert(workspace_definitions(all, 0) == Known::nothing());
        assert(workspace_definitions(all, 1) == Known::nothing().plus(own));
        assert(Known::nothing().plus(own) =~= own.plus(Known::nothing()));
    } else {
        lemma_workspace_prefix(files, more, (n - 1) as nat);
        assert(all[n as int] == files[n - 1]);
        let rest = workspace_definitions(files, (n - 1) as nat);
        let last = file_definitions(files[n - 1]);
        assert(own.plus(rest).plus(last) =~= own.plus(rest.plus(last)));
    }
}

/// The files of a workspace define what each of them defines, one after the other.
pub proof fn lemma_definitions_of_a_workspace(files: Seq<SourceModel>)
    ensures
        files.len() == 0 ==> workspace_definitions(files, files.len()).types.len() == 0
            && workspace_definitions(files, files.len()).aliases.len() == 0,
        files.len() > 0 ==> {
            let first = file_definitions(files[0]);
            let rest = workspace_definitions(files.skip(1), files.skip(1).len());
            &&& workspace_definitions(files, files.len()).types == first.types + rest.types
            &&& workspace_definitions(files, files.len()).aliases == first.aliases + rest.aliases
        },
{
    if files.len() > 0 {
        assert(seq![files[0]] + files.skip(1) == files);
        lemma_workspace_prefix(files.skip(1), files[0], files.skip(1).len());
    }
}

/// What a file defines is among the definitions of its workspace.
pub proof fn lemma_each_file_is_read(files: Seq<SourceModel>, n: nat, k: int, i: int)
    requires
        n <= files.len(),
        0 <= k < n,
    ensures
        0 <= i < file_definitions(files[k]).types.len() ==> workspace_definitions(
            files,
            n,
        ).types.contains(file_definitions(files[k]).types[i]),
        0 <= i < file_definitions(files[k]).aliases.len() ==> workspace_definitions(
            files,
            n,
        ).aliases.contains(file_definitions(files[k]).aliases[i]),
    decreases n,
{
    let m = (n - 1) as nat;
    let before = workspace_definitions(files, m);
    let all = workspace_definitions(files, n);
    let own = file_definitions(files[k]);
    if k == m {
        if 0 <= i < own.types.len() {
            assert(all.types[before.types.len() + i] == own.types[i]);
        }
        if 0 <= i < own.aliases.len() {
            assert(all.aliases[before.aliases.len() + i] == own.aliases[i]);
        }
    } else {
        lemma_each_file_is_read(files, m, k, i);
        if 0 <= i < own.types.len() {
            let j = choose|j: int| 0 <= j < before.types.len() && before.types[j] == own.types[i];
            assert(all.types[j] == own.types[i]);
        }
        if 0 <= i < own.aliases.len() {
            let j = choose|j: int|
                0 <= j < before.aliases.len() && before.aliases[j] == own.aliases[i];
            assert(all.aliases[j] == own.aliases[i]);
        }
    }
}

// ---------------------------------------------------------------------------
// What is known then
// ---------------------------------------------------------------------------

/// Whether an element is the last of a list with its key.
pub open spec fn is_last_with<A>(list: Seq<A>, key: spec_fn(A) -> Seq<char>, j: int) -> bool {
    &&& 0 <= j < list.len()
    &&& forall|k: int| j < k < list.len() ==> key(#[trigger] list[k]) != key(list[j])
}

/// Putting elements into a list whose keys are distinct: of the elements that were put in with one key
/// the last is there, in the place of one with the same key. The others are where they were, and no
/// other element is there.
proof fn lemma_put_all_exactly<A>(list: Seq<A>, key: spec_fn(A) -> Seq<char>, more: Seq<A>)
    requires
        keys_distinct(list, key),
    ensures
        keys_distinct(put_all(list, key, more), key),
        list.len() <= put_all(list, key, more).len(),
        forall|i: int|
            0 <= i < list.len() ==> key(#[trigger] put_all(list, key, more)[i]) == key(list[i]),
        forall|i: int|
            0 <= i < list.len() && (forall|j: int|
                0 <= j < more.len() ==> key(#[trigger] more[j]) != key(list[i]))
                ==> #[trigger] put_all(list, key, more)[i] == list[i],
        forall|j: int|
            #[trigger] is_last_with(more, key, j) ==> put_all(list, key, more).contains(more[j]),
        forall|i: int|
            0 <= i < put_all(list, key, more).len() ==> (i < list.len()
                && #[trigger] put_all(list, key, more)[i] == list[i]) || more.contains(
                put_all(list, key, more)[i],
            ),
    decreases more.len(),
{
    if more.len() > 0 {
        let rest = more.drop_last();
        let a = more.last();
        lemma_put_all_exactly(list, key, rest);
        let before = put_all(list, key, rest);
        let after = put_all(list, key, more);
        assert(after == put(before, key, a));
        crate::keyed::lemma_key_index(before, key, key(a), 0);
        crate::keyed::lemma_put_distinct(before, key, a);
        assert(more[more.len() - 1] == a);
        let at = match key_index(before, key, key(a), 0) {
            Some(at) => at,
            None => before.len() as int,
        };
        assert(after[at] == a);
        assert forall|i: int| 0 <= i < list.len() && (forall|j: int|
            0 <= j < more.len() ==> key(#[trigger] more[j]) != key(list[i])) implies
            #[trigger] after[i] == list[i] by {
            assert forall|j: int| 0 <= j < rest.len() implies key(#[trigger] rest[j]) != key(
                list[i],
            ) by {
                assert(rest[j] == more[j]);
            }
            assert(before[i] == list[i]);
            assert(key(more[more.len() - 1]) != key(list[i]));
            assert(i != at);
        }
        assert forall|j: int| #[trigger] is_last_with(more, key, j) implies after.contains(
            more[j],
        ) by {
            if j == more.len() - 1 {
                assert(after[at] == more[j]);
            } else {
                assert(key(more[more.len() - 1]) != key(more[j]));
                assert forall|k: int| j < k < rest.len() implies key(#[trigger] rest[k]) != key(
                    rest[j],
                ) by {
                    assert(rest[k] == more[k]);
                }
                assert(is_last_with(rest, key, j));
                assert(before.contains(rest[j]));
                let i = choose|i: int| 0 <= i < before.len() && before[i] == rest[j];
                assert(i != at);
                assert(after[i] == more[j]);
            }
        }
        assert forall|i: int| 0 <= i < after.len() implies (i < list.len() && #[trigger] after[i]
            == list[i]) || more.contains(after[i]) by {
            if i == at {
                assert(more.contains(a));
            } else {
                assert(after[i] == before[i]);
                if !(i < list.len() && before[i] == list[i]) {
                    assert(rest.contains(before[i]));
                    let j = choose|j: int| 0 <= j < rest.len() && rest[j] == before[i];
                    assert(more[j] == before[i]);
                }
            }
        }
    }
}

/// What is known after definitions were read: of each path that they define, the type that is defined
/// last. What was known of other paths stays known, and nothing else is known.
pub proof fn lemma_known_types(known: Known, definitions: Known)
    requires
        known.distinct(),
    ensures
        known.with(definitions).distinct(),
        forall|j: int|
            0 <= j < definitions.types.len() && (forall|k: int|
                j < k < definitions.types.len() ==> (#[trigger] definitions.types[k]).name
                    != definitions.types[j].name) ==> known.with(definitions).types.contains(
                #[trigger] definitions.types[j],
            ),
        forall|i: int|
            0 <= i < known.types.len() && (forall|j: int|
                0 <= j < definitions.types.len() ==> (#[trigger] definitions.types[j]).name
                    != known.types[i].name) ==> known.with(definitions).types.contains(
                #[trigger] known.types[i],
            ),
        forall|i: int|
            0 <= i < known.with(definitions).types.len() ==> known.types.contains(
                #[trigger] known.with(definitions).types[i],
            ) || definitions.types.contains(known.with(definitions).types[i]),
{
    lemma_put_all_exactly(known.types, type_key(), definitions.types);
    lemma_put_all_exactly(known.aliases, alias_key(), definitions.aliases);
    let after = known.with(definitions).types;
    assert forall|j: int|
        0 <= j < definitions.types.len() && (forall|k: int|
            j < k < definitions.types.len() ==> (#[trigger] definitions.types[k]).name
                != definitions.types[j].name) implies after.contains(
        #[trigger] definitions.types[j],
    ) by {
        assert(is_last_with(definitions.types, type_key(), j));
    }
    assert forall|i: int|
        0 <= i < known.types.len() && (forall|j: int|
            0 <= j < definitions.types.len() ==> (#[trigger] definitions.types[j]).name
                != known.types[i].name) implies after.contains(#[trigger] known.types[i]) by {
        assert forall|j: int| 0 <= j < definitions.types.len() implies type_key()(
            #[trigger] definitions.types[j],
        ) != type_key()(known.types[i]) by {}
        assert(after[i] == known.types[i]);
    }
    assert forall|i: int| 0 <= i < after.len() implies known.types.contains(#[trigger] after[i])
        || definitions.types.contains(after[i]) by {
        if i < known.types.len() && after[i] == known.types[i] {
            assert(known.types.contains(known.types[i]));
        }
    }
}

/// The same of type aliases.
pub proof fn lemma_known_aliases(known: Known, definitions: Known)
    requires
        known.distinct(),
    ensures
        forall|j: int|
            0 <= j < definitions.aliases.len() && (forall|k: int|
                j < k < definitions.aliases.len() ==> (#[trigger] definitions.aliases[k]).path
                    != definitions.aliases[j].path) ==> known.with(definitions).aliases.contains(
                #[trigger] definitions.aliases[j],
            ),
        forall|i: int|
            0 <= i < known.aliases.len() && (forall|j: int|
                0 <= j < definitions.aliases.len() ==> (#[trigger] definitions.aliases[j]).path
                    != known.aliases[i].path) ==> known.with(definitions).aliases.contains(
                #[trigger] known.aliases[i],
            ),
        forall|i: int|
            0 <= i < known.with(definitions).aliases.len() ==> known.aliases.contains(
                #[trigger] known.with(definitions).aliases[i],
            ) || definitions.aliases.contains(known.with(definitions).aliases[i]),
{
    lemma_put_all_exactly(known.aliases, alias_key(), definitions.aliases);
    let after = known.with(definitions).aliases;
    assert forall|j: int|
        0 <= j < definitions.aliases.len() && (forall|k: int|
            j < k < definitions.aliases.len() ==> (#[trigger] definitions.aliases[k]).path
                != definitions.aliases[j].path) implies after.contains(
        #[trigger] definitions.aliases[j],
    ) by {
        assert(is_last_with(definitions.aliases, alias_key(), j));
    }
    assert forall|i: int|
        0 <= i < known.aliases.len() && (forall|j: int|
            0 <= j < definitions.aliases.len() ==> (#[trigger] definitions.aliases[j]).path
                != known.aliases[i].path) implies after.contains(#[trigger] known.aliases[i]) by {
        assert forall|j: int| 0 <= j < definitions.aliases.len() implies alias_key()(
            #[trigger] definitions.aliases[j],
        ) != alias_key()(known.aliases[i]) by {}
        assert(after[i] == known.aliases[i]);
    }
    assert forall|i: int| 0 <= i < after.len() implies known.aliases.contains(#[trigger] after[i])
        || definitions.aliases.contains(after[i]) by {
        if i < known.aliases.len() && after[i] == known.aliases[i] {
            assert(known.aliases.contains(known.aliases[i]));
        }
    }
}

// ---------------------------------------------------------------------------
// Looking a type up
// ---------------------------------------------------------------------------

/// A type is found under its path, where the path is no alias.
pub proof fn lemma_found_under_its_path(types: Seq<TypeInfo>, aliases: Seq<TypeAlias>, i: int)
    requires
        0 <= i < types.len(),
        forall|j: int| 0 <= j < i ==> (#[trigger] types[j]).name@ != types[i].name@,
        forall|j: int| 0 <= j < aliases.len() ==> (#[trigger] aliases[j]).path@ != types[i].name@,
    ensures
        lookup(types, aliases, types[i].name@) == Some(types[i]),
{
    lemma_alias_index(aliases, types[i].name@, 0);
    lemma_type_index(types, types[i].name@, 0);
}

/// A type is found under an alias of its path, even where another type has the alias for its path.
pub proof fn lemma_found_under_an_alias(
    types: Seq<TypeInfo>,
    aliases: Seq<TypeAlias>,
    i: int,
    a: int,
)
    requires
        0 <= i < types.len(),
        forall|j: int| 0 <= j < i ==> (#[trigger] types[j]).name@ != types[i].name@,
        0 <= a < aliases.len(),
        forall|j: int| 0 <= j < a ==> (#[trigger] aliases[j]).path@ != aliases[a].path@,
        aliases[a].target@ == types[i].name@,
    ensures
        lookup(types, aliases, aliases[a].path@) == Some(types[i]),
{
    lemma_alias_index(aliases, aliases[a].path@, 0);
    lemma_type_index(types, types[i].name@, 0);
}

/// Whether a path ends another: it is the path, or its last segments.
pub open spec fn ends_path(full: Seq<char>, path: Seq<char>) -> bool {
    full == path || exists|k: int|
        0 <= k && k + 2 + path.len() == full.len() && #[trigger] full.subrange(k, k + 2) == seq![
            ':',
            ':',
        ] && full.skip(k + 2) == path
}

/// A path matches another where it ends it.
pub proof fn lemma_matching_paths(full: Seq<char>, path: Seq<char>)
    ensures
        path_matches(full, path) <==> ends_path(full, path),
{
    let sep = seq![':', ':'];
    assert(text::path_separator() == sep);
    let tail = sep + path;
    let k = full.len() - tail.len();
    if tail.is_suffix_of(full) {
        assert(full.subrange(k, full.len() as int) == tail);
        assert(full.subrange(k, k + 2) == sep) by {
            assert(tail.subrange(0, 2) == sep);
            assert(full.subrange(k, k + 2) == tail.subrange(0, 2));
        }
        assert(full.skip(k + 2) == path) by {
            assert(tail.skip(2) == path);
            assert(full.skip(k + 2) == tail.skip(2));
        }
    }
    if ends_path(full, path) && full != path {
        let j = choose|j: int|
            0 <= j && j + 2 + path.len() == full.len() && #[trigger] full.subrange(j, j + 2) == seq![
                ':',
                ':',
            ] && full.skip(j + 2) == path;
        assert(full.subrange(j, full.len() as int) == tail) by {
            assert(full.subrange(j, j + 2) + full.skip(j + 2) == full.subrange(
                j,
                full.len() as int,
            ));
        }
        assert(tail.is_suffix_of(full));
    }
}

/// Where no type has a path, the first is found whose path it ends, or whose path what it is an alias
/// of ends.
pub proof fn lemma_found_by_its_end(
    types: Seq<TypeInfo>,
    aliases: Seq<TypeAlias>,
    path: Seq<char>,
    i: int,
)
    requires
        0 <= i < types.len(),
        forall|j: int|
            0 <= j < types.len() ==> (#[trigger] types[j]).name@ != path && types[j].name@
                != resolved_path(aliases, path),
        ends_path(types[i].name@, path) || ends_path(types[i].name@, resolved_path(aliases, path)),
        forall|j: int|
            0 <= j < i ==> !ends_path((#[trigger] types[j]).name@, path) && !ends_path(
                types[j].name@,
                resolved_path(aliases, path),
            ),
    ensures
        lookup(types, aliases, path) == Some(types[i]),
{
    let resolved = resolved_path(aliases, path);
    lemma_type_index(types, path, 0);
    lemma_type_index(types, resolved, 0);
    lemma_matching_paths(types[i].name@, path);
    lemma_matching_paths(types[i].name@, resolved);
    assert forall|j: int| 0 <= j < i implies !path_matches((#[trigger] types[j]).name@, path)
        && !path_matches(types[j].name@, resolved) by {
        lemma_matching_paths(types[j].name@, path);
        lemma_matching_paths(types[j].name@, resolved);
    }
    lemma_first_matching(types, path, resolved, 0, i);
}

proof fn lemma_first_matching(
    types: Seq<TypeInfo>,
    path: Seq<char>,
    other: Seq<char>,
    k: int,
    i: int,
)
    requires
        0 <= k <= i < types.len(),
        path_matches(types[i].name@, path) || path_matches(types[i].name@, other),
        forall|j: int|
            k <= j < i ==> !path_matches((#[trigger] types[j]).name@, path) && !path_matches(
                types[j].name@,
                other,
            ),
    ensures
        type_matching(types, path, other, k) == Some(types[i]),
    decreases i - k,
{
    if k < i {
        assert(!path_matches(types[k].name@, path));
        lemma_first_matching(types, path, other, k + 1, i);
    }
}

/// An alias stands for its target, and another path for itself.
pub proof fn lemma_resolving(aliases: Seq<TypeAlias>, path: Seq<char>)
    ensures
        forall|a: int|
            0 <= a < aliases.len() && aliases[a].path@ == path && (forall|j: int|
                0 <= j < a ==> (#[trigger] aliases[j]).path@ != path) ==> resolved_path(
                aliases,
                path,
            ) == (#[trigger] aliases[a]).target@,
        (forall|a: int| 0 <= a < aliases.len() ==> (#[trigger] aliases[a]).path@ != path)
            ==> resolved_path(aliases, path) == path,
{
    lemma_alias_index(aliases, path, 0);
}

/// After a scan a type is found under what a path was resolved to, else under the path itself, else
/// under what the path ends.
pub proof fn lemma_found_after_a_scan(
    types: Seq<TypeInfo>,
    resolved: Seq<char>,
    path: Seq<char>,
    i: int,
)
    requires
        0 <= i < types.len(),
    ensures
        types[i].name@ == resolved && (forall|j: int|
            0 <= j < i ==> (#[trigger] types[j]).name@ != resolved) ==> lookup_after_scan(
            types,
            resolved,
            path,
        ) == Some(types[i]),
        (forall|j: int| 0 <= j < types.len() ==> (#[trigger] types[j]).name@ != resolved)
            && types[i].name@ == path && (forall|j: int|
            0 <= j < i ==> (#[trigger] types[j]).name@ != path) ==> lookup_after_scan(
            types,
            resolved,
            path,
        ) == Some(types[i]),
        (forall|j: int|
            0 <= j < types.len() ==> (#[trigger] types[j]).name@ != resolved && types[j].name@
                != path) && ends_path(types[i].name@, path) && (forall|j: int|
            0 <= j < i ==> !ends_path((#[trigger] types[j]).name@, path)) ==> lookup_after_scan(
            types,
            resolved,
            path,
        ) == Some(types[i]),
{
    lemma_type_index(types, path, 0);
    lemma_type_index(types, resolved, 0);
    lemma_matching_paths(types[i].name@, path);
    if ends_path(types[i].name@, path) && (forall|j: int|
        0 <= j < i ==> !ends_path((#[trigger] types[j]).name@, path)) {
        assert forall|j: int| 0 <= j < i implies !path_matches(
            (#[trigger] types[j]).name@,
            path,
        ) by {
            lemma_matching_paths(types[j].name@, path);
        }
        lemma_first_matching(types, path, path, 0, i);
    }
}

/// What an analyzer knows it finds, under the path of the type, where that is no alias.
pub proof fn lemma_known_type_is_found(analyzer: RustAnalyzer, info: TypeInfoModel)
    requires
        analyzer.wf(),
        analyzer.known().types.contains(info),
        forall|j: int|
            0 <= j < analyzer.aliases().len() ==> (#[trigger] analyzer.aliases()[j]).path@
                != info.name,
    ensures
        lookup(analyzer.types(), analyzer.aliases(), info.name) matches Some(found) && found@
            == info,
{
    let types = analyzer.types();
    let views = type_views(types);
    let i = choose|i: int| 0 <= i < views.len() && views[i] == info;
    assert(types[i]@ == info);
    assert forall|j: int| 0 <= j < i implies (#[trigger] types[j]).name@ != types[i].name@ by {}
    lemma_found_under_its_path(types, analyzer.aliases(), i);
}

// ---------------------------------------------------------------------------
// The modules of files
// ---------------------------------------------------------------------------

/// The module that a file holds, by where it is below the first `src`: the crate itself for the roots,
/// the module of the directory for `mod.rs`, else the module of the file. Elsewhere there is none.
pub proof fn lemma_module_of_a_file(
    before: Seq<Seq<char>>,
    directories: Seq<Seq<char>>,
    name: Seq<char>,
)
    requires
        !before.contains("src"@),
        !seq!['.', 'r', 's'].is_suffix_of(name),
    ensures
        path_of_module(before).len() == 0,
        path_of_module(before + seq!["src"@]) == "crate"@,
        ({
            let path = path_of_module(
                before + seq!["src"@] + directories + seq![name + seq!['.', 'r', 's']],
            );
            if name == "lib"@ || name == "main"@ || name == "mod"@ {
                path == (if directories.len() == 0 {
                    "crate"@
                } else {
                    "crate::"@ + text::joined(directories, "::"@)
                })
            } else {
                path == "crate::"@ + text::joined(directories.push(name), "::"@)
            }
        }),
{
    let file = name + seq!['.', 'r', 's'];
    let all = before + seq!["src"@] + directories + seq![file];
    let n = before.len() as int;
    lemma_no_src(before, 0);
    let root = before + seq!["src"@];
    assert(root[n] == "src"@);
    assert forall|j: int| 0 <= j < n implies root[j] != "src"@ && all[j] != "src"@ by {
        assert(root[j] == before[j] && all[j] == before[j]);
        assert(before.contains(before[j]));
    }
    lemma_first_src(root, 0, n);
    assert(root.skip(n + 1) == Seq::<Seq<char>>::empty());
    assert(all[n] == "src"@);
    lemma_first_src(all, 0, n);
    let relative = all.skip(n + 1);
    assert(relative == directories + seq![file]);
    assert(relative.last() == file);
    assert(relative.drop_last() == directories);
    assert(without_extension(file) == name) by {
        assert(seq!['.', 'r', 's'] == file.subrange(file.len() - 3, file.len() as int));
        assert(file.take(file.len() - 3) == name);
        assert(without_extension(name) == name);
    }
}

proof fn lemma_no_src(parts: Seq<Seq<char>>, i: int)
    requires
        0 <= i,
        !parts.contains("src"@),
    ensures
        src_index(parts, i) is None,
    decreases parts.len() - i,
{
    if i < parts.len() {
        assert(parts.contains(parts[i]));
        lemma_no_src(parts, i + 1);
    }
}

proof fn lemma_first_src(parts: Seq<Seq<char>>, i: int, n: int)
    requires
        0 <= i <= n < parts.len(),
        parts[n] == "src"@,
        forall|j: int| i <= j < n ==> parts[j] != "src"@,
    ensures
        src_index(parts, i) == Some(n),
    decreases n - i,
{
    if i < n {
        lemma_first_src(parts, i + 1, n);
    }
}

/// `Default` is derived where it is one of the words between commas.
pub proof fn lemma_derived_words(words: Seq<Seq<char>>)
    requires
        words.len() > 0,
        forall|i: int| 0 <= i < words.len() ==> !(#[trigger] words[i]).contains(','),
    ensures
        lists_default(text::joined(words, seq![','])) <==> exists|i: int|
            0 <= i < words.len() && text::trimmed(#[trigger] words[i]) == "Default"@,
{
    text::lemma_split_joined(words, ',');
}

/// The text of a reference is an ampersand, `mut` where it is mutable, and the text of what it refers
/// to; that of another type are its tokens.
pub proof fn lemma_type_texts(elem: TypeModel, tokens: Seq<char>)
    ensures
        text_of_type(TypeModel::Reference { mutable: false, elem: Box::new(elem) }) == seq!['&']
            + text_of_type(elem),
        text_of_type(TypeModel::Reference { mutable: true, elem: Box::new(elem) }) == seq![
            '&',
            'm',
            'u',
            't',
            ' ',
        ] + text_of_type(elem),
        text_of_type(TypeModel::Other(tokens)) == tokens,
{
    reveal_strlit("&");
    reveal_strlit("&mut ");
    assert("&"@ == seq!['&']);
    assert("&mut "@ == seq!['&', 'm', 'u', 't', ' ']);
}

/// The names in a file path with `/` are its pieces between the slashes, but for empty ones, `.` and
/// `..`.
pub proof fn lemma_names_in_a_path(parts: Seq<Seq<char>>)
    requires
        parts.len() > 0,
        forall|i: int| 0 <= i < parts.len() ==> !(#[trigger] parts[i]).contains('/'),
    ensures
        is_image(
            crate::rust_analyzer::path_names(text::joined(parts, seq!['/'])),
            parts,
            crate::lists::keep(
                |name: Seq<char>| name.len() > 0 && name != seq!['.'] && name != seq!['.', '.'],
            ),
        ),
{
    text::lemma_split_joined(parts, '/');
    let p = |name: Seq<char>| crate::rust_analyzer::is_path_name(name);
    let q = |name: Seq<char>| name.len() > 0 && name != seq!['.'] && name != seq!['.', '.'];
    crate::lists::lemma_filter_is_image(parts, q);
    lemma_same_filter(parts, p, q);
}

proof fn lemma_same_filter<A>(s: Seq<A>, p: spec_fn(A) -> bool, q: spec_fn(A) -> bool)
    requires
        forall|a: A| #[trigger] p(a) == q(a),
    ensures
        s.filter(p) == s.filter(q),
    decreases s.len(),
{
    reveal(Seq::filter);
    if s.len() > 0 {
        lemma_same_filter(s.drop_last(), p, q);
        assert(p(s.last()) == q(s.last()));
    }
}

/// The model of what is known shows each type and each alias, in their order, with all that is known
/// of them.
pub proof fn lemma_model_of_what_is_known(analyzer: RustAnalyzer, i: int)
    ensures
        analyzer.known().types.len() == analyzer.types().len(),
        analyzer.known().aliases.len() == analyzer.aliases().len(),
        0 <= i < analyzer.aliases().len() ==> analyzer.known().aliases[i].path
            == analyzer.aliases()[i].path@ && analyzer.known().aliases[i].target
            == analyzer.aliases()[i].target@,
        0 <= i < analyzer.types().len() ==> {
            let info = analyzer.types()[i];
            let model = analyzer.known().types[i];
            &&& model.name == info.name@
            &&& model.line == info.line && model.column == info.column
            &&& model.has_default == info.has_default
            &&& model.is_transparent == info.is_transparent
            &&& model.docs == crate::lsp::opt_view(info.docs)
            &&& model.source_file == crate::lsp::opt_view(info.source_file)
            &&& match info.kind {
                crate::rust_analyzer::TypeKind::Struct(fields) => model.kind matches TypeKindModel::Struct(
                    shown,
                ) && shows_fields(shown, fields@),
                crate::rust_analyzer::TypeKind::Enum(variants) => model.kind matches TypeKindModel::Enum(
                    shown,
                ) && shown.len() == variants@.len() && forall|k: int|
                    0 <= k < variants@.len() ==> (#[trigger] shown[k]).name == variants@[k].name@
                        && shows_fields(shown[k].fields, variants@[k].fields@) && shown[k].docs
                        == crate::lsp::opt_view(variants@[k].docs) && shown[k].line
                        == variants@[k].line && shown[k].column == variants@[k].column,
            }
        },
{
}

/// Whether the models of fields show all of them.
pub open spec fn shows_fields(
    shown: Seq<FieldInfoModel>,
    fields: Seq<crate::rust_analyzer::FieldInfo>,
) -> bool {
    &&& shown.len() == fields.len()
    &&& forall|k: int|
        0 <= k < fields.len() ==> (#[trigger] shown[k]).name == fields[k].name@
            && shown[k].type_text == fields[k].type_text@ && shown[k].docs
            == crate::lsp::opt_view(fields[k].docs) && shown[k].line == fields[k].line
            && shown[k].column == fields[k].column && shown[k].has_default == fields[k].has_default
}

// ---------------------------------------------------------------------------
// Finding parts of a type
// ---------------------------------------------------------------------------

/// The field of a struct with a name is the first that has it.
pub proof fn lemma_field_of_a_struct(
    info: TypeInfo,
    fields: Vec<crate::rust_analyzer::FieldInfo>,
    name: Seq<char>,
    i: int,
)
    requires
        info.kind == crate::rust_analyzer::TypeKind::Struct(fields),
    ensures
        0 <= i < fields@.len() && fields@[i].name@ == name && (forall|j: int|
            0 <= j < i ==> (#[trigger] fields@[j]).name@ != name) ==> info.field_with_name(name)
            == Some(fields@[i]),
        (forall|j: int| 0 <= j < fields@.len() ==> (#[trigger] fields@[j]).name@ != name)
            ==> info.field_with_name(name) is None,
        info.variant_with_name(name) is None,
{
    if 0 <= i < fields@.len() && fields@[i].name@ == name && (forall|j: int|
        0 <= j < i ==> (#[trigger] fields@[j]).name@ != name) {
        lemma_first_field(fields@, name, 0, i);
    }
    if forall|j: int| 0 <= j < fields@.len() ==> (#[trigger] fields@[j]).name@ != name {
        lemma_no_field(fields@, name, 0);
    }
}

/// The variant of an enum with a name is the first that has it, and the field of an enum with a name
/// is the first in the first variant that has one.
pub proof fn lemma_parts_of_an_enum(
    info: TypeInfo,
    variants: Vec<crate::rust_analyzer::EnumVariant>,
    name: Seq<char>,
    k: int,
    i: int,
)
    requires
        info.kind == crate::rust_analyzer::TypeKind::Enum(variants),
        0 <= k < variants@.len(),
    ensures
        variants@[k].name@ == name && (forall|j: int|
            0 <= j < k ==> (#[trigger] variants@[j]).name@ != name) ==> info.variant_with_name(name)
            == Some(variants@[k]),
        (forall|j: int| 0 <= j < variants@.len() ==> (#[trigger] variants@[j]).name@ != name)
            ==> info.variant_with_name(name) is None,
        0 <= i < variants@[k].fields@.len() && variants@[k].fields@[i].name@ == name && (forall|
            j: int,
        |
            0 <= j < i ==> (#[trigger] variants@[k].fields@[j]).name@ != name) && (forall|
            m: int,
            j: int,
        |
            #![trigger variants@[m].fields@[j]]
            0 <= m < k && 0 <= j < variants@[m].fields@.len() ==> variants@[m].fields@[j].name@
                != name) ==> info.field_with_name(name) == Some(variants@[k].fields@[i]),
{
    crate::rust_analyzer::lemma_variant_named(variants@, name, 0);
    if variants@[k].name@ == name && (forall|j: int|
        0 <= j < k ==> (#[trigger] variants@[j]).name@ != name) {
        lemma_first_variant(variants@, name, 0, k);
    }
    if forall|j: int| 0 <= j < variants@.len() ==> (#[trigger] variants@[j]).name@ != name {
        if let Some(v) = crate::rust_analyzer::variant_named(variants@, name, 0) {
            let j = choose|j: int| 0 <= j < variants@.len() && variants@[j] == v;
            assert(variants@[j].name@ != name);
        }
    }
    if 0 <= i < variants@[k].fields@.len() && variants@[k].fields@[i].name@ == name && (forall|
        j: int,
    |
        0 <= j < i ==> (#[trigger] variants@[k].fields@[j]).name@ != name) && (forall|
        m: int,
        j: int,
    |
        #![trigger variants@[m].fields@[j]]
        0 <= m < k && 0 <= j < variants@[m].fields@.len() ==> variants@[m].fields@[j].name@
            != name) {
        lemma_first_variant_field(variants@, name, 0, k, i);
    }
}

proof fn lemma_first_variant_field(
    variants: Seq<crate::rust_analyzer::EnumVariant>,
    name: Seq<char>,
    from: int,
    k: int,
    i: int,
)
    requires
        0 <= from <= k < variants.len(),
        0 <= i < variants[k].fields@.len(),
        variants[k].fields@[i].name@ == name,
        forall|j: int| 0 <= j < i ==> (#[trigger] variants[k].fields@[j]).name@ != name,
        forall|m: int, j: int|
            #![trigger variants[m].fields@[j]]
            from <= m < k && 0 <= j < variants[m].fields@.len() ==> variants[m].fields@[j].name@
                != name,
    ensures
        crate::rust_analyzer::variant_field_named(variants, name, from) == Some(
            variants[k].fields@[i],
        ),
    decreases k - from,
{
    if from < k {
        lemma_no_field(variants[from].fields@, name, 0);
        lemma_first_variant_field(variants, name, from + 1, k, i);
    } else {
        lemma_first_field(variants[k].fields@, name, 0, i);
    }
}

proof fn lemma_first_variant(
    variants: Seq<crate::rust_analyzer::EnumVariant>,
    name: Seq<char>,
    from: int,
    k: int,
)
    requires
        0 <= from <= k < variants.len(),
        variants[k].name@ == name,
        forall|j: int| from <= j < k ==> (#[trigger] variants[j]).name@ != name,
    ensures
        crate::rust_analyzer::variant_named(variants, name, from) == Some(variants[k]),
    decreases k - from,
{
    if from < k {
        assert(variants[from].name@ != name);
        lemma_first_variant(variants, name, from + 1, k);
    }
}

proof fn lemma_first_field(
    fields: Seq<crate::rust_analyzer::FieldInfo>,
    name: Seq<char>,
    k: int,
    i: int,
)
    requires
        0 <= k <= i < fields.len(),
        fields[i].name@ == name,
        forall|j: int| k <= j < i ==> (#[trigger] fields[j]).name@ != name,
    ensures
        crate::rust_analyzer::field_named(fields, name, k) == Some(fields[i]),
    decreases i - k,
{
    if k < i {
        assert(fields[k].name@ != name);
        lemma_first_field(fields, name, k + 1, i);
    }
}

proof fn lemma_no_field(fields: Seq<crate::rust_analyzer::FieldInfo>, name: Seq<char>, k: int)
    requires
        0 <= k,
        forall|j: int| k <= j < fields.len() ==> (#[trigger] fields[j]).name@ != name,
    ensures
        crate::rust_analyzer::field_named(fields, name, k) is None,
    decreases fields.len() - k,
{
    if k < fields.len() {
        assert(fields[k].name@ != name);
        lemma_no_field(fields, name, k + 1);
    }
}

/// A field is optional where its type is an option or it has a default.
pub proof fn lemma_optional_fields(field: crate::rust_analyzer::FieldInfo, rest: Seq<char>)
    ensures
        field.type_text@ == "Option"@ + rest ==> field.optional(),
        field.has_default ==> field.optional(),
        !field.has_default && !(field.type_text@.len() >= 6 && field.type_text@.take(6)
            == "Option"@) ==> !field.optional(),
{
    reveal_strlit("Option");
    if field.type_text@ == "Option"@ + rest {
        assert("Option"@ == field.type_text@.subrange(0, 6));
    }
    if "Option"@.is_prefix_of(field.type_text@) {
        assert(field.type_text@.take(6) == "Option"@);
    }
}

} // verus!
