//! What completions offer: all that fits at the position, in order, and nothing else.

use crate::completion::{
    angles_in_order, before_byte, before_paren, completable, completions_at, context_at,
    field_completion, field_snippet, inner_type, inner_type_completions, is_word_char,
    last_type_word, last_word_break, line_before, name_completions, struct_snippet, type_before,
    type_completions, type_context_defined, unused_field_completions, value_completions,
    variant_completion, CompletionContext,
};
use crate::lists::{if_any, is_image, lemma_image_of_nothing, lemma_image_step};
use crate::lsp::{
    opt_view, CompletionItemKind, CompletionModel, InsertTextFormat, MarkupKind, Position,
};
use crate::rust_analyzer::{
    field_named, lookup, variant_named, EnumVariant, FieldInfo, TypeAlias, TypeInfo, TypeKind,
};
use crate::syntax::Syntax;
use crate::text;
use crate::tree_sitter_parser::{field_at, fields_of, variant_at};
use crate::ts_utils;
use vstd::prelude::*;

verus! {

/// Whether an item shows a label and inserts a text.
pub open spec fn offers(
    item: CompletionModel,
    label: Seq<char>,
    kind: CompletionItemKind,
    detail: Seq<char>,
    insert_text: Seq<char>,
    snippet: bool,
) -> bool {
    &&& item.label == label
    &&& item.kind == Some(kind)
    &&& item.detail == Some(detail)
    &&& item.insert_text == Some(insert_text)
    &&& item.insert_text_format == (if snippet {
        Some(InsertTextFormat::Snippet)
    } else {
        None
    })
}

/// Whether the documentation of an item is a text in Markdown, or is missing where there is no text.
pub open spec fn documents(item: CompletionModel, docs: Option<Seq<char>>) -> bool {
    match docs {
        Some(docs) => item.documentation matches Some(shown) && shown.kind == MarkupKind::Markdown
            && shown.value == docs,
        None => item.documentation is None,
    }
}

/// A signature in a block of Rust, and behind it what is documented of it.
pub open spec fn signature_and(code: Seq<char>, docs: Option<Seq<char>>) -> Seq<char> {
    "```rust\n"@ + code + "\n```"@ + match docs {
        Some(docs) => "\n\n"@ + docs,
        None => Seq::empty(),
    }
}

// ---------------------------------------------------------------------------
// Values
// ---------------------------------------------------------------------------

/// Where the type of a value is a known enum, its variants are offered: all of them, in their order,
/// each under its name.
pub proof fn lemma_values_of_an_enum(
    type_text: Seq<char>,
    types: Seq<TypeInfo>,
    aliases: Seq<TypeAlias>,
    info: TypeInfo,
    variants: Vec<EnumVariant>,
)
    requires
        lookup(types, aliases, type_text) == Some(info),
        info.kind == TypeKind::Enum(variants),
    ensures
        value_completions(type_text, types, aliases).len() == variants@.len(),
        forall|i: int|
            0 <= i < variants@.len() ==> {
                let item = #[trigger] value_completions(type_text, types, aliases)[i];
                &&& offers(
                    item,
                    variants@[i].name@,
                    CompletionItemKind::EnumMember,
                    "Variant of "@ + info.name@,
                    variants@[i].name@,
                    false,
                )
                &&& documents(item, opt_view(variants@[i].docs))
            },
{
}

/// Where the type of a value is a known struct, the struct is offered, under the last segment of its
/// path.
pub proof fn lemma_values_of_a_struct(
    type_text: Seq<char>,
    types: Seq<TypeInfo>,
    aliases: Seq<TypeAlias>,
    info: TypeInfo,
    fields: Vec<FieldInfo>,
)
    requires
        lookup(types, aliases, type_text) == Some(info),
        info.kind == TypeKind::Struct(fields),
    ensures
        value_completions(type_text, types, aliases).len() == 1,
        offers(
            value_completions(type_text, types, aliases)[0],
            text::last_segment(info.name@),
            CompletionItemKind::Struct,
            "struct "@ + info.name@,
            struct_snippet(text::last_segment(info.name@), fields@),
            true,
        ),
        documents(value_completions(type_text, types, aliases)[0], opt_view(info.docs)),
{
}

/// Of a type that is not known and is an option, `Some` and `None` are offered; `Some` with the type
/// in the option where that is known.
pub proof fn lemma_values_of_an_option(
    argument: Seq<char>,
    types: Seq<TypeInfo>,
    aliases: Seq<TypeAlias>,
)
    requires
        !argument.contains(' '),
        lookup(types, aliases, "Option<"@ + argument + ">"@) is None,
    ensures
        ({
            let items = value_completions("Option<"@ + argument + ">"@, types, aliases);
            &&& items.len() == 2
            &&& match lookup(types, aliases, argument) {
                Some(info) => offers(
                    items[0],
                    "Some("@ + text::last_segment(info.name@) + ")"@,
                    CompletionItemKind::Value,
                    "Some variant with nested type"@,
                    "Some("@ + text::last_segment(info.name@) + "($0))"@,
                    true,
                ),
                None => offers(
                    items[0],
                    "Some()"@,
                    CompletionItemKind::Value,
                    "Some variant"@,
                    "Some($0)"@,
                    true,
                ),
            }
            &&& offers(
                items[1],
                "None"@,
                CompletionItemKind::Value,
                "None variant"@,
                "None"@,
                false,
            )
        }),
{
    lemma_option_text(argument);
    lemma_option_items("Option<"@ + argument + ">"@, argument, types, aliases);
}

proof fn lemma_option_text(argument: Seq<char>)
    requires
        !argument.contains(' '),
    ensures
        text::without_spaces("Option<"@ + argument + ">"@) == "Option<"@ + argument + ">"@,
        inner_type("Option<"@ + argument + ">"@) == argument,
        "Option<"@.is_prefix_of("Option<"@ + argument + ">"@),
{
    lemma_option_literals();
    let s = "Option<"@ + argument + ">"@;
    lemma_generic_start(s, "Option<"@, argument, ">"@);
    lemma_no_spaces_in_generic("Option"@, argument);
    lemma_argument(s, "Option"@, argument);
}

proof fn lemma_generic_start(s: Seq<char>, open: Seq<char>, argument: Seq<char>, close: Seq<char>)
    requires
        s == open + argument + close,
    ensures
        open.is_prefix_of(s),
{
    assert(open == s.subrange(0, open.len() as int));
}

proof fn lemma_argument(s: Seq<char>, head: Seq<char>, argument: Seq<char>)
    requires
        s == head + seq!['<'] + argument + seq!['>'],
        !head.contains('<'),
        !head.contains(' '),
        !argument.contains(' '),
    ensures
        inner_type(s) == argument,
{
    crate::completion::lemma_inner_type(head, argument);
}

proof fn lemma_option_literals()
    ensures
        "Option<"@ == "Option"@ + seq!['<'],
        ">"@ == seq!['>'],
        !"Option"@.contains('<'),
        !"Option"@.contains(' '),
{
    reveal_strlit("Option<");
    reveal_strlit("Option");
    reveal_strlit(">");
}

proof fn lemma_no_spaces_in_generic(head: Seq<char>, argument: Seq<char>)
    requires
        !head.contains(' '),
        !argument.contains(' '),
    ensures
        text::without_spaces(head + seq!['<'] + argument + seq!['>']) == head + seq!['<'] + argument
            + seq!['>'],
{
    let s = head + seq!['<'] + argument + seq!['>'];
    let n = head.len();
    assert forall|k: int| 0 <= k < s.len() implies s[k] != ' ' by {
        if k < n {
            assert(s[k] == head[k]);
        } else if n < k < s.len() - 1 {
            assert(s[k] == argument[k - n - 1]);
        }
    }
    text::lemma_nothing_removed(s);
}

proof fn lemma_option_items(
    s: Seq<char>,
    argument: Seq<char>,
    types: Seq<TypeInfo>,
    aliases: Seq<TypeAlias>,
)
    requires
        text::without_spaces(s) == s,
        inner_type(s) == argument,
        "Option<"@.is_prefix_of(s),
        lookup(types, aliases, s) is None,
    ensures
        ({
            let items = value_completions(s, types, aliases);
            &&& items.len() == 2
            &&& match lookup(types, aliases, argument) {
                Some(info) => offers(
                    items[0],
                    "Some("@ + text::last_segment(info.name@) + ")"@,
                    CompletionItemKind::Value,
                    "Some variant with nested type"@,
                    "Some("@ + text::last_segment(info.name@) + "($0))"@,
                    true,
                ),
                None => offers(
                    items[0],
                    "Some()"@,
                    CompletionItemKind::Value,
                    "Some variant"@,
                    "Some($0)"@,
                    true,
                ),
            }
            &&& offers(
                items[1],
                "None"@,
                CompletionItemKind::Value,
                "None variant"@,
                "None"@,
                false,
            )
        }),
{
}

/// What is offered as a value of a type that is not known, by its text without spaces.
pub proof fn lemma_values_of_plain_types(
    type_text: Seq<char>,
    types: Seq<TypeInfo>,
    aliases: Seq<TypeAlias>,
)
    requires
        lookup(types, aliases, type_text) is None,
    ensures
        ({
            let clean = type_text.filter(|c: char| c != ' ');
            let items = value_completions(type_text, types, aliases);
            if clean == "bool"@ {
                &&& items.len() == 2
                &&& offers(
                    items[0],
                    "true"@,
                    CompletionItemKind::Value,
                    "Boolean value"@,
                    "true"@,
                    false,
                )
                &&& offers(
                    items[1],
                    "false"@,
                    CompletionItemKind::Value,
                    "Boolean value"@,
                    "false"@,
                    false,
                )
            } else if "Vec<"@.is_prefix_of(clean) || "["@.is_prefix_of(clean) {
                &&& items.len() == 2
                &&& offers(
                    items[0],
                    "[]"@,
                    CompletionItemKind::Value,
                    "Empty vector/array"@,
                    "[]"@,
                    false,
                )
                &&& offers(
                    items[1],
                    "[...]"@,
                    CompletionItemKind::Value,
                    "Vector/array with elements"@,
                    "[$0]"@,
                    true,
                )
            } else if "HashMap<"@.is_prefix_of(clean) || "BTreeMap<"@.is_prefix_of(clean) {
                &&& items.len() == 2
                &&& offers(items[0], "{}"@, CompletionItemKind::Value, "Empty map"@, "{}"@, false)
                &&& offers(
                    items[1],
                    "{...}"@,
                    CompletionItemKind::Value,
                    "Map with entries"@,
                    "{$0}"@,
                    true,
                )
            } else if clean == "String"@ || clean == "&str"@ {
                &&& items.len() == 1
                &&& offers(
                    items[0],
                    "\"\""@,
                    CompletionItemKind::Value,
                    "String value"@,
                    "\"$0\""@,
                    true,
                )
            } else if clean.len() > 0 && (clean[0] == 'i' || clean[0] == 'u' || clean[0] == 'f') {
                &&& items.len() == 1
                &&& offers(
                    items[0],
                    "0"@,
                    CompletionItemKind::Value,
                    type_text + " value"@,
                    "0"@,
                    false,
                )
            } else {
                !"Option<"@.is_prefix_of(clean) ==> items.len() == 0
            }
        }),
{
    lemma_first_characters(text::without_spaces(type_text));
}

/// What a text starts with tells the types apart that values are offered of.
proof fn lemma_first_characters(s: Seq<char>)
    ensures
        s == "bool"@ ==> s.len() > 0 && s[0] == 'b',
        s == "String"@ ==> s.len() > 0 && s[0] == 'S',
        s == "&str"@ ==> s.len() > 0 && s[0] == '&',
        "Vec<"@.is_prefix_of(s) ==> s.len() > 0 && s[0] == 'V',
        "["@.is_prefix_of(s) ==> s.len() > 0 && s[0] == '[',
        "HashMap<"@.is_prefix_of(s) ==> s.len() > 0 && s[0] == 'H',
        "BTreeMap<"@.is_prefix_of(s) ==> s.len() > 0 && s[0] == 'B',
        "Option<"@.is_prefix_of(s) ==> s.len() > 0 && s[0] == 'O',
        "i"@.is_prefix_of(s) <==> s.len() > 0 && s[0] == 'i',
        "u"@.is_prefix_of(s) <==> s.len() > 0 && s[0] == 'u',
        "f"@.is_prefix_of(s) <==> s.len() > 0 && s[0] == 'f',
{
    reveal_strlit("bool");
    reveal_strlit("String");
    reveal_strlit("&str");
    reveal_strlit("Vec<");
    reveal_strlit("[");
    reveal_strlit("HashMap<");
    reveal_strlit("BTreeMap<");
    reveal_strlit("Option<");
    reveal_strlit("i");
    reveal_strlit("u");
    reveal_strlit("f");
    lemma_prefix_first("Vec<"@, s);
    lemma_prefix_first("["@, s);
    lemma_prefix_first("HashMap<"@, s);
    lemma_prefix_first("BTreeMap<"@, s);
    lemma_prefix_first("Option<"@, s);
    lemma_prefix_first("i"@, s);
    lemma_prefix_first("u"@, s);
    lemma_prefix_first("f"@, s);
    if s.len() > 0 && s[0] == 'i' {
        assert("i"@ == s.subrange(0, 1));
    }
    if s.len() > 0 && s[0] == 'u' {
        assert("u"@ == s.subrange(0, 1));
    }
    if s.len() > 0 && s[0] == 'f' {
        assert("f"@ == s.subrange(0, 1));
    }
}

proof fn lemma_prefix_first(p: Seq<char>, s: Seq<char>)
    requires
        p.len() > 0,
    ensures
        p.is_prefix_of(s) ==> s.len() > 0 && s[0] == p[0],
{
    if p.is_prefix_of(s) {
        assert(p[0] == s.subrange(0, p.len() as int)[0]);
    }
}

// ---------------------------------------------------------------------------
// Names
// ---------------------------------------------------------------------------

/// The completion of a field that is not set yet.
pub open spec fn completing_unused(used: Seq<Seq<char>>) -> spec_fn(FieldInfo) -> Option<
    CompletionModel,
> {
    |field: FieldInfo|
        if used.contains(field.name@) {
            None
        } else {
            Some(field_completion(field))
        }
}

/// A field is offered under its name, with its type, and inserts its name and a colon.
pub proof fn lemma_completion_of_a_field(field: FieldInfo)
    ensures
        offers(
            field_completion(field),
            field.name@,
            CompletionItemKind::Field,
            field.type_text@,
            field.name@ + ": "@,
            false,
        ),
        documents(
            field_completion(field),
            Some(signature_and(field.name@ + ": "@ + field.type_text@, opt_view(field.docs))),
        ),
{
    if field.docs is None {
        let code = field.name@ + ": "@ + field.type_text@;
        let block = "```rust\n"@ + code + "\n```"@;
        assert(block == block + Seq::<char>::empty());
    } else {
        let code = field.name@ + ": "@ + field.type_text@;
        let docs = opt_view(field.docs)->0;
        let block = "```rust\n"@ + code + "\n```"@;
        assert(block + "\n\n"@ + docs == block + ("\n\n"@ + docs));
    }
}

proof fn lemma_unused_fields_image(fields: Seq<FieldInfo>, used: Seq<Seq<char>>, n: nat)
    requires
        n <= fields.len(),
    ensures
        is_image(
            unused_field_completions(fields, used, n),
            fields.take(n as int),
            completing_unused(used),
        ),
    decreases n,
{
    let f = completing_unused(used);
    if n == 0 {
        lemma_image_of_nothing(f);
        assert(fields.take(0) == Seq::<FieldInfo>::empty());
    } else {
        lemma_unused_fields_image(fields, used, (n - 1) as nat);
        let rest = unused_field_completions(fields, used, (n - 1) as nat);
        lemma_image_step(rest, fields.take(n - 1), f, fields[n - 1]);
        assert(fields.take(n - 1).push(fields[n - 1]) == fields.take(n as int));
        assert(unused_field_completions(fields, used, n) == rest + if_any(f(fields[n - 1])));
    }
}

/// Of a struct the fields are offered that are not set yet: all of them, in their order, and no other.
pub proof fn lemma_names_in_a_struct(
    type_info: TypeInfo,
    fields: Vec<FieldInfo>,
    used: Seq<Seq<char>>,
    variant: Option<Seq<char>>,
)
    requires
        type_info.kind == TypeKind::Struct(fields),
    ensures
        is_image(
            name_completions(type_info, used, variant),
            fields@,
            completing_unused(used),
        ),
{
    lemma_unused_fields_image(fields@, used, fields@.len());
    assert(fields@.take(fields@.len() as int) == fields@);
}

/// In a variant of an enum the fields of that variant are offered that are not set yet; elsewhere in
/// an enum all of its variants, in their order.
pub proof fn lemma_names_in_an_enum(
    type_info: TypeInfo,
    variants: Vec<EnumVariant>,
    used: Seq<Seq<char>>,
    variant: Option<Seq<char>>,
)
    requires
        type_info.kind == TypeKind::Enum(variants),
    ensures
        variant matches Some(name) ==> forall|i: int|
            0 <= i < variants@.len() && variants@[i].name@ == name && (forall|j: int|
                0 <= j < i ==> (#[trigger] variants@[j]).name@ != name) ==> is_image(
                name_completions(type_info, used, variant),
                (#[trigger] variants@[i]).fields@,
                completing_unused(used),
            ),
        (variant matches Some(name) ==> forall|i: int|
            0 <= i < variants@.len() ==> (#[trigger] variants@[i]).name@ != name) ==> {
            let items = name_completions(type_info, used, variant);
            &&& items.len() == variants@.len()
            &&& forall|i: int|
                0 <= i < variants@.len() ==> {
                    &&& offers(
                        #[trigger] items[i],
                        variants@[i].name@,
                        CompletionItemKind::EnumMember,
                        "Variant of "@ + type_info.name@,
                        if variants@[i].fields@.len() == 0 {
                            variants@[i].name@
                        } else {
                            variants@[i].name@ + "($0)"@
                        },
                        false,
                    )
                    &&& documents(
                        items[i],
                        Some(signature_and(variants@[i].name@, opt_view(variants@[i].docs))),
                    )
                }
        },
{
    if let Some(name) = variant {
        assert forall|i: int|
            0 <= i < variants@.len() && variants@[i].name@ == name && (forall|j: int|
                0 <= j < i ==> (#[trigger] variants@[j]).name@ != name) implies is_image(
            name_completions(type_info, used, variant),
            (#[trigger] variants@[i]).fields@,
            completing_unused(used),
        ) by {
            lemma_first_named(variants@, name, 0, i);
            let fields = variants@[i].fields@;
            lemma_unused_fields_image(fields, used, fields.len());
            assert(fields.take(fields.len() as int) == fields);
        }
        if forall|i: int| 0 <= i < variants@.len() ==> (#[trigger] variants@[i]).name@ != name {
            lemma_none_named(variants@, name, 0);
        }
    }
    assert forall|i: int| 0 <= i < variants@.len() implies documents(
        variant_completion(#[trigger] variants@[i], type_info.name@),
        Some(signature_and(variants@[i].name@, opt_view(variants@[i].docs))),
    ) by {
        let block = "```rust\n"@ + variants@[i].name@ + "\n```"@;
        match opt_view(variants@[i].docs) {
            Some(docs) => {
                assert(block + "\n\n"@ + docs == block + ("\n\n"@ + docs));
            },
            None => {
                assert(block == block + Seq::<char>::empty());
            },
        }
    }
}

proof fn lemma_first_named(variants: Seq<EnumVariant>, name: Seq<char>, k: int, i: int)
    requires
        0 <= k <= i < variants.len(),
        variants[i].name@ == name,
        forall|j: int| k <= j < i ==> (#[trigger] variants[j]).name@ != name,
    ensures
        variant_named(variants, name, k) == Some(variants[i]),
    decreases i - k,
{
    if k < i {
        assert(variants[k].name@ != name);
        lemma_first_named(variants, name, k + 1, i);
    }
}

proof fn lemma_none_named(variants: Seq<EnumVariant>, name: Seq<char>, k: int)
    requires
        0 <= k,
        forall|j: int| k <= j < variants.len() ==> (#[trigger] variants[j]).name@ != name,
    ensures
        variant_named(variants, name, k) is None,
    decreases variants.len() - k,
{
    if k < variants.len() {
        assert(variants[k].name@ != name);
        lemma_none_named(variants, name, k + 1);
    }
}

// ---------------------------------------------------------------------------
// Types
// ---------------------------------------------------------------------------

/// The lines of a snippet that sets fields, from the `i`-th on: each has its name and a place to fill
/// in, counted from one.
pub open spec fn snippet_lines(fields: Seq<FieldInfo>, i: int) -> Seq<char>
    decreases fields.len() - i,
{
    if i < 0 || i >= fields.len() {
        Seq::empty()
    } else {
        "    "@ + fields[i].name@ + ": ${"@ + text::decimal((i + 1) as nat) + "}"@ + ",\n"@
            + snippet_lines(fields, i + 1)
    }
}

proof fn lemma_joined_lines(parts: Seq<Seq<char>>, fields: Seq<FieldInfo>, n: nat)
    requires
        parts.len() == fields.len(),
        0 < n <= fields.len(),
        forall|i: int| 0 <= i < parts.len() ==> #[trigger] parts[i] == field_snippet(fields[i], i),
    ensures
        snippet_lines(fields, 0) == text::joined(parts.take(n as int), ",\n"@) + ",\n"@
            + snippet_lines(fields, n as int),
    decreases n,
{
    let head = parts.take(n as int);
    assert(head.last() == parts[n - 1]);
    if n == 1 {
        assert(snippet_lines(fields, 0) == parts[0] + ",\n"@ + snippet_lines(fields, 1));
    } else {
        lemma_joined_lines(parts, fields, (n - 1) as nat);
        assert(head.drop_last() == parts.take(n - 1));
        let before = text::joined(parts.take(n - 1), ",\n"@);
        let own = parts[n - 1];
        let rest = snippet_lines(fields, n as int);
        assert(snippet_lines(fields, n - 1) == own + ",\n"@ + rest);
        assert(before + ",\n"@ + (own + ",\n"@ + rest) == before + ",\n"@ + own + ",\n"@ + rest);
    }
}

/// The snippet of a struct is its name and, in parentheses, a line for each of its fields.
pub proof fn lemma_snippet_of_a_struct(name: Seq<char>, fields: Seq<FieldInfo>)
    ensures
        struct_snippet(name, fields) == (if fields.len() == 0 {
            name + "()"@
        } else {
            name + "(\n"@ + snippet_lines(fields, 0) + ")"@
        }),
{
    if fields.len() > 0 {
        let parts = Seq::new(fields.len(), |i: int| field_snippet(fields[i], i));
        lemma_joined_lines(parts, fields, fields.len());
        assert(parts.take(fields.len() as int) == parts);
        let lines = text::joined(parts, ",\n"@);
        assert(snippet_lines(fields, 0) == lines + ",\n"@ + Seq::<char>::empty());
        assert(",\n)"@ == ",\n"@ + ")"@) by {
            reveal_strlit(",\n)");
            reveal_strlit(",\n");
            reveal_strlit(")");
        }
        assert(name + "(\n"@ + lines + ",\n)"@ == name + "(\n"@ + snippet_lines(fields, 0) + ")"@);
    }
}

/// All types of a workspace are offered, in their order, each under the last segment of its path.
pub proof fn lemma_all_types_are_offered(types: Seq<TypeInfo>)
    ensures
        type_completions(types).len() == types.len(),
        forall|i: int|
            0 <= i < types.len() ==> {
                let name = text::last_segment(types[i].name@);
                let item = #[trigger] type_completions(types)[i];
                &&& documents(item, opt_view(types[i].docs))
                &&& match types[i].kind {
                    TypeKind::Struct(fields) => offers(
                        item,
                        name,
                        CompletionItemKind::Struct,
                        "struct "@ + types[i].name@,
                        struct_snippet(name, fields@),
                        true,
                    ),
                    TypeKind::Enum(_) => offers(
                        item,
                        name,
                        CompletionItemKind::Enum,
                        "enum "@ + types[i].name@,
                        name + "($0)"@,
                        true,
                    ),
                }
            },
{
}

/// Where the type that a field's type holds is known, it is offered, and nothing else.
pub proof fn lemma_type_in_a_field(
    field: FieldInfo,
    types: Seq<TypeInfo>,
    aliases: Seq<TypeAlias>,
)
    ensures
        lookup(types, aliases, inner_type(field.type_text@)) is None ==> inner_type_completions(
            Some(field),
            types,
            aliases,
        ).len() == 0,
        lookup(types, aliases, inner_type(field.type_text@)) matches Some(info) ==> {
            let items = inner_type_completions(Some(field), types, aliases);
            &&& items.len() == 1
            &&& items[0].label == text::last_segment(info.name@)
            &&& items[0].kind == Some(
                match info.kind {
                    TypeKind::Struct(_) => CompletionItemKind::Struct,
                    TypeKind::Enum(_) => CompletionItemKind::Enum,
                },
            )
        },
        inner_type_completions(None, types, aliases).len() == 0,
{
}

// ---------------------------------------------------------------------------
// What fits at a position
// ---------------------------------------------------------------------------

/// Whether a position stands behind another.
pub open spec fn is_behind(position: Position, row: u32, column: u32) -> bool {
    position.line > row || (position.line == row && position.character > column)
}

/// Outside of fields names are completed.
pub proof fn lemma_context_outside_fields(path: Seq<Syntax>, content: Seq<char>, position: Position)
    requires
        forall|k: int| 0 <= k < path.len() - 1 ==> (#[trigger] path[k]).kind != "field"@,
    ensures
        context_at(Some(path), content, position) == CompletionContext::FieldName,
        context_at(None, content, position) == CompletionContext::FieldName,
{
    lemma_no_ancestor(path, "field"@);
}

proof fn lemma_no_ancestor(path: Seq<Syntax>, kind: Seq<char>)
    requires
        forall|k: int| 0 <= k < path.len() - 1 ==> (#[trigger] path[k]).kind != kind,
    ensures
        ts_utils::ancestor_index(path, kind) is None,
    decreases path.len(),
{
    if path.len() > 1 {
        let rest = path.drop_last();
        assert forall|k: int| 0 <= k < rest.len() - 1 implies (#[trigger] rest[k]).kind != kind by {
            assert(rest[k] == path[k]);
        }
        assert(path[path.len() - 2].kind != kind);
        lemma_no_ancestor(rest, kind);
    }
}

proof fn lemma_nearest_ancestor(path: Seq<Syntax>, kind: Seq<char>, k: int)
    requires
        0 <= k < path.len() - 1,
        path[k].kind == kind,
        forall|j: int| k < j < path.len() - 1 ==> (#[trigger] path[j]).kind != kind,
    ensures
        ts_utils::ancestor_index(path, kind) == Some(k),
    decreases path.len(),
{
    if k < path.len() - 2 {
        let rest = path.drop_last();
        assert forall|j: int| k < j < rest.len() - 1 implies (#[trigger] rest[j]).kind != kind by {
            assert(rest[j] == path[j]);
        }
        assert(path[path.len() - 2].kind != kind);
        assert(rest[k] == path[k]);
        lemma_nearest_ancestor(rest, kind, k);
    }
}

/// In a field, behind its name, its value is completed: the name of a type where the value is made of
/// what a path is made of, else any value. Before that the name is completed, and also where the field
/// has no value. The field is the innermost above the node at the position.
pub proof fn lemma_context_in_a_field(
    path: Seq<Syntax>,
    k: int,
    content: Seq<char>,
    position: Position,
)
    requires
        0 <= k < path.len() - 1,
        path[k].kind == "field"@,
        forall|j: int| k < j < path.len() - 1 ==> (#[trigger] path[j]).kind != "field"@,
    ensures
        ({
            let field = path[k];
            let context = context_at(Some(path), content, position);
            match ts_utils::field_value_of(field) {
                Some(value) => if field.children.len() > 0 && is_behind(
                    position,
                    field.children[0].end_position.row as u32,
                    field.children[0].end_position.column as u32,
                ) {
                    if ts_utils::text_of(value, content) matches Some(text) && forall|i: int|
                        0 <= i < text.len() ==> text::alphanumeric_char(#[trigger] text[i])
                            || text[i] == '_' || text[i] == ':' {
                        context == CompletionContext::StructType
                    } else {
                        context == CompletionContext::FieldValue
                    }
                } else {
                    context == CompletionContext::FieldName
                },
                None => context == CompletionContext::FieldName,
            }
        }),
{
    lemma_nearest_ancestor(path, "field"@, k);
    assert(path.take(k + 1).last() == path[k]);
}

/// Where names are completed, the names that fit the type are offered. They depend on the fields that
/// the document sets and on the struct around the position.
pub proof fn lemma_offered_as_names(
    root: Option<Syntax>,
    path: Option<Seq<Syntax>>,
    content: Seq<char>,
    position: Position,
    type_info: TypeInfo,
    types: Seq<TypeInfo>,
    aliases: Seq<TypeAlias>,
)
    requires
        context_at(path, content, position) == CompletionContext::FieldName,
    ensures
        completions_at(root, path, content, position, type_info, types, aliases)
            == name_completions(type_info, fields_of(root, content), variant_at(path, content)),
{
}

/// Where the value of a field is completed, the values of the field's type are offered, and behind
/// them all types.
pub proof fn lemma_offered_as_value(
    root: Option<Syntax>,
    path: Option<Seq<Syntax>>,
    content: Seq<char>,
    position: Position,
    type_info: TypeInfo,
    fields: Vec<FieldInfo>,
    i: int,
    types: Seq<TypeInfo>,
    aliases: Seq<TypeAlias>,
)
    requires
        context_at(path, content, position) == CompletionContext::FieldValue,
        type_info.kind == TypeKind::Struct(fields),
        0 <= i < fields@.len(),
        field_at(path, content) == Some(fields@[i].name@),
        forall|j: int| 0 <= j < i ==> (#[trigger] fields@[j]).name@ != fields@[i].name@,
    ensures
        ({
            let items = completions_at(root, path, content, position, type_info, types, aliases);
            let values = value_completions(fields@[i].type_text@, types, aliases);
            &&& items.len() == values.len() + types.len()
            &&& items.take(values.len() as int) == values
            &&& items.skip(values.len() as int) == type_completions(types)
        }),
{
    lemma_first_field(fields@, fields@[i].name@, 0, i);
}

/// Where the name of a type is completed, the type in the field's type is offered.
pub proof fn lemma_offered_as_type(
    root: Option<Syntax>,
    path: Option<Seq<Syntax>>,
    content: Seq<char>,
    position: Position,
    type_info: TypeInfo,
    fields: Vec<FieldInfo>,
    i: int,
    types: Seq<TypeInfo>,
    aliases: Seq<TypeAlias>,
)
    requires
        context_at(path, content, position) == CompletionContext::StructType,
        type_info.kind == TypeKind::Struct(fields),
        0 <= i < fields@.len(),
        field_at(path, content) == Some(fields@[i].name@),
        forall|j: int| 0 <= j < i ==> (#[trigger] fields@[j]).name@ != fields@[i].name@,
    ensures
        completions_at(root, path, content, position, type_info, types, aliases)
            == inner_type_completions(Some(fields@[i]), types, aliases),
{
    lemma_first_field(fields@, fields@[i].name@, 0, i);
}

proof fn lemma_first_field(fields: Seq<FieldInfo>, name: Seq<char>, k: int, i: int)
    requires
        0 <= k <= i < fields.len(),
        fields[i].name@ == name,
        forall|j: int| k <= j < i ==> (#[trigger] fields[j]).name@ != name,
    ensures
        field_named(fields, name, k) == Some(fields[i]),
    decreases i - k,
{
    if k < i {
        assert(fields[k].name@ != name);
        lemma_first_field(fields, name, k + 1, i);
    }
}

/// Where the value of a field is completed that the type does not have, all types are offered, and
/// nothing else.
pub proof fn lemma_offered_for_an_unknown_field(
    root: Option<Syntax>,
    path: Option<Seq<Syntax>>,
    content: Seq<char>,
    position: Position,
    type_info: TypeInfo,
    types: Seq<TypeInfo>,
    aliases: Seq<TypeAlias>,
)
    requires
        field_at(path, content) matches Some(name) ==> match type_info.kind {
            TypeKind::Struct(fields) => forall|j: int|
                0 <= j < fields@.len() ==> (#[trigger] fields@[j]).name@ != name,
            TypeKind::Enum(_) => true,
        },
    ensures
        context_at(path, content, position) == CompletionContext::FieldValue ==> completions_at(
            root,
            path,
            content,
            position,
            type_info,
            types,
            aliases,
        ) == type_completions(types),
        context_at(path, content, position) == CompletionContext::StructType ==> completions_at(
            root,
            path,
            content,
            position,
            type_info,
            types,
            aliases,
        ).len() == 0,
{
    if let Some(name) = field_at(path, content) {
        if let TypeKind::Struct(fields) = type_info.kind {
            lemma_no_field_named(fields@, name, 0);
        }
        let all = type_completions(types);
        assert(Seq::<CompletionModel>::empty() + all == all);
    }
}

proof fn lemma_no_field_named(fields: Seq<FieldInfo>, name: Seq<char>, k: int)
    requires
        0 <= k,
        forall|j: int| k <= j < fields.len() ==> (#[trigger] fields[j]).name@ != name,
    ensures
        field_named(fields, name, k) is None,
    decreases fields.len() - k,
{
    if k < fields.len() {
        assert(fields[k].name@ != name);
        lemma_no_field_named(fields, name, k + 1);
    }
}

// ---------------------------------------------------------------------------
// The type before a position
// ---------------------------------------------------------------------------

/// The type before a position is the word directly before the last opening parenthesis of the line, up
/// to white space, where it starts with a capital.
pub proof fn lemma_type_before_a_parenthesis(
    before: Seq<char>,
    word: Seq<char>,
    space: Seq<char>,
    rest: Seq<char>,
)
    requires
        !rest.contains('('),
        forall|i: int| 0 <= i < space.len() ==> text::is_white_space(#[trigger] space[i]),
        word.len() > 0,
        forall|i: int| 0 <= i < word.len() ==> is_word_char(#[trigger] word[i]),
        !text::is_white_space(word[0]) && !text::is_white_space(word.last()),
        before.len() > 0 ==> !text::is_white_space(before[0]) && !is_word_char(before.last()),
    ensures
        type_before(before + word + space + seq!['('] + rest) == (if text::uppercase_char(word[0]) {
            Some(word)
        } else {
            None
        }),
{
    lemma_before_paren(before, word, space, rest);
    lemma_last_word(before, word);
}

proof fn lemma_last_word(before: Seq<char>, word: Seq<char>)
    requires
        word.len() > 0,
        forall|i: int| 0 <= i < word.len() ==> is_word_char(#[trigger] word[i]),
        before.len() > 0 ==> !is_word_char(before.last()),
    ensures
        last_type_word(before + word) == (if text::uppercase_char(word[0]) {
            Some(word)
        } else {
            None
        }),
{
    let s = before + word;
    lemma_break_before(before, word, word.len() as int);
    assert(s.take((before.len() + word.len()) as int) == s);
    if before.len() > 0 {
        assert(s.skip(before.len() as int) == word);
    } else {
        assert(s == word);
    }
}

proof fn lemma_break_before(before: Seq<char>, word: Seq<char>, n: int)
    requires
        0 <= n <= word.len(),
        forall|i: int| 0 <= i < word.len() ==> is_word_char(#[trigger] word[i]),
        before.len() > 0 ==> !is_word_char(before.last()),
    ensures
        last_word_break((before + word).take(before.len() + n)) == (if before.len() > 0 {
            Some(before.len() - 1)
        } else {
            None
        }),
    decreases n,
{
    let s = (before + word).take(before.len() + n);
    if n == 0 {
        assert(s == before);
    } else {
        assert(s.last() == word[n - 1]);
        assert(s.drop_last() == (before + word).take(before.len() + n - 1));
        lemma_break_before(before, word, n - 1);
    }
}

/// Without an opening parenthesis before a position there is no type before it.
pub proof fn lemma_no_type_without_a_parenthesis(before: Seq<char>)
    requires
        !before.contains('('),
    ensures
        type_before(before) is None,
{
    text::lemma_rfind_char(before, '(');
    if let Some(k) = text::rfind_char_in(before, '(') {
        assert(before.contains(before[k]));
    }
}

/// The type in a type without arguments is the type itself.
pub proof fn lemma_type_without_arguments(type_text: Seq<char>)
    requires
        !type_text.contains('<') || !type_text.contains('>'),
    ensures
        inner_type(type_text) == type_text,
{
    let clean = text::without_spaces(type_text);
    text::lemma_find_char(clean, '<', 0);
    text::lemma_rfind_char(clean, '>');
    let p = |c: char| c != ' ';
    assert forall|k: int| 0 <= k < clean.len() implies type_text.contains(#[trigger] clean[k]) by {
        crate::keyed::lemma_filter_in(type_text, p, k);
    }
    if let Some(k) = text::find_char_from(clean, '<', 0) {
        assert(type_text.contains(clean[k]));
    }
    if let Some(k) = text::rfind_char_in(clean, '>') {
        assert(type_text.contains(clean[k]));
    }
}

/// Completions are owed at each position but one: where the name of a type is completed in a field
/// whose type closes its angle brackets before it opens them.
pub proof fn lemma_completions_are_owed(
    path: Option<Seq<Syntax>>,
    content: Seq<char>,
    position: Position,
    type_info: TypeInfo,
)
    ensures
        context_at(path, content, position) != CompletionContext::StructType ==> completable(
            path,
            content,
            position,
            type_info,
        ),
        type_info.kind is Enum ==> completable(path, content, position, type_info),
        field_at(path, content) is None ==> completable(path, content, position, type_info),
        type_info.kind matches TypeKind::Struct(fields) ==> ((forall|i: int|
            0 <= i < fields@.len() ==> (!(#[trigger] fields@[i]).type_text@.contains('<')
                || !fields@[i].type_text@.contains('>') || fields@[i].type_text@.last() == '>'))
            ==> completable(path, content, position, type_info)),
{
    if let TypeKind::Struct(fields) = type_info.kind {
        if forall|i: int|
            0 <= i < fields@.len() ==> (!(#[trigger] fields@[i]).type_text@.contains('<')
                || !fields@[i].type_text@.contains('>') || fields@[i].type_text@.last() == '>') {
            if let Some(name) = field_at(path, content) {
                crate::rust_analyzer::lemma_field_named(fields@, name, 0);
                if let Some(field) = field_named(fields@, name, 0) {
                    let i = choose|i: int| 0 <= i < fields@.len() && fields@[i] == field;
                    lemma_angles(fields@[i].type_text@);
                }
            }
        }
    }
}

proof fn lemma_angles(t: Seq<char>)
    requires
        !t.contains('<') || !t.contains('>') || t.last() == '>',
    ensures
        angles_in_order(text::without_spaces(t)),
{
    let clean = text::without_spaces(t);
    let p = |c: char| c != ' ';
    text::lemma_find_char(clean, '<', 0);
    text::lemma_rfind_char(clean, '>');
    assert forall|k: int| 0 <= k < clean.len() implies t.contains(#[trigger] clean[k]) by {
        crate::keyed::lemma_filter_in(t, p, k);
    }
    if let (Some(a), Some(b)) = (text::find_char_from(clean, '<', 0), text::rfind_char_in(
        clean,
        '>',
    )) {
        assert(t.contains(clean[a]) && t.contains(clean[b]));
        reveal(Seq::filter);
        assert(clean.last() == '>');
        assert(clean[clean.len() - 1] == '>');
        if b < clean.len() - 1 {
            assert(clean[clean.len() - 1] != '>');
        }
        assert(a != b);
    }
}

/// What stands in a line before a byte are the characters whose bytes stand before it; there is nothing
/// where the byte is inside a character.
pub proof fn lemma_before_a_byte(a: Seq<char>, b: Seq<char>)
    ensures
        before_byte(a + b, vstd::utf8::encode_utf8(a).len()) == Some(a),
        forall|n: nat|
            n >= vstd::utf8::encode_utf8(a).len() ==> #[trigger] before_byte(a, n) == Some(a),
    decreases a.len(),
{
    if a.len() == 0 {
        assert(vstd::utf8::encode_utf8(a).len() == 0);
        assert(a == Seq::<char>::empty());
    } else {
        let rest = a.skip(1);
        lemma_before_a_byte(rest, b);
        let width = vstd::utf8::encode_scalar(a[0] as u32).len();
        assert(seq![a[0]] + rest == a);
        crate::ts_utils::lemma_encode_concat(seq![a[0]], rest);
        assert(vstd::utf8::encode_utf8(a).len() == width + vstd::utf8::encode_utf8(rest).len()) by {
            lemma_one_character(a[0]);
        }
        lemma_one_character(a[0]);
        let all = a + b;
        assert(all[0] == a[0]);
        assert(all.skip(1) == rest + b);
        assert forall|n: nat| n >= vstd::utf8::encode_utf8(a).len() implies #[trigger] before_byte(
            a,
            n,
        ) == Some(a) by {
            assert(before_byte(rest, (n - width) as nat) == Some(rest));
        }
    }
}

proof fn lemma_one_character(c: char)
    ensures
        vstd::utf8::encode_utf8(seq![c]).len() == vstd::utf8::encode_scalar(c as u32).len(),
        vstd::utf8::encode_scalar(c as u32).len() > 0,
{
    assert(seq![c].drop_first() == Seq::<char>::empty());
    assert(vstd::utf8::encode_utf8(seq![c].drop_first()).len() == 0);
}

/// What stands in a line before a position are the characters of the line up to its byte; there is
/// nothing where the text has no such line.
pub proof fn lemma_line_before_a_position(content: Seq<char>, position: Position, a: Seq<char>, b: Seq<char>)
    ensures
        text::nth_line(content, position.line as nat) == Some(a + b) && position.character
            == vstd::utf8::encode_utf8(a).len() ==> line_before(content, position) == Some(a),
        text::nth_line(content, position.line as nat) == Some(a) && position.character
            >= vstd::utf8::encode_utf8(a).len() ==> line_before(content, position) == Some(a),
        text::nth_line(content, position.line as nat) is None ==> line_before(content, position)
            is None && type_context_defined(content, position),
{
    lemma_before_a_byte(a, b);
}

/// The type before a position is owed where no parenthesis stands before the position in its line, and
/// where the word before the last one is all that stands before it or follows an ASCII character.
pub proof fn lemma_type_context_is_owed(
    content: Seq<char>,
    position: Position,
    before: Seq<char>,
    word: Seq<char>,
    space: Seq<char>,
    rest: Seq<char>,
)
    requires
        !rest.contains('('),
        forall|i: int| 0 <= i < space.len() ==> text::is_white_space(#[trigger] space[i]),
        word.len() > 0,
        forall|i: int| 0 <= i < word.len() ==> is_word_char(#[trigger] word[i]),
        !text::is_white_space(word[0]) && !text::is_white_space(word.last()),
        before.len() > 0 ==> !text::is_white_space(before[0]) && !is_word_char(before.last())
            && (before.last() as u32) < 128,
    ensures
        line_before(content, position) == Some(before + word + space + seq!['('] + rest)
            ==> type_context_defined(content, position),
        line_before(content, position) == Some(rest) ==> type_context_defined(content, position),
{
    text::lemma_rfind_char(rest, '(');
    if let Some(k) = text::rfind_char_in(rest, '(') {
        assert(rest.contains(rest[k]));
    }
    lemma_before_paren(before, word, space, rest);
    lemma_break_before(before, word, word.len() as int);
    let s = before + word;
    assert(s.take((before.len() + word.len()) as int) == s);
    if before.len() > 0 {
        let i = before.len() - 1;
        assert(last_word_break(s) == Some(i));
        assert(s[i] == before.last());
        assert((s[i] as u32) < 128);
    } else {
        assert(last_word_break(s) is None);
    }
    let all = before + word + space + seq!['('] + rest;
    if line_before(content, position) == Some(all) {
        assert(before_paren(all) == Some(s));
    }
}

proof fn lemma_before_paren(
    before: Seq<char>,
    word: Seq<char>,
    space: Seq<char>,
    rest: Seq<char>,
)
    requires
        !rest.contains('('),
        forall|i: int| 0 <= i < space.len() ==> text::is_white_space(#[trigger] space[i]),
        word.len() > 0,
        !text::is_white_space(word[0]) && !text::is_white_space(word.last()),
        before.len() > 0 ==> !text::is_white_space(before[0]),
    ensures
        before_paren(before + word + space + seq!['('] + rest) == Some(before + word),
{
    let text = before + word;
    let s = text + space + seq!['('] + rest;
    let k = (text.len() + space.len()) as int;
    assert(s[k] == '(');
    text::lemma_rfind_char(s, '(');
    assert forall|j: int| k < j < s.len() implies s[j] != '(' by {
        assert(s[j] == rest[j - k - 1]);
        assert(rest.contains(rest[j - k - 1]));
    }
    let found = text::rfind_char_in(s, '(')->0;
    assert(found == k) by {
        if found < k {
            assert(s[k] != '(');
        } else if found > k {
            assert(s[found] != '(');
        }
    }
    assert(s.take(k) == Seq::<char>::empty() + text + space);
    assert(text[0] == (if before.len() > 0 {
        before[0]
    } else {
        word[0]
    }));
    assert(text.last() == word.last());
    text::lemma_trimmed_inside(Seq::empty(), text, space);
}

/// The nodes at a position are those in the tree of the document, where there is one.
pub proof fn lemma_nodes_of_a_tree(
    tree: &crate::syntax::SyntaxTree,
    content: Seq<char>,
    position: Position,
)
    ensures
        crate::completion::opt_path(Some(tree), content, position) == ts_utils::path_at(
            tree.source(),
            content,
            position,
        ),
        crate::completion::opt_path(None, content, position) is None,
{
}

} // verus!
