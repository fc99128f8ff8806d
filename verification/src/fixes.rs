//! What the code actions of a document offer: nothing that is needed is left out, and nothing else is
//! offered.

use crate::code_actions::{
    add_field_actions, default_value_of, document_actions, explicit_actions, explicit_field,
    explicit_fields, explicit_name, explicit_root, field_lines, field_refs, first_of_variant,
    insertion_at, insertion_target, missing_field_actions_of, missing_from, nested_variant_actions,
    required_missing, same_variant, unnamed_value, used_at, variant_action, variant_actions_for,
    variant_definition,
};
use crate::format::occurs;
use crate::lists::{if_any, is_image, lemma_image_holds, lemma_image_of_nothing, lemma_image_step};
use crate::lsp::{ActionModel, CodeActionKind, Position};
use crate::rust_analyzer::{variant_named, EnumVariant, FieldInfo, TypeAlias, TypeInfo, TypeKind};
use crate::syntax::{Point, Syntax};
use crate::text;
use crate::tree_sitter_parser::{fields_of, LocationModel};
use crate::ts_utils;
use vstd::prelude::*;

verus! {

/// Whether an action has a title and a kind and makes one change: it puts a text at a position of a
/// document.
pub open spec fn puts(
    action: ActionModel,
    title: Seq<char>,
    kind: CodeActionKind,
    uri: Seq<char>,
    at: Position,
    new_text: Seq<char>,
) -> bool {
    &&& action.title == title
    &&& action.kind == Some(kind)
    &&& action.changes matches Some(changes) && {
        &&& changes.len() == 1
        &&& changes[0].uri == uri
        &&& changes[0].edits.len() == 1
        &&& changes[0].edits[0].range.start == at
        &&& changes[0].edits[0].range.end == at
        &&& changes[0].edits[0].new_text == new_text
    }
}

/// The place in the protocol that a node starts at.
pub open spec fn start_of(node: Syntax) -> Position {
    Position { line: node.start_position.row as u32, character: node.start_position.column as u32 }
}

// ---------------------------------------------------------------------------
// Names for structs without one
// ---------------------------------------------------------------------------

/// Whether a field of a document has a name and a struct without a name as its value.
pub open spec fn holds_unnamed(node: Syntax, content: Seq<char>, name: Seq<char>) -> bool {
    &&& ts_utils::field_name_of(node, content) == Some(name)
    &&& ts_utils::field_value_of(node) matches Some(value) && value.kind == "struct"@
        && ts_utils::struct_name_of(value, content) is None
}

/// A field of a type gets an action where the document has a field of that name with a struct without
/// a name as its value. The action puts the name of the type directly before the first such value.
pub proof fn lemma_unnamed_field_is_named(
    root: Syntax,
    main: Syntax,
    content: Seq<char>,
    field: FieldInfo,
    uri: Seq<char>,
    j: int,
)
    requires
        ts_utils::main_value_of(root) == Some(main),
        0 <= j < ts_utils::named_fields_of(main).len(),
        holds_unnamed(ts_utils::named_fields_of(main)[j], content, field.name@),
        forall|k: int|
            0 <= k < j ==> !holds_unnamed(
                #[trigger] ts_utils::named_fields_of(main)[k],
                content,
                field.name@,
            ),
    ensures
        explicit_field(Some(root), content, field, uri) matches Some(action) && puts(
            action,
            "Make field type explicit: "@ + field.name@ + " "@ + explicit_name(field.type_text@),
            CodeActionKind::Refactor,
            uri,
            start_of(ts_utils::field_value_of(ts_utils::named_fields_of(main)[j])->0),
            explicit_name(field.type_text@),
        ),
{
    lemma_unnamed_value(ts_utils::named_fields_of(main), content, field.name@, 0, j);
}

proof fn lemma_unnamed_value(
    fields: Seq<Syntax>,
    content: Seq<char>,
    name: Seq<char>,
    i: int,
    j: int,
)
    requires
        0 <= i <= j < fields.len(),
        holds_unnamed(fields[j], content, name),
        forall|k: int| i <= k < j ==> !holds_unnamed(#[trigger] fields[k], content, name),
    ensures
        unnamed_value(fields, content, name, i) == ts_utils::field_value_of(fields[j]),
    decreases j - i,
{
    if i < j {
        assert(!holds_unnamed(fields[i], content, name));
        lemma_unnamed_value(fields, content, name, i + 1, j);
    }
}

proof fn lemma_no_unnamed_value(fields: Seq<Syntax>, content: Seq<char>, name: Seq<char>, i: int)
    requires
        0 <= i,
        forall|k: int| i <= k < fields.len() ==> !holds_unnamed(#[trigger] fields[k], content, name),
    ensures
        unnamed_value(fields, content, name, i) is None,
    decreases fields.len() - i,
{
    if i < fields.len() {
        assert(!holds_unnamed(fields[i], content, name));
        lemma_no_unnamed_value(fields, content, name, i + 1);
    }
}

/// A field of a type gets no action where the document has no field of that name with a struct
/// without a name as its value.
pub proof fn lemma_other_field_is_not_named(
    root: Syntax,
    content: Seq<char>,
    field: FieldInfo,
    uri: Seq<char>,
)
    requires
        ts_utils::main_value_of(root) matches Some(main) ==> forall|k: int|
            0 <= k < ts_utils::named_fields_of(main).len() ==> !holds_unnamed(
                #[trigger] ts_utils::named_fields_of(main)[k],
                content,
                field.name@,
            ),
    ensures
        explicit_field(Some(root), content, field, uri) is None,
{
    if let Some(main) = ts_utils::main_value_of(root) {
        lemma_no_unnamed_value(ts_utils::named_fields_of(main), content, field.name@, 0);
    }
}

/// The action that names the struct in a field, for each field of a type.
pub open spec fn naming_fields(root: Option<Syntax>, content: Seq<char>, uri: Seq<char>) -> spec_fn(
    FieldInfo,
) -> Option<ActionModel> {
    |field: FieldInfo| explicit_field(root, content, field, uri)
}

proof fn lemma_explicit_fields_image(
    root: Option<Syntax>,
    content: Seq<char>,
    fields: Seq<FieldInfo>,
    n: nat,
    uri: Seq<char>,
)
    requires
        n <= fields.len(),
    ensures
        is_image(
            explicit_fields(root, content, fields, n, uri),
            fields.take(n as int),
            naming_fields(root, content, uri),
        ),
    decreases n,
{
    let f = naming_fields(root, content, uri);
    if n == 0 {
        lemma_image_of_nothing(f);
        assert(fields.take(0) == Seq::<FieldInfo>::empty());
    } else {
        lemma_explicit_fields_image(root, content, fields, (n - 1) as nat, uri);
        lemma_image_step(
            explicit_fields(root, content, fields, (n - 1) as nat, uri),
            fields.take(n - 1),
            f,
            fields[n - 1],
        );
        assert(fields.take(n - 1).push(fields[n - 1]) == fields.take(n as int));
        assert(explicit_fields(root, content, fields, n, uri) == explicit_fields(
            root,
            content,
            fields,
            (n - 1) as nat,
            uri,
        ) + if_any(f(fields[n - 1])));
    }
}

/// The actions that make names explicit: first that of the document itself, where there is one, and
/// then that of each field of a struct type which gets one, in the order of the fields. No field that
/// gets an action is left out, and there is no other action.
pub proof fn lemma_all_names_are_offered(
    root: Option<Syntax>,
    content: Seq<char>,
    type_info: TypeInfo,
    uri: Seq<char>,
)
    ensures
        ({
            let actions = explicit_actions(root, content, type_info, uri);
            let own = explicit_root(root, content, type_info.name@, uri);
            let n: int = if own is Some {
                1
            } else {
                0
            };
            &&& n <= actions.len()
            &&& own matches Some(action) ==> actions[0] == action
            &&& type_info.kind matches TypeKind::Struct(fields) ==> {
                &&& is_image(actions.skip(n), fields@, naming_fields(root, content, uri))
                &&& forall|i: int|
                    0 <= i < fields@.len() ==> (explicit_field(
                        root,
                        content,
                        #[trigger] fields@[i],
                        uri,
                    ) matches Some(action) ==> actions.contains(action))
            }
            &&& type_info.kind is Enum ==> actions.len() == n
        }),
{
    let actions = explicit_actions(root, content, type_info, uri);
    let own = explicit_root(root, content, type_info.name@, uri);
    let n: int = if own is Some {
        1
    } else {
        0
    };
    if let TypeKind::Struct(fields) = type_info.kind {
        let f = naming_fields(root, content, uri);
        let named = explicit_fields(root, content, fields@, fields@.len(), uri);
        lemma_explicit_fields_image(root, content, fields@, fields@.len(), uri);
        assert(fields@.take(fields@.len() as int) == fields@);
        assert(actions.skip(n) == named);
        assert forall|i: int| 0 <= i < fields@.len() implies (explicit_field(
            root,
            content,
            #[trigger] fields@[i],
            uri,
        ) matches Some(action) ==> actions.contains(action)) by {
            if let Some(action) = explicit_field(root, content, fields@[i], uri) {
                assert(f(fields@[i]) == Some(action));
                lemma_image_holds(named, fields@, f, i);
                let k = choose|k: int| 0 <= k < named.len() && named[k] == action;
                assert(actions[n + k] == action);
            }
        }
    }
}

/// Each field of a struct type whose value in the document is a struct without a name gets its name
/// offered: the actions hold one that puts the name of the field's type directly before that value.
pub proof fn lemma_each_unnamed_value_gets_its_name(
    root: Syntax,
    main: Syntax,
    content: Seq<char>,
    type_info: TypeInfo,
    fields: Vec<FieldInfo>,
    i: int,
    j: int,
    uri: Seq<char>,
) -> (action: ActionModel)
    requires
        type_info.kind == TypeKind::Struct(fields),
        0 <= i < fields@.len(),
        ts_utils::main_value_of(root) == Some(main),
        0 <= j < ts_utils::named_fields_of(main).len(),
        holds_unnamed(ts_utils::named_fields_of(main)[j], content, fields@[i].name@),
        forall|k: int|
            0 <= k < j ==> !holds_unnamed(
                #[trigger] ts_utils::named_fields_of(main)[k],
                content,
                fields@[i].name@,
            ),
    ensures
        explicit_actions(Some(root), content, type_info, uri).contains(action),
        puts(
            action,
            "Make field type explicit: "@ + fields@[i].name@ + " "@ + explicit_name(
                fields@[i].type_text@,
            ),
            CodeActionKind::Refactor,
            uri,
            start_of(ts_utils::field_value_of(ts_utils::named_fields_of(main)[j])->0),
            explicit_name(fields@[i].type_text@),
        ),
{
    lemma_unnamed_field_is_named(root, main, content, fields@[i], uri, j);
    lemma_all_names_are_offered(Some(root), content, type_info, uri);
    explicit_field(Some(root), content, fields@[i], uri)->0
}

/// A document whose main value is a struct without a name gets its name offered, directly before it;
/// other documents do not.
pub proof fn lemma_unnamed_document_is_named(
    root: Syntax,
    content: Seq<char>,
    path: Seq<char>,
    uri: Seq<char>,
)
    ensures
        match ts_utils::main_value_of(root) {
            Some(value) => if value.kind == "struct"@ && ts_utils::struct_name_of(value, content)
                is None {
                explicit_root(Some(root), content, path, uri) matches Some(action) && puts(
                    action,
                    "Make struct name explicit: "@ + text::last_segment(path),
                    CodeActionKind::Refactor,
                    uri,
                    start_of(value),
                    text::last_segment(path),
                )
            } else {
                explicit_root(Some(root), content, path, uri) is None
            },
            None => explicit_root(Some(root), content, path, uri) is None,
        },
        explicit_root(None, content, path, uri) is None,
{
}

// ---------------------------------------------------------------------------
// Fields that are missing
// ---------------------------------------------------------------------------

/// The fields that a document has to set and does not: without a default of their own, and not among
/// the names.
pub open spec fn unset_required<'a>(fields: Seq<FieldInfo>, used: Set<Seq<char>>) -> Seq<
    &'a FieldInfo,
> {
    field_refs(fields).filter(
        |f: &FieldInfo|
            !used.contains(f.name@) && !f.has_default && !"Option"@.is_prefix_of(f.type_text@),
    )
}

/// The fields that a document does not set.
pub open spec fn unset<'a>(fields: Seq<FieldInfo>, used: Set<Seq<char>>) -> Seq<&'a FieldInfo> {
    field_refs(fields).filter(|f: &FieldInfo| !used.contains(f.name@))
}

/// Filtering twice is filtering by both.
proof fn lemma_filter_twice<A>(
    s: Seq<A>,
    p: spec_fn(A) -> bool,
    q: spec_fn(A) -> bool,
    both: spec_fn(A) -> bool,
)
    requires
        forall|a: A| #[trigger] both(a) == (p(a) && q(a)),
    ensures
        s.filter(p).filter(q) == s.filter(both),
    decreases s.len(),
{
    reveal(Seq::filter);
    if s.len() > 0 {
        let rest = s.drop_last();
        lemma_filter_twice(rest, p, q, both);
        assert(both(s.last()) == (p(s.last()) && q(s.last())));
        if p(s.last()) {
            let kept = rest.filter(p).push(s.last());
            assert(s.filter(p) == kept);
            assert(kept.drop_last() == rest.filter(p));
        }
    }
}

proof fn lemma_same_filter<A>(s: Seq<A>, p: spec_fn(A) -> bool, q: spec_fn(A) -> bool)
    requires
        forall|a: A| #[trigger] p(a) == q(a),
    ensures
        s.filter(p) == s.filter(q),
    decreases s.len(),
{
    reveal(Seq::filter);
    if s.len() > 0 {
        lemma_same_filter(s.drop_last(), p, q);
        assert(p(s.last()) == q(s.last()));
    }
}

/// The missing fields are those whose names are not used, in their order; and the required ones among
/// them those that are no options and have no default.
pub proof fn lemma_missing_and_required(
    fields: Seq<FieldInfo>,
    used: Seq<Seq<char>>,
    has_default: bool,
)
    ensures
        missing_from(fields, used) == unset(fields, used.to_set()),
        required_missing(missing_from(fields, used), has_default) == (if has_default {
            Seq::empty()
        } else {
            unset_required(fields, used.to_set())
        }),
        field_refs(fields).len() == fields.len(),
        forall|i: int| 0 <= i < fields.len() ==> *(#[trigger] field_refs(fields)[i]) == fields[i],
{
    let all = field_refs(fields);
    let set = used.to_set();
    let missing = |f: &FieldInfo| !used.contains(f.name@);
    let unset_one = |f: &FieldInfo| !set.contains(f.name@);
    let needed = |f: &FieldInfo| !f.optional();
    let both = |f: &FieldInfo|
        !set.contains(f.name@) && !f.has_default && !"Option"@.is_prefix_of(f.type_text@);
    assert forall|f: &FieldInfo| #[trigger] missing(f) == unset_one(f) by {
        assert(set.contains(f.name@) == used.contains(f.name@));
    }
    lemma_same_filter(all, missing, unset_one);
    assert forall|f: &FieldInfo| #[trigger] both(f) == (missing(f) && needed(f)) by {
        assert(set.contains(f.name@) == used.contains(f.name@));
    }
    lemma_filter_twice(all, missing, needed, both);
}

/// The title of an action that adds fields.
pub open spec fn title_of(head: Seq<char>, n: nat, noun: Seq<char>, place: Seq<char>) -> Seq<char> {
    head + text::decimal(n) + noun + (if n == 1 {
        Seq::empty()
    } else {
        seq!['s']
    }) + place
}

/// The lines that set fields to their default values, with commas between them.
pub open spec fn default_lines(fields: Seq<&FieldInfo>) -> Seq<char>
    decreases fields.len(),
{
    if fields.len() == 0 {
        Seq::empty()
    } else {
        let f = fields[0];
        "    "@ + f.name@ + ": "@ + default_value_of(f.type_text@) + (if fields.len() > 1 {
            seq![',']
        } else {
            Seq::empty()
        }) + seq!['\n'] + default_lines(fields.skip(1))
    }
}

/// The lines of the fields from index `k` on.
proof fn lemma_default_lines(fields: Seq<&FieldInfo>, k: nat)
    requires
        k <= fields.len(),
    ensures
        field_lines(fields, fields.len()) == field_lines(fields, k) + default_lines(
            fields.skip(k as int),
        ),
    decreases fields.len() - k,
{
    let rest = fields.skip(k as int);
    if k < fields.len() {
        lemma_default_lines(fields, k + 1);
        assert(rest.skip(1) == fields.skip(k as int + 1));
        assert(rest[0] == fields[k as int]);
        let f = fields[k as int];
        let line = "    "@ + f.name@ + ": "@ + default_value_of(f.type_text@) + (if k + 1
            < fields.len() {
            seq![',']
        } else {
            Seq::empty()
        }) + seq!['\n'];
        assert(field_lines(fields, k + 1) == field_lines(fields, k) + line);
        assert(default_lines(rest) == line + default_lines(rest.skip(1)));
    }
}

/// What an edit that inserts fields writes: what parts them from what stands before, and their lines.
pub proof fn lemma_inserted_text(end: Point, has_fields: bool, fields: Seq<&FieldInfo>)
    ensures
        insertion_at(end, has_fields, fields).new_text == (if has_fields {
            ",\n"@
        } else if end.row as u32 > 0 {
            "\n"@
        } else {
            Seq::empty()
        }) + default_lines(fields),
        insertion_at(end, has_fields, fields).range.start == insertion_at(
            end,
            has_fields,
            fields,
        ).range.end,
        insertion_at(end, has_fields, fields).range.start.line == end.row as u32,
        end.column > 0 ==> insertion_at(end, has_fields, fields).range.start.character == (
        end.column - 1) as usize as u32,
{
    lemma_default_lines(fields, 0);
    assert(fields.skip(0) == fields);
}

/// Each inserted field has its line, with its default value.
pub proof fn lemma_each_field_has_its_line(fields: Seq<&FieldInfo>, i: int)
    requires
        0 <= i < fields.len(),
    ensures
        occurs(
            default_lines(fields),
            "    "@ + fields[i].name@ + ": "@ + default_value_of(fields[i].type_text@) + (if i
                < fields.len() - 1 {
                seq![',', '\n']
            } else {
                seq!['\n']
            }),
        ),
    decreases fields.len(),
{
    let f = fields[0];
    let line = "    "@ + f.name@ + ": "@ + default_value_of(f.type_text@) + (if fields.len() > 1 {
        seq![',']
    } else {
        Seq::empty()
    }) + seq!['\n'];
    let all = default_lines(fields);
    let rest = default_lines(fields.skip(1));
    assert(all == line + rest);
    let own = "    "@ + fields[i].name@ + ": "@ + default_value_of(fields[i].type_text@) + (if i
        < fields.len() - 1 {
        seq![',', '\n']
    } else {
        seq!['\n']
    });
    if i == 0 {
        assert(own == line);
        let k: int = 0;
        assert(all.subrange(k, k + own.len()) == own);
    } else {
        lemma_each_field_has_its_line(fields.skip(1), i - 1);
        assert(fields.skip(1)[i - 1] == fields[i]);
        let k = choose|k: int|
            0 <= k && k + own.len() <= rest.len() && #[trigger] rest.subrange(k, k + own.len())
                == own;
        let m = line.len() + k;
        assert(all.subrange(m, m + own.len()) == rest.subrange(k, k + own.len()));
    }
}

/// A document with a struct to insert into gets one action for the fields that it has to set and does
/// not, where there are any, and one for all the fields that it does not set, where there are any. A
/// type with a default asks for no field. Without such a struct there is no action.
pub proof fn lemma_missing_fields_are_offered(
    root: Syntax,
    fields: Seq<FieldInfo>,
    used: Seq<Seq<char>>,
    has_default: bool,
    place: Seq<char>,
    uri: Seq<char>,
)
    ensures
        ({
            let actions = add_field_actions(Some(root), fields, used, has_default, place, uri);
            let required = unset_required(fields, used.to_set());
            let missing = unset(fields, used.to_set());
            let asks = !has_default && required.len() > 0;
            &&& add_field_actions(None, fields, used, has_default, place, uri).len() == 0
            &&& insertion_target(root) is None ==> actions.len() == 0
            &&& insertion_target(root) matches Some(target) ==> {
                let has_fields = ts_utils::named_fields_of(target).len() > 0;
                let n: int = if asks {
                    1
                } else {
                    0
                };
                &&& actions.len() == n + (if missing.len() > 0 {
                    1int
                } else {
                    0int
                })
                &&& asks ==> puts(
                    actions[0],
                    title_of("Add "@, required.len(), " required field"@, place),
                    CodeActionKind::QuickFix,
                    uri,
                    insertion_at(target.end_position, has_fields, required).range.start,
                    insertion_at(target.end_position, has_fields, required).new_text,
                )
                &&& missing.len() > 0 ==> puts(
                    actions[n],
                    title_of("Add all "@, missing.len(), " missing field"@, place),
                    CodeActionKind::QuickFix,
                    uri,
                    insertion_at(target.end_position, has_fields, missing).range.start,
                    insertion_at(target.end_position, has_fields, missing).new_text,
                )
            }
        }),
{
    lemma_missing_and_required(fields, used, has_default);
}

/// The fields of a struct are asked of a document of a struct type. Of a document of an enum type the
/// fields of the variant are asked that is given, where the enum has it.
pub proof fn lemma_whose_fields_are_missing(
    root: Option<Syntax>,
    fields: Seq<FieldInfo>,
    type_info: TypeInfo,
    variant: Option<Seq<char>>,
    used: Seq<Seq<char>>,
    uri: Seq<char>,
)
    ensures
        type_info.kind is Struct || variant is None ==> missing_field_actions_of(
            root,
            fields,
            type_info,
            variant,
            used,
            uri,
        ) == add_field_actions(root, fields, used, type_info.has_default, Seq::empty(), uri),
        type_info.kind matches TypeKind::Enum(variants) ==> (variant matches Some(name) ==> forall|
            i: int,
        |
            0 <= i < variants@.len() && variants@[i].name@ == name && (forall|j: int|
                0 <= j < i ==> (#[trigger] variants@[j]).name@ != name)
                ==> missing_field_actions_of(root, fields, type_info, variant, used, uri)
                == add_field_actions(
                root,
                (#[trigger] variants@[i]).fields@,
                used,
                type_info.has_default,
                " to "@ + name,
                uri,
            )),
{
    if let TypeKind::Enum(variants) = type_info.kind {
        if let Some(name) = variant {
            assert forall|i: int|
                0 <= i < variants@.len() && variants@[i].name@ == name && (forall|j: int|
                    0 <= j < i ==> (#[trigger] variants@[j]).name@ != name) implies variant_named(
                variants@,
                name,
                0,
            ) == Some(#[trigger] variants@[i]) by {
                lemma_first_variant(variants@, name, 0, i);
            }
        }
    }
}

proof fn lemma_first_variant(variants: Seq<EnumVariant>, name: Seq<char>, k: int, i: int)
    requires
        0 <= k <= i < variants.len(),
        variants[i].name@ == name,
        forall|j: int| k <= j < i ==> (#[trigger] variants[j]).name@ != name,
    ensures
        variant_named(variants, name, k) == Some(variants[i]),
    decreases i - k,
{
    if k < i {
        assert(variants[k].name@ != name);
        lemma_first_variant(variants, name, k + 1, i);
    }
}

// ---------------------------------------------------------------------------
// Fields that are missing in nested variants
// ---------------------------------------------------------------------------

/// Whether two locations are in the same variant of the same field.
pub open spec fn share_variant(a: LocationModel, b: LocationModel) -> bool {
    a.containing_field_name == b.containing_field_name && a.variant_name == b.variant_name
}

/// The names that the locations in the variant of a location set.
pub open spec fn names_set(locations: Seq<LocationModel>, place: LocationModel) -> Set<Seq<char>> {
    Set::new(
        |name: Seq<char>|
            exists|j: int|
                0 <= j < locations.len() && share_variant(#[trigger] locations[j], place)
                    && locations[j].field_at_position == Some(name),
    )
}

/// The names that are used in a variant are those that its locations set.
pub proof fn lemma_used_names(locations: Seq<LocationModel>, place: LocationModel, name: Seq<char>)
    ensures
        used_at(locations, place).contains(name) <==> names_set(locations, place).contains(name),
    decreases locations.len(),
{
    if locations.len() > 0 {
        let rest = locations.drop_last();
        let last = locations.last();
        lemma_used_names(rest, place, name);
        let before = used_at(rest, place);
        let all = used_at(locations, place);
        if before.contains(name) {
            let k = choose|k: int| 0 <= k < before.len() && before[k] == name;
            assert(all[k] == name);
            let j = choose|j: int|
                0 <= j < rest.len() && share_variant(#[trigger] rest[j], place)
                    && rest[j].field_at_position == Some(name);
            assert(share_variant(locations[j], place));
        } else {
            if share_variant(last, place) && last.field_at_position == Some(name) {
                assert(all.last() == name);
                assert(share_variant(locations[locations.len() - 1], place));
            } else {
                if all.contains(name) {
                    let k = choose|k: int| 0 <= k < all.len() && all[k] == name;
                    assert(before[k] == name);
                }
                if names_set(locations, place).contains(name) {
                    let j = choose|j: int|
                        0 <= j < locations.len() && share_variant(#[trigger] locations[j], place)
                            && locations[j].field_at_position == Some(name);
                    assert(rest[j] == locations[j]);
                    assert(share_variant(rest[j], place));
                }
            }
        }
    }
}

/// The fields that the variant of a location has to set and does not.
pub open spec fn lacking<'a>(
    locations: Seq<LocationModel>,
    place: LocationModel,
    variant: EnumVariant,
    has_default: bool,
) -> Seq<&'a FieldInfo> {
    if has_default {
        Seq::empty()
    } else {
        unset_required(variant.fields@, names_set(locations, place))
    }
}

/// The action that adds what the variant of a location lacks, for each location that is the first of
/// its variant.
pub open spec fn adding_to_variants(
    type_info: TypeInfo,
    types: Seq<TypeInfo>,
    aliases: Seq<TypeAlias>,
    locations: Seq<LocationModel>,
    uri: Seq<char>,
) -> spec_fn(int) -> Option<ActionModel> {
    |i: int|
        if forall|j: int| 0 <= j < i ==> !share_variant(#[trigger] locations[j], locations[i]) {
            match variant_definition(locations[i], type_info, types, aliases) {
                Some((variant, has_default)) => {
                    let fields = lacking(locations, locations[i], variant, has_default);
                    if fields.len() > 0 {
                        Some(
                            crate::lsp::single_edit(
                                title_of(
                                    "Add "@,
                                    fields.len(),
                                    " required field"@,
                                    " to "@ + locations[i].containing_field_name + "::"@
                                        + locations[i].variant_name,
                                ),
                                CodeActionKind::QuickFix,
                                uri,
                                insertion_at(
                                    locations[i].end_position,
                                    locations[i].has_fields,
                                    fields,
                                ),
                            ),
                        )
                    } else {
                        None
                    }
                },
                None => None,
            }
        } else {
            None
        }
}

proof fn lemma_variant_action_is(
    type_info: TypeInfo,
    types: Seq<TypeInfo>,
    aliases: Seq<TypeAlias>,
    locations: Seq<LocationModel>,
    uri: Seq<char>,
    i: int,
)
    requires
        0 <= i < locations.len(),
    ensures
        if_any(adding_to_variants(type_info, types, aliases, locations, uri)(i)) == (
        if first_of_variant(locations, i) {
            variant_action(
                locations,
                locations[i],
                variant_definition(locations[i], type_info, types, aliases),
                uri,
            )
        } else {
            Seq::empty()
        }),
{
    let place = locations[i];
    assert(first_of_variant(locations, i) == forall|j: int|
        0 <= j < i ==> !share_variant(#[trigger] locations[j], place)) by {
        if first_of_variant(locations, i) {
            assert forall|j: int| 0 <= j < i implies !share_variant(
                #[trigger] locations[j],
                place,
            ) by {
                assert(!same_variant(locations[j], locations[i]));
            }
        } else {
            let j = choose|j: int| 0 <= j < i && same_variant(#[trigger] locations[j], locations[i]);
            assert(share_variant(locations[j], place));
        }
    }
    if let Some((variant, has_default)) = variant_definition(place, type_info, types, aliases) {
        let used = used_at(locations, place);
        lemma_missing_and_required(variant.fields@, used, has_default);
        assert(used.to_set() =~= names_set(locations, place)) by {
            assert forall|name: Seq<char>| used.to_set().contains(name) == names_set(
                locations,
                place,
            ).contains(name) by {
                lemma_used_names(locations, place, name);
            }
        }
    }
}

/// The numbers below `n`.
pub open spec fn indices(n: nat) -> Seq<int> {
    Seq::new(n, |i: int| i)
}

proof fn lemma_variant_actions_image(
    type_info: TypeInfo,
    types: Seq<TypeInfo>,
    aliases: Seq<TypeAlias>,
    locations: Seq<LocationModel>,
    n: nat,
    uri: Seq<char>,
)
    requires
        n <= locations.len(),
    ensures
        is_image(
            variant_actions_for(type_info, types, aliases, locations, n, uri),
            indices(n),
            adding_to_variants(type_info, types, aliases, locations, uri),
        ),
    decreases n,
{
    let f = adding_to_variants(type_info, types, aliases, locations, uri);
    if n == 0 {
        lemma_image_of_nothing(f);
        assert(indices(0) == Seq::<int>::empty());
    } else {
        let m = (n - 1) as nat;
        let rest = variant_actions_for(type_info, types, aliases, locations, m, uri);
        lemma_variant_actions_image(type_info, types, aliases, locations, m, uri);
        lemma_image_step(rest, indices(m), f, n - 1);
        assert(indices(m).push(n - 1) == indices(n));
        lemma_variant_action_is(type_info, types, aliases, locations, uri, n - 1);
        assert(variant_actions_for(type_info, types, aliases, locations, n, uri) == rest + if_any(
            f(n - 1),
        ));
    }
}

/// The actions for nested variants: one for each variant of a field that the document has, whose
/// definition is known and which lacks a field, in the order in which the variants stand in the
/// document, and no other.
pub proof fn lemma_all_variants_are_served(
    type_info: TypeInfo,
    types: Seq<TypeInfo>,
    aliases: Seq<TypeAlias>,
    locations: Seq<LocationModel>,
    uri: Seq<char>,
)
    ensures
        is_image(
            variant_actions_for(type_info, types, aliases, locations, locations.len(), uri),
            indices(locations.len()),
            adding_to_variants(type_info, types, aliases, locations, uri),
        ),
{
    lemma_variant_actions_image(type_info, types, aliases, locations, locations.len(), uri);
}

/// Each variant of a field whose definition is known and which lacks a field gets an action. It is
/// titled by the field and the variant and puts the lines of what is lacking before the end of that
/// variant.
pub proof fn lemma_each_variant_gets_its_fields(
    type_info: TypeInfo,
    types: Seq<TypeInfo>,
    aliases: Seq<TypeAlias>,
    locations: Seq<LocationModel>,
    uri: Seq<char>,
    i: int,
    variant: EnumVariant,
    m: int,
) -> (action: ActionModel)
    requires
        0 <= i < locations.len(),
        forall|j: int|
            0 <= j < i ==> (#[trigger] locations[j]).containing_field_name
                != locations[i].containing_field_name || locations[j].variant_name
                != locations[i].variant_name,
        variant_definition(locations[i], type_info, types, aliases) == Some((variant, false)),
        0 <= m < variant.fields@.len(),
        !variant.fields@[m].has_default,
        !"Option"@.is_prefix_of(variant.fields@[m].type_text@),
        forall|j: int|
            0 <= j < locations.len() && share_variant(#[trigger] locations[j], locations[i])
                ==> locations[j].field_at_position != Some(variant.fields@[m].name@),
    ensures
        variant_actions_for(
            type_info,
            types,
            aliases,
            locations,
            locations.len(),
            uri,
        ).contains(action),
        ({
            let fields = unset_required(variant.fields@, names_set(locations, locations[i]));
            let edit = insertion_at(locations[i].end_position, locations[i].has_fields, fields);
            &&& fields.contains(&variant.fields@[m])
            &&& puts(
                action,
                title_of(
                    "Add "@,
                    fields.len(),
                    " required field"@,
                    " to "@ + locations[i].containing_field_name + "::"@
                        + locations[i].variant_name,
                ),
                CodeActionKind::QuickFix,
                uri,
                edit.range.start,
                edit.new_text,
            )
        }),
{
    let place = locations[i];
    let f = adding_to_variants(type_info, types, aliases, locations, uri);
    let set = names_set(locations, place);
    let fields = unset_required(variant.fields@, set);
    let all = field_refs(variant.fields@);
    assert(!set.contains(variant.fields@[m].name@)) by {
        if set.contains(variant.fields@[m].name@) {
            let j = choose|j: int|
                0 <= j < locations.len() && share_variant(#[trigger] locations[j], place)
                    && locations[j].field_at_position == Some(variant.fields@[m].name@);
            assert(false);
        }
    }
    crate::keyed::lemma_filter_keeps(
        all,
        |f: &FieldInfo|
            !set.contains(f.name@) && !f.has_default && !"Option"@.is_prefix_of(f.type_text@),
        m,
    );
    assert(all[m] == &variant.fields@[m]);
    assert(forall|j: int| 0 <= j < i ==> !share_variant(#[trigger] locations[j], place));
    assert(f(i) is Some);
    lemma_all_variants_are_served(type_info, types, aliases, locations, uri);
    assert(indices(locations.len())[i] == i);
    lemma_image_holds(
        variant_actions_for(type_info, types, aliases, locations, locations.len(), uri),
        indices(locations.len()),
        f,
        i,
    );
    f(i)->0
}

/// The actions of a document are those that make names explicit, those that add missing fields, and
/// those that add missing fields to nested variants: all of them, in this order, and no other.
pub proof fn lemma_all_actions_of_a_document(
    root: Option<Syntax>,
    content: Seq<char>,
    variant: Option<Seq<char>>,
    type_info: TypeInfo,
    types: Seq<TypeInfo>,
    aliases: Seq<TypeAlias>,
    uri: Seq<char>,
)
    ensures
        ({
            let all = document_actions(root, content, variant, type_info, types, aliases, uri);
            let names = explicit_actions(root, content, type_info, uri);
            let fields = missing_field_actions_of(
                root,
                match type_info.kind {
                    TypeKind::Struct(fields) => fields@,
                    TypeKind::Enum(_) => Seq::empty(),
                },
                type_info,
                variant,
                fields_of(root, content),
                uri,
            );
            let nested = nested_variant_actions(root, content, type_info, types, aliases, uri);
            &&& all.len() == names.len() + fields.len() + nested.len()
            &&& all.take(names.len() as int) == names
            &&& all.subrange(names.len() as int, (names.len() + fields.len()) as int) == fields
            &&& all.skip((names.len() + fields.len()) as int) == nested
        }),
{
}

// ---------------------------------------------------------------------------
// Where and what is inserted
// ---------------------------------------------------------------------------

/// Fields are inserted into the main value of a document where that is a struct. Where the document is
/// broken, they are inserted into the first struct at its top level.
pub proof fn lemma_where_fields_go(root: Syntax)
    ensures
        match ts_utils::main_value_of(root) {
            Some(main) => {
                &&& main.kind == "struct"@ ==> insertion_target(root) == Some(main)
                &&& main.kind != "struct"@ && main.kind != "ERROR"@ ==> insertion_target(root)
                    is None
                &&& main.kind == "ERROR"@ ==> insertion_target(root) == first_of_kind(
                    root,
                    "struct"@,
                )
            },
            None => insertion_target(root) == first_of_kind(root, "struct"@),
        },
{
    assert("ERROR"@ != "struct"@) by {
        reveal_strlit("ERROR");
        reveal_strlit("struct");
        assert("ERROR"@[0] == 'E' && "struct"@[0] == 's');
    }
    let structs = ts_utils::children_of_kind(root, "struct"@);
    let p = |c: Syntax| c.kind == "struct"@;
    if exists|i: int| #[trigger] is_first_of_kind(root, "struct"@, i) {
        let i = choose|i: int| #[trigger] is_first_of_kind(root, "struct"@, i);
        lemma_first_kept(root.children, p, i);
    } else {
        if structs.len() > 0 {
            crate::keyed::lemma_filter_in(root.children, p, 0);
            let k = choose|k: int| 0 <= k < root.children.len() && root.children[k] == structs[0];
            let i = lemma_first_index(root.children, p, k);
            assert(is_first_of_kind(root, "struct"@, i));
        }
    }
}

/// Whether a child of a node is the first of its kind.
pub open spec fn is_first_of_kind(node: Syntax, kind: Seq<char>, i: int) -> bool {
    &&& 0 <= i < node.children.len()
    &&& node.children[i].kind == kind
    &&& forall|j: int| 0 <= j < i ==> (#[trigger] node.children[j]).kind != kind
}

/// The first child of a kind.
pub open spec fn first_of_kind(node: Syntax, kind: Seq<char>) -> Option<Syntax> {
    if exists|i: int| #[trigger] is_first_of_kind(node, kind, i) {
        Some(node.children[choose|i: int| #[trigger] is_first_of_kind(node, kind, i)])
    } else {
        None
    }
}

proof fn lemma_first_index<A>(s: Seq<A>, p: spec_fn(A) -> bool, k: int) -> (i: int)
    requires
        0 <= k < s.len(),
        p(s[k]),
    ensures
        0 <= i <= k,
        p(s[i]),
        forall|j: int| 0 <= j < i ==> !p(#[trigger] s[j]),
    decreases k,
{
    if exists|j: int| 0 <= j < k && p(#[trigger] s[j]) {
        let j = choose|j: int| 0 <= j < k && p(#[trigger] s[j]);
        lemma_first_index(s, p, j)
    } else {
        k
    }
}

proof fn lemma_first_kept<A>(s: Seq<A>, p: spec_fn(A) -> bool, i: int)
    requires
        0 <= i < s.len(),
        p(s[i]),
        forall|j: int| 0 <= j < i ==> !p(#[trigger] s[j]),
    ensures
        s.filter(p).len() > 0,
        s.filter(p)[0] == s[i],
    decreases s.len(),
{
    reveal(Seq::filter);
    let rest = s.drop_last();
    if i < s.len() - 1 {
        assert(rest[i] == s[i]);
        assert forall|j: int| 0 <= j < i implies !p(#[trigger] rest[j]) by {
            assert(rest[j] == s[j]);
        }
        lemma_first_kept(rest, p, i);
    } else {
        if rest.filter(p).len() > 0 {
            crate::keyed::lemma_filter_in(rest, p, 0);
            let k = choose|k: int| 0 <= k < rest.len() && rest[k] == rest.filter(p)[0];
            assert(!p(s[k]));
        }
    }
}

/// The definition of the variant that a location is in: the type of the field that holds it is looked
/// up, and the first of its variants with the name is taken, with whether the type has a default.
pub proof fn lemma_definition_of_a_variant(
    place: LocationModel,
    type_info: TypeInfo,
    fields: Vec<FieldInfo>,
    types: Seq<TypeInfo>,
    aliases: Seq<TypeAlias>,
    i: int,
)
    requires
        type_info.kind == TypeKind::Struct(fields),
        0 <= i < fields@.len(),
        fields@[i].name@ == place.containing_field_name,
        forall|j: int| 0 <= j < i ==> (#[trigger] fields@[j]).name@ != fields@[i].name@,
    ensures
        match crate::rust_analyzer::lookup(types, aliases, fields@[i].type_text@) {
            Some(info) => match info.kind {
                TypeKind::Enum(variants) => {
                    &&& forall|k: int|
                        0 <= k < variants@.len() && variants@[k].name@ == place.variant_name && (
                        forall|j: int|
                            0 <= j < k ==> (#[trigger] variants@[j]).name@ != place.variant_name)
                            ==> variant_definition(place, type_info, types, aliases) == Some(
                            (#[trigger] variants@[k], info.has_default),
                        )
                    &&& (forall|k: int|
                        0 <= k < variants@.len() ==> (#[trigger] variants@[k]).name@
                            != place.variant_name) ==> variant_definition(
                        place,
                        type_info,
                        types,
                        aliases,
                    ) is None
                },
                TypeKind::Struct(_) => variant_definition(place, type_info, types, aliases) is None,
            },
            None => variant_definition(place, type_info, types, aliases) is None,
        },
{
    lemma_first_field(fields@, place.containing_field_name, 0, i);
    if let Some(info) = crate::rust_analyzer::lookup(types, aliases, fields@[i].type_text@) {
        if let TypeKind::Enum(variants) = info.kind {
            assert forall|k: int|
                0 <= k < variants@.len() && variants@[k].name@ == place.variant_name && (forall|
                    j: int,
                |
                    0 <= j < k ==> (#[trigger] variants@[j]).name@ != place.variant_name) implies
                variant_named(variants@, place.variant_name, 0) == Some(#[trigger] variants@[k]) by {
                lemma_first_variant(variants@, place.variant_name, 0, k);
            }
            if forall|k: int|
                0 <= k < variants@.len() ==> (#[trigger] variants@[k]).name@ != place.variant_name {
                crate::rust_analyzer::lemma_variant_named(variants@, place.variant_name, 0);
                if let Some(v) = variant_named(variants@, place.variant_name, 0) {
                    let k = choose|k: int| 0 <= k < variants@.len() && variants@[k] == v;
                    assert(variants@[k].name@ != place.variant_name);
                }
            }
        }
    }
}

proof fn lemma_first_field(fields: Seq<FieldInfo>, name: Seq<char>, k: int, i: int)
    requires
        0 <= k <= i < fields.len(),
        fields[i].name@ == name,
        forall|j: int| k <= j < i ==> (#[trigger] fields[j]).name@ != name,
    ensures
        crate::rust_analyzer::field_named(fields, name, k) == Some(fields[i]),
    decreases i - k,
{
    if k < i {
        assert(fields[k].name@ != name);
        lemma_first_field(fields, name, k + 1, i);
    }
}

/// The default value of a type, by its text without spaces: `None` for options, an empty list for
/// vectors and arrays, an empty map for maps, an empty text for texts, `false` for truth values and
/// zero for numbers.
pub proof fn lemma_default_values(t: Seq<char>)
    requires
        !t.contains(' '),
    ensures
        "Option"@.is_prefix_of(t) ==> default_value_of(t) == "None"@,
        "Vec"@.is_prefix_of(t) || "["@.is_prefix_of(t) ==> default_value_of(t) == "[]"@,
        "HashMap"@.is_prefix_of(t) || "BTreeMap"@.is_prefix_of(t) ==> default_value_of(t) == "{}"@,
        t == "String"@ || t == "&str"@ || t == "str"@ ==> default_value_of(t) == "\"\""@,
        t == "bool"@ ==> default_value_of(t) == "false"@,
        t == "usize"@ || t == "isize"@ ==> default_value_of(t) == "0"@,
        t.len() > 0 && (t[0] == 'i' || t[0] == 'u' || t[0] == 'f') && (forall|i: int|
            1 <= i < t.len() ==> '0' <= #[trigger] t[i] <= '9') ==> default_value_of(t) == "0"@,
{
    assert forall|k: int| 0 <= k < t.len() implies t[k] != ' ' by {
        assert(t.contains(t[k]));
    }
    text::lemma_nothing_removed(t);
    lemma_first_characters(t);
    if t.len() > 0 && (t[0] == 'i' || t[0] == 'u' || t[0] == 'f') && (forall|i: int|
        1 <= i < t.len() ==> '0' <= #[trigger] t[i] <= '9') {
        assert(crate::code_actions::looks_numeric(t)) by {
            assert forall|i: int| 0 <= i < t.len() implies text::numeric_char(#[trigger] t[i])
                || t[i] == 'i' || t[i] == 'u' || t[i] == 'f' by {
                if i >= 1 {
                    assert('0' <= t[i] <= '9');
                }
            }
        }
    }
}

/// The default value of a type with a name of its own, in capitals, is a value of it without fields.
pub proof fn lemma_default_of_a_named_type(t: Seq<char>)
    requires
        !t.contains(' '),
        t.len() > 0,
        'A' <= t[0] <= 'Z',
        !"Option"@.is_prefix_of(t) && !"Vec"@.is_prefix_of(t) && !"HashMap"@.is_prefix_of(t)
            && !"BTreeMap"@.is_prefix_of(t) && t != "String"@,
    ensures
        default_value_of(t) == t + "()"@,
{
    assert forall|k: int| 0 <= k < t.len() implies t[k] != ' ' by {
        assert(t.contains(t[k]));
    }
    text::lemma_nothing_removed(t);
    lemma_first_characters(t);
    assert(!crate::code_actions::looks_numeric(t)) by {
        if crate::code_actions::looks_numeric(t) {
            assert(text::numeric_char(t[0]) || t[0] == 'i' || t[0] == 'u' || t[0] == 'f');
        }
    }
}

proof fn lemma_first_characters(s: Seq<char>)
    ensures
        "Option"@.is_prefix_of(s) ==> s.len() > 0 && s[0] == 'O',
        "Vec"@.is_prefix_of(s) ==> s.len() > 0 && s[0] == 'V',
        "["@.is_prefix_of(s) ==> s.len() > 0 && s[0] == '[',
        "HashMap"@.is_prefix_of(s) ==> s.len() > 0 && s[0] == 'H',
        "BTreeMap"@.is_prefix_of(s) ==> s.len() > 0 && s[0] == 'B',
        s == "bool"@ ==> s.len() > 0 && s[0] == 'b',
        s == "String"@ ==> s.len() > 0 && s[0] == 'S',
        s == "&str"@ ==> s.len() > 0 && s[0] == '&',
        s == "str"@ ==> s.len() > 0 && s[0] == 's',
        s == "usize"@ ==> s.len() > 0 && s[0] == 'u',
        s == "isize"@ ==> s.len() > 0 && s[0] == 'i',
{
    reveal_strlit("Option");
    reveal_strlit("Vec");
    reveal_strlit("[");
    reveal_strlit("HashMap");
    reveal_strlit("BTreeMap");
    reveal_strlit("bool");
    reveal_strlit("String");
    reveal_strlit("&str");
    reveal_strlit("str");
    reveal_strlit("usize");
    reveal_strlit("isize");
    lemma_prefix_first("Option"@, s);
    lemma_prefix_first("Vec"@, s);
    lemma_prefix_first("["@, s);
    lemma_prefix_first("HashMap"@, s);
    lemma_prefix_first("BTreeMap"@, s);
}

proof fn lemma_prefix_first(p: Seq<char>, s: Seq<char>)
    requires
        p.len() > 0,
    ensures
        p.is_prefix_of(s) ==> s.len() > 0 && s[0] == p[0],
{
    if p.is_prefix_of(s) {
        assert(p[0] == s.subrange(0, p.len() as int)[0]);
    }
}

/// The name that stands for a type without arguments is the last segment of its path, without spaces.
pub proof fn lemma_name_of_a_path(t: Seq<char>)
    requires
        !t.contains('<'),
    ensures
        explicit_name(t) == text::without_spaces(text::last_segment(t)),
{
    let p = |c: char| c != ' ';
    let clean = text::without_spaces(t);
    let segment = text::last_segment(t);
    let name = text::without_spaces(segment);
    text::lemma_last_segment_is_suffix(t);
    text::lemma_find_char(clean, '<', 0);
    if let Some(k) = text::find_char_from(clean, '<', 0) {
        crate::keyed::lemma_filter_in(t, p, k);
        assert(t.contains(clean[k]));
    }
    assert(crate::code_actions::option_around(clean) is None);
    if name.len() > 7 && name.take(7) == "Option<"@ {
        reveal_strlit("Option<");
        assert("Option<"@[6] == '<');
        assert(name.take(7)[6] == name[6]);
        crate::keyed::lemma_filter_in(segment, p, 6);
        let k = choose|k: int| 0 <= k < segment.len() && segment[k] == name[6];
        assert(segment[k] == t[t.len() - segment.len() + k]);
        assert(t.contains('<'));
    }
}

/// Spaces in the text of a type do not change its default value.
pub proof fn lemma_default_without_spaces(t: Seq<char>)
    ensures
        default_value_of(t) == default_value_of(t.filter(|c: char| c != ' ')),
{
    text::lemma_without_spaces(t);
}

/// The actions for nested variants are those for all locations of variants in the document.
pub proof fn lemma_nested_actions(
    root: Option<Syntax>,
    content: Seq<char>,
    type_info: TypeInfo,
    types: Seq<TypeInfo>,
    aliases: Seq<TypeAlias>,
    uri: Seq<char>,
)
    ensures
        is_image(
            nested_variant_actions(root, content, type_info, types, aliases, uri),
            indices(crate::tree_sitter_parser::locations_of(root, content).len()),
            adding_to_variants(
                type_info,
                types,
                aliases,
                crate::tree_sitter_parser::locations_of(root, content),
                uri,
            ),
        ),
{
    lemma_all_variants_are_served(
        type_info,
        types,
        aliases,
        crate::tree_sitter_parser::locations_of(root, content),
        uri,
    );
}

/// Of a document of an enum type in whose text no variant of the enum is found, the fields are asked
/// that are given.
pub proof fn lemma_fields_without_a_variant(
    root: Option<Syntax>,
    fields: Seq<FieldInfo>,
    type_info: TypeInfo,
    variants: Vec<EnumVariant>,
    name: Seq<char>,
    used: Seq<Seq<char>>,
    uri: Seq<char>,
)
    requires
        type_info.kind == TypeKind::Enum(variants),
        forall|i: int| 0 <= i < variants@.len() ==> (#[trigger] variants@[i]).name@ != name,
    ensures
        missing_field_actions_of(root, fields, type_info, Some(name), used, uri)
            == add_field_actions(root, fields, used, type_info.has_default, Seq::empty(), uri),
{
    crate::rust_analyzer::lemma_variant_named(variants@, name, 0);
    if let Some(v) = variant_named(variants@, name, 0) {
        let k = choose|k: int| 0 <= k < variants@.len() && variants@[k] == v;
        assert(variants@[k].name@ != name);
    }
}

/// The actions of a document are found in the tree that is read from it, for the variant that stands
/// before a parenthesis or a brace in its text, and name the document by its URL.
pub proof fn lemma_actions_of_a_text(
    content: Seq<char>,
    type_info: TypeInfo,
    types: Seq<TypeInfo>,
    aliases: Seq<TypeAlias>,
    uri: Seq<char>,
)
    ensures
        crate::code_actions::actions_under(content, type_info, types, aliases, uri)
            == document_actions(
            crate::syntax::ron_syntax(content),
            content,
            crate::code_actions::regex_first_group("\\w+::(\\w+)\\s*[\\(\\{]"@, content),
            type_info,
            types,
            aliases,
            uri,
        ),
        crate::code_actions::parsed_url(uri) matches Some(url) ==> crate::code_actions::url_of(uri)
            == url,
        crate::code_actions::parsed_url(uri) is None ==> crate::code_actions::url_of(uri) == uri,
{
}

} // verus!
