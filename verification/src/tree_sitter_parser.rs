//! What a RON document says about itself: the fields it sets, and what stands at a position.

use crate::code_actions::{find_insertion_target, insertion_target};
use crate::lsp::{opt_view, Position};
use crate::syntax::{node_views, ron_syntax, Point, RonParser, Syntax, SyntaxNode, SyntaxTree};
use crate::text;
use crate::ts_utils;
use vstd::prelude::*;

verus! {

// ---------------------------------------------------------------------------
// Fields
// ---------------------------------------------------------------------------

/// The names of the fields of a list, in order; fields without a readable name are left out.
pub open spec fn field_names(fields: Seq<Syntax>, content: Seq<char>) -> Seq<Seq<char>>
    decreases fields.len(),
{
    if fields.len() == 0 {
        Seq::empty()
    } else {
        let rest = field_names(fields.drop_last(), content);
        match ts_utils::field_name_of(fields.last(), content) {
            Some(name) => rest.push(name),
            None => rest,
        }
    }
}

/// The names of the fields that a document with a syntax tree sets at its top level.
pub open spec fn fields_of(root: Option<Syntax>, content: Seq<char>) -> Seq<Seq<char>> {
    match root {
        Some(root) => match insertion_target(root) {
            Some(target) => field_names(ts_utils::named_fields_of(target), content),
            None => Seq::empty(),
        },
        None => Seq::empty(),
    }
}

/// The names of the fields of a list.
pub fn names_of_fields(fields: &Vec<&SyntaxNode>, content: &str) -> (r: Vec<String>)
    ensures
        text::views(r@) == field_names(node_views(fields@), content@),
{
    let mut names: Vec<String> = Vec::new();
    let mut i: usize = 0;
    assert(text::views(names@) == Seq::<Seq<char>>::empty());
    while i < fields.len()
        invariant
            i <= fields@.len(),
            text::views(names@) == field_names(node_views(fields@).take(i as int), content@),
        decreases fields@.len() - i,
    {
        assert(node_views(fields@).take(i + 1).drop_last() == node_views(fields@).take(i as int));
        assert(node_views(fields@)[i as int] == fields@[i as int]@);
        let ghost before = names@;
        if let Some(name) = ts_utils::field_name(fields[i], content) {
            names.push(name.to_owned());
            assert(text::views(names@) == text::views(before).push(name@));
        }
        i = i + 1;
    }
    assert(node_views(fields@).take(i as int) == node_views(fields@));
    names
}

/// The names of the fields that a document with a syntax tree sets at its top level.
pub fn document_fields(tree: &SyntaxTree, content: &str) -> (r: Vec<String>)
    ensures
        text::views(r@) == fields_of(Some(tree@), content@),
{
    match find_insertion_target(tree) {
        Some(target) => {
            let fields = ts_utils::struct_named_fields(target);
            names_of_fields(&fields, content)
        },
        None => {
            let none: Vec<String> = Vec::new();
            assert(text::views(none@) == Seq::<Seq<char>>::empty());
            none
        },
    }
}

/// The names of the fields that a document sets at its top level.
pub fn extract_fields_from_ron(content: &str) -> (r: Vec<String>)
    ensures
        text::views(r@) == fields_of(ron_syntax(content@), content@),
{
    let mut parser = RonParser::new();
    match parser.parse(content) {
        Some(tree) => document_fields(&tree, content),
        None => {
            let none: Vec<String> = Vec::new();
            assert(text::views(none@) == Seq::<Seq<char>>::empty());
            none
        },
    }
}

// ---------------------------------------------------------------------------
// Positions
// ---------------------------------------------------------------------------

/// The last node of a kind on a path.
pub open spec fn innermost(path: Seq<Syntax>, kind: Seq<char>) -> Option<Syntax>
    decreases path.len(),
{
    if path.len() == 0 {
        None
    } else if path.last().kind == kind {
        Some(path.last())
    } else {
        innermost(path.drop_last(), kind)
    }
}

/// The last node of a kind on a path.
pub fn innermost_of_kind<'a>(path: &'a ts_utils::NodePath, kind: &str) -> (r: Option<&'a SyntaxNode>)
    ensures
        match r {
            Some(node) => innermost(path@, kind@) == Some(node@),
            None => innermost(path@, kind@) is None,
        },
{
    let mut n: usize = path.nodes.len();
    assert(path@.take(n as int) == path@);
    while n > 0
        invariant
            n <= path.nodes@.len(),
            innermost(path@, kind@) == innermost(path@.take(n as int), kind@),
        decreases n,
    {
        assert(path@.take(n as int).drop_last() == path@.take(n - 1));
        assert(path@[n - 1] == path.nodes@[n - 1]@);
        if ts_utils::is_kind(&path.nodes[n - 1], kind) {
            return Some(&path.nodes[n - 1]);
        }
        n = n - 1;
    }
    None
}

/// The name of the innermost struct or variant on a path.
pub open spec fn variant_at(path: Option<Seq<Syntax>>, content: Seq<char>) -> Option<Seq<char>> {
    match path {
        Some(path) => match innermost(path, "struct"@) {
            Some(node) => ts_utils::struct_name_of(node, content),
            None => None,
        },
        None => None,
    }
}

/// The name of the innermost field on a path.
pub open spec fn field_at(path: Option<Seq<Syntax>>, content: Seq<char>) -> Option<Seq<char>> {
    match path {
        Some(path) => match innermost(path, "field"@) {
            Some(node) => ts_utils::field_name_of(node, content),
            None => None,
        },
        None => None,
    }
}

/// The name of the innermost struct or variant on a path.
pub fn variant_on_path(path: &ts_utils::NodePath, content: &str) -> (r: Option<String>)
    ensures
        opt_view(r) == variant_at(Some(path@), content@),
{
    match innermost_of_kind(path, "struct") {
        Some(node) => match ts_utils::struct_name(node, content) {
            Some(name) => Some(name.to_owned()),
            None => None,
        },
        None => None,
    }
}

/// The name of the innermost field on a path.
pub fn field_on_path(path: &ts_utils::NodePath, content: &str) -> (r: Option<String>)
    ensures
        opt_view(r) == field_at(Some(path@), content@),
{
    match innermost_of_kind(path, "field") {
        Some(node) => match ts_utils::field_name(node, content) {
            Some(name) => Some(name.to_owned()),
            None => None,
        },
        None => None,
    }
}

/// The name of the innermost struct or variant around a position of a document with a syntax tree.
pub fn variant_around(tree: &SyntaxTree, content: &str, position: Position) -> (r: Option<String>)
    ensures
        opt_view(r) == variant_at(ts_utils::path_at(tree.source(), content@, position), content@),
{
    match ts_utils::node_at_position(tree, content, position) {
        Some(path) => variant_on_path(&path, content),
        None => None,
    }
}

/// The name of the innermost field around a position of a document with a syntax tree.
pub fn field_around(tree: &SyntaxTree, content: &str, position: Position) -> (r: Option<String>)
    ensures
        opt_view(r) == field_at(ts_utils::path_at(tree.source(), content@, position), content@),
{
    match ts_utils::node_at_position(tree, content, position) {
        Some(path) => field_on_path(&path, content),
        None => None,
    }
}

/// The name of the variant whose parentheses a position stands in.
pub fn find_current_variant_context(content: &str, position: Position) -> (r: Option<String>)
    ensures
        opt_view(r) == variant_at(ts_utils::document_path(content@, position), content@),
{
    let mut parser = RonParser::new();
    match parser.parse(content) {
        Some(tree) => variant_around(&tree, content, position),
        None => None,
    }
}

/// The name of the field that a position stands in.
pub fn get_field_at_position(content: &str, position: Position) -> (r: Option<String>)
    ensures
        opt_view(r) == field_at(ts_utils::document_path(content@, position), content@),
{
    let mut parser = RonParser::new();
    match parser.parse(content) {
        Some(tree) => field_around(&tree, content, position),
        None => None,
    }
}

// ---------------------------------------------------------------------------
// Variants in fields
// ---------------------------------------------------------------------------

/// A field of a variant that is the value of another field.
#[derive(Debug, Clone)]
pub struct VariantFieldLocation {
    /// The row that the field stands on; the row of the variant where it sets no field.
    pub line_idx: usize,
    pub variant_name: String,
    /// The field whose value the variant is.
    pub containing_field_name: String,
    /// The field of the variant; `None` where it sets no field.
    pub field_at_position: Option<String>,
    /// The end of the variant, behind its closing parenthesis.
    pub end_position: Point,
    /// Whether the variant sets fields.
    pub has_fields: bool,
}

/// The model of a field of a variant.
pub ghost struct LocationModel {
    pub line_idx: usize,
    pub variant_name: Seq<char>,
    pub containing_field_name: Seq<char>,
    pub field_at_position: Option<Seq<char>>,
    pub end_position: Point,
    pub has_fields: bool,
}

impl View for VariantFieldLocation {
    type V = LocationModel;

    open spec fn view(&self) -> LocationModel {
        LocationModel {
            line_idx: self.line_idx,
            variant_name: self.variant_name@,
            containing_field_name: self.containing_field_name@,
            field_at_position: opt_view(self.field_at_position),
            end_position: self.end_position,
            has_fields: self.has_fields,
        }
    }
}

/// The models of the locations of a list.
pub open spec fn location_views(locations: Seq<VariantFieldLocation>) -> Seq<LocationModel> {
    locations.map_values(|l: VariantFieldLocation| l@)
}

/// The locations of the first `n` fields of a variant.
pub open spec fn locations_in_variant(
    value: Syntax,
    n: nat,
    variant: Seq<char>,
    containing: Seq<char>,
    content: Seq<char>,
) -> Seq<LocationModel>
    decreases n,
{
    let fields = ts_utils::named_fields_of(value);
    if n == 0 || n > fields.len() {
        Seq::empty()
    } else {
        locations_in_variant(value, (n - 1) as nat, variant, containing, content).push(
            LocationModel {
                line_idx: fields[n - 1].start_position.row,
                variant_name: variant,
                containing_field_name: containing,
                field_at_position: ts_utils::field_name_of(fields[n - 1], content),
                end_position: value.end_position,
                has_fields: true,
            },
        )
    }
}

/// The locations in the value of one field, where the value is a named struct.
pub open spec fn own_locations(node: Syntax, content: Seq<char>) -> Seq<LocationModel> {
    match (ts_utils::field_name_of(node, content), ts_utils::field_value_of(node)) {
        (Some(containing), Some(value)) => match ts_utils::struct_name_of(value, content) {
            Some(variant) => {
                let fields = ts_utils::named_fields_of(value);
                if fields.len() > 0 {
                    locations_in_variant(value, fields.len(), variant, containing, content)
                } else {
                    seq![
                        LocationModel {
                            line_idx: value.start_position.row,
                            variant_name: variant,
                            containing_field_name: containing,
                            field_at_position: None,
                            end_position: value.end_position,
                            has_fields: false,
                        },
                    ]
                }
            },
            None => Seq::empty(),
        },
        _ => Seq::empty(),
    }
}

/// The locations at and below a node, in document order.
pub open spec fn locations_within(node: Syntax, content: Seq<char>) -> Seq<LocationModel>
    decreases node, 1int, 0nat,
{
    own_locations(node, content) + locations_below(node, node.children.len(), content)
}

/// The same for the first `n` children of a node.
pub open spec fn locations_below(node: Syntax, n: nat, content: Seq<char>) -> Seq<LocationModel>
    decreases node, 0int, n,
{
    if n == 0 || n > node.children.len() {
        Seq::empty()
    } else {
        locations_below(node, (n - 1) as nat, content) + locations_within(
            node.children[n - 1],
            content,
        )
    }
}

/// The locations in a document with a syntax tree.
pub open spec fn locations_of(root: Option<Syntax>, content: Seq<char>) -> Seq<LocationModel> {
    match root {
        Some(root) => locations_within(root, content),
        None => Seq::empty(),
    }
}

fn read_own_locations(node: &SyntaxNode, content: &str) -> (r: Vec<VariantFieldLocation>)
    ensures
        location_views(r@) == own_locations(node@, content@),
{
    let mut found: Vec<VariantFieldLocation> = Vec::new();
    assert(location_views(found@) == Seq::<LocationModel>::empty());
    let containing = match ts_utils::field_name(node, content) {
        Some(name) => name,
        None => {
            return found;
        },
    };
    let value = match ts_utils::field_value(node) {
        Some(value) => value,
        None => {
            return found;
        },
    };
    let variant = match ts_utils::struct_name(value, content) {
        Some(name) => name,
        None => {
            return found;
        },
    };
    let fields = ts_utils::struct_named_fields(value);
    assert(node_views(fields@).len() == fields@.len());
    if fields.len() == 0 {
        let location = VariantFieldLocation {
            line_idx: value.start_position.row,
            variant_name: variant.to_owned(),
            containing_field_name: containing.to_owned(),
            field_at_position: None,
            end_position: value.end_position,
            has_fields: false,
        };
        found.push(location);
        assert(location_views(found@) == seq![location@]);
        return found;
    }
    let mut i: usize = 0;
    while i < fields.len()
        invariant
            i <= fields@.len(),
            node_views(fields@) == ts_utils::named_fields_of(value@),
            node_views(fields@).len() == fields@.len(),
            location_views(found@) == locations_in_variant(
                value@,
                i as nat,
                variant@,
                containing@,
                content@,
            ),
        decreases fields@.len() - i,
    {
        assert(node_views(fields@)[i as int] == fields@[i as int]@);
        let ghost before = found@;
        let location = VariantFieldLocation {
            line_idx: fields[i].start_position.row,
            variant_name: variant.to_owned(),
            containing_field_name: containing.to_owned(),
            field_at_position: match ts_utils::field_name(fields[i], content) {
                Some(name) => Some(name.to_owned()),
                None => None,
            },
            end_position: value.end_position,
            has_fields: true,
        };
        found.push(location);
        assert(location_views(found@) == location_views(before).push(location@));
        i = i + 1;
    }
    found
}

fn collect_locations(node: &SyntaxNode, content: &str, found: &mut Vec<VariantFieldLocation>)
    ensures
        location_views(final(found)@) == location_views(old(found)@) + locations_within(
            node@,
            content@,
        ),
    decreases node@,
{
    let ghost before = found@;
    let mut own = read_own_locations(node, content);
    let ghost own_views = location_views(own@);
    let ghost own_seq = own@;
    found.append(&mut own);
    assert(location_views(found@) == location_views(before) + own_views) by {
        assert(found@ == before + own_seq);
    }
    let mut i: usize = 0;
    while i < node.children.len()
        invariant
            i <= node.children@.len(),
            location_views(found@) == location_views(before) + own_views + locations_below(
                node@,
                i as nat,
                content@,
            ),
        decreases node.children@.len() - i,
    {
        let child = &node.children[i];
        assert(node@.children[i as int] == child@);
        collect_locations(child, content, found);
        i = i + 1;
    }
}

/// The fields of all variants that are values of fields, in a document with a syntax tree.
pub fn variant_field_locations(tree: &SyntaxTree, content: &str) -> (r: Vec<VariantFieldLocation>)
    ensures
        location_views(r@) == locations_of(Some(tree@), content@),
{
    let mut found: Vec<VariantFieldLocation> = Vec::new();
    collect_locations(tree.root_node(), content, &mut found);
    assert(location_views(found@) == locations_within(tree@, content@));
    found
}

/// The fields of all variants that are values of fields.
pub fn find_all_variant_field_locations(content: &str) -> (r: Vec<VariantFieldLocation>)
    ensures
        location_views(r@) == locations_of(ron_syntax(content@), content@),
{
    let mut parser = RonParser::new();
    match parser.parse(content) {
        Some(tree) => variant_field_locations(&tree, content),
        None => {
            let none: Vec<VariantFieldLocation> = Vec::new();
            assert(location_views(none@) == Seq::<LocationModel>::empty());
            none
        },
    }
}

} // verus!
