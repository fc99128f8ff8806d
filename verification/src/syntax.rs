//! Syntax trees of RON documents, and the tree-sitter parser that they come from.

use vstd::prelude::*;

verus! {

/// A place in a document: a row, and a byte column in it.
#[derive(Clone, Copy, Debug, PartialEq, Eq, Structural)]
pub struct Point {
    pub row: usize,
    pub column: usize,
}

/// A node of a syntax tree.
#[derive(Debug)]
pub struct SyntaxNode {
    /// The grammar's name for what the node is.
    pub kind: String,
    /// Whether the node stands for a rule of the grammar, not for a literal token.
    pub named: bool,
    pub start_byte: usize,
    pub end_byte: usize,
    pub start_position: Point,
    pub end_position: Point,
    pub children: Vec<SyntaxNode>,
}

/// The mathematical model of a node.
#[verifier::ext_equal]
pub ghost struct Syntax {
    pub kind: Seq<char>,
    pub named: bool,
    pub start_byte: usize,
    pub end_byte: usize,
    pub start_position: Point,
    pub end_position: Point,
    pub children: Seq<Syntax>,
}

impl SyntaxNode {
    /// The node with each list and string in it taken by its view.
    pub open spec fn model(self) -> Syntax
        decreases self,
    {
        Syntax {
            kind: self.kind@,
            named: self.named,
            start_byte: self.start_byte,
            end_byte: self.end_byte,
            start_position: self.start_position,
            end_position: self.end_position,
            children: Seq::new(
                self.children@.len(),
                |i: int|
                    if 0 <= i < self.children@.len() {
                        self.children@[i].model()
                    } else {
                        arbitrary()
                    },
            ),
        }
    }
}

impl View for SyntaxNode {
    type V = Syntax;

    open spec fn view(&self) -> Syntax {
        self.model()
    }
}

/// The models of the nodes of a list.
pub open spec fn node_views(nodes: Seq<&SyntaxNode>) -> Seq<Syntax> {
    nodes.map_values(|n: &SyntaxNode| n@)
}

// ---------------------------------------------------------------------------
// tree-sitter
// ---------------------------------------------------------------------------

/// A tree-sitter parser.
#[verifier::external_type_specification]
#[verifier::external_body]
pub struct ExParser(tree_sitter::Parser);

/// A tree that tree-sitter has read.
#[verifier::external_type_specification]
#[verifier::external_body]
pub struct ExTree(tree_sitter::Tree);

/// A node of a tree that tree-sitter has read.
#[verifier::external_type_specification]
#[verifier::external_body]
pub struct ExNode<'tree>(tree_sitter::Node<'tree>);

/// Whether a tree-sitter parser is set to the RON grammar, with nothing else changed on it.
pub uninterp spec fn reads_ron(parser: tree_sitter::Parser) -> bool;

/// The syntax tree that tree-sitter's RON grammar gives to a document.
pub uninterp spec fn ron_syntax(content: Seq<char>) -> Option<Syntax>;

/// What a tree-sitter tree holds.
pub uninterp spec fn tree_syntax(tree: tree_sitter::Tree) -> Syntax;

/// The document that a tree-sitter tree was read from.
pub uninterp spec fn tree_source(tree: tree_sitter::Tree) -> Seq<char>;

/// What a tree-sitter node holds, itself and below it.
pub uninterp spec fn node_syntax(node: tree_sitter::Node) -> Syntax;

/// What a tree-sitter node and its ancestors hold, from the root down to the node.
pub uninterp spec fn node_path(node: tree_sitter::Node) -> Seq<Syntax>;

/// What the smallest node of a document that spans a byte range, and the ancestors of the node,
/// hold, from the root down to the node; `None` where there is no such node.
pub uninterp spec fn spanning_path(content: Seq<char>, start: usize, end: usize) -> Option<
    Seq<Syntax>,
>;

/// `tree_sitter::Parser::new` with `set_language` on the language of `ron_lsp_tree_sitter`: the
/// parser reads RON. Setting the language fails only where the grammar was generated for another
/// version of tree-sitter, which the versions of the two crates rule out.
#[verifier::external_body]
fn new_ron_parser() -> (r: tree_sitter::Parser)
    ensures
        reads_ron(r),
{
    let mut parser = tree_sitter::Parser::new();
    parser.set_language(&ron_lsp_tree_sitter::language()).expect("Error loading RON language");
    parser
}

/// `tree_sitter::Parser::parse` without an old tree: what it gives depends on the grammar and the
/// text alone, and the parser can be used again.
#[verifier::external_body]
fn parse_text(parser: &mut tree_sitter::Parser, content: &str) -> (r: Option<tree_sitter::Tree>)
    requires
        reads_ron(*old(parser)),
    ensures
        reads_ron(*final(parser)),
        match r {
            Some(tree) => ron_syntax(content@) == Some(tree_syntax(tree)) && tree_source(tree)
                == content@,
            None => ron_syntax(content@) is None,
        },
{
    parser.parse(content, None)
}

/// `tree_sitter::Tree::root_node`: the node that holds what the tree holds.
#[verifier::external_body]
fn root_of(tree: &tree_sitter::Tree) -> (r: tree_sitter::Node<'_>)
    ensures
        node_syntax(r) == tree_syntax(*tree),
{
    tree.root_node()
}

/// `tree_sitter::Node::kind`: the name of the node's type.
#[verifier::external_body]
fn kind_of(node: &tree_sitter::Node) -> (r: String)
    ensures
        r@ == node_syntax(*node).kind,
{
    node.kind().to_string()
}

/// `tree_sitter::Node::is_named`: whether the node stands for a named rule.
#[verifier::external_body]
fn is_named(node: &tree_sitter::Node) -> (r: bool)
    ensures
        r == node_syntax(*node).named,
{
    node.is_named()
}

/// `tree_sitter::Node::start_byte`: the byte offset at which the node starts.
#[verifier::external_body]
fn start_byte_of(node: &tree_sitter::Node) -> (r: usize)
    ensures
        r == node_syntax(*node).start_byte,
{
    node.start_byte()
}

/// `tree_sitter::Node::end_byte`: the byte offset at which the node ends.
#[verifier::external_body]
fn end_byte_of(node: &tree_sitter::Node) -> (r: usize)
    ensures
        r == node_syntax(*node).end_byte,
{
    node.end_byte()
}

/// `tree_sitter::Node::start_position`: the row and the column at which the node starts.
#[verifier::external_body]
fn start_of(node: &tree_sitter::Node) -> (r: Point)
    ensures
        r == node_syntax(*node).start_position,
{
    let point = node.start_position();
    Point { row: point.row, column: point.column }
}

/// `tree_sitter::Node::end_position`: the row and the column at which the node ends.
#[verifier::external_body]
fn end_of(node: &tree_sitter::Node) -> (r: Point)
    ensures
        r == node_syntax(*node).end_position,
{
    let point = node.end_position();
    Point { row: point.row, column: point.column }
}

/// `tree_sitter::Node::child_count`: how many children the node has, a 32-bit number.
#[verifier::external_body]
fn child_count_of(node: &tree_sitter::Node) -> (r: usize)
    ensures
        r == node_syntax(*node).children.len(),
        r <= u32::MAX,
{
    node.child_count()
}

/// `tree_sitter::Node::child`: the child at an index, or `None` past the last one.
#[verifier::external_body]
fn child_of<'tree>(node: &tree_sitter::Node<'tree>, i: usize) -> (r: Option<
    tree_sitter::Node<'tree>,
>)
    requires
        i <= u32::MAX,
    ensures
        match r {
            Some(child) => i < node_syntax(*node).children.len() && node_syntax(child)
                == node_syntax(*node).children[i as int],
            None => i >= node_syntax(*node).children.len(),
        },
{
    node.child(i)
}

/// `tree_sitter::Node::descendant_for_byte_range` on the root of a tree: which node it gives depends
/// on the document that the tree was read from and on the range alone.
#[verifier::external_body]
fn spanning_node(tree: &tree_sitter::Tree, start: usize, end: usize) -> (r: Option<
    tree_sitter::Node<'_>,
>)
    ensures
        match r {
            Some(node) => spanning_path(tree_source(*tree), start, end) == Some(node_path(node))
                && node_path(node).len() > 0 && node_path(node).last() == node_syntax(node),
            None => spanning_path(tree_source(*tree), start, end) is None,
        },
{
    tree.root_node().descendant_for_byte_range(start, end)
}

/// `tree_sitter::Node::parent`: the node above, or `None` for the root.
#[verifier::external_body]
fn parent_of<'tree>(node: &tree_sitter::Node<'tree>) -> (r: Option<tree_sitter::Node<'tree>>)
    ensures
        match r {
            Some(parent) => node_path(*node) == node_path(parent).push(node_syntax(*node))
                && node_path(parent).len() > 0 && node_path(parent).last() == node_syntax(parent),
            None => node_path(*node) == seq![node_syntax(*node)],
        },
{
    node.parent()
}

/// The node that holds what a tree-sitter node holds.
fn read_node(node: &tree_sitter::Node) -> (r: SyntaxNode)
    ensures
        r@ == node_syntax(*node),
    decreases node_syntax(*node),
{
    let count: usize = child_count_of(node);
    let mut children: Vec<SyntaxNode> = Vec::new();
    let mut i: usize = 0;
    while i < count
        invariant
            i <= count == node_syntax(*node).children.len(),
            count <= u32::MAX,
            children@.len() == i,
            forall|k: int|
                0 <= k < i ==> (#[trigger] children@[k])@ == node_syntax(*node).children[k],
        decreases count - i,
    {
        match child_of(node, i) {
            Some(child) => {
                children.push(read_node(&child));
            },
            None => {},
        }
        i = i + 1;
    }
    let r = SyntaxNode {
        kind: kind_of(node),
        named: is_named(node),
        start_byte: start_byte_of(node),
        end_byte: end_byte_of(node),
        start_position: start_of(node),
        end_position: end_of(node),
        children,
    };
    assert(r@.children == node_syntax(*node).children) by {
        assert forall|k: int| 0 <= k < r.children@.len() implies #[trigger] r@.children[k]
            == node_syntax(*node).children[k] by {
            assert(r.children@[k]@ == node_syntax(*node).children[k]);
        }
    }
    r
}

/// The models of the nodes of a list.
pub open spec fn path_views(nodes: Seq<SyntaxNode>) -> Seq<Syntax> {
    nodes.map_values(|n: SyntaxNode| n@)
}

/// The nodes that hold what a tree-sitter node and its ancestors hold.
fn read_path(node: &tree_sitter::Node) -> (r: Vec<SyntaxNode>)
    ensures
        path_views(r@) == node_path(*node),
    decreases node_path(*node).len(),
{
    let mut path: Vec<SyntaxNode> = match parent_of(node) {
        Some(parent) => {
            assert(node_path(parent).len() < node_path(*node).len());
            read_path(&parent)
        },
        None => Vec::new(),
    };
    let ghost above = path@;
    let own = read_node(node);
    let ghost model = own@;
    path.push(own);
    assert(path_views(path@) == path_views(above).push(model));
    path
}

/// The syntax tree of a whole document.
#[derive(Debug)]
pub struct SyntaxTree {
    root: SyntaxNode,
    tree: tree_sitter::Tree,
}

impl View for SyntaxTree {
    type V = Syntax;

    closed spec fn view(&self) -> Syntax {
        self.root@
    }
}

impl SyntaxTree {
    /// The document that the tree was read from.
    pub closed spec fn source(self) -> Seq<char> {
        tree_source(self.tree)
    }

    /// The node that spans the whole document.
    pub fn root_node(&self) -> (r: &SyntaxNode)
        ensures
            r@ == self@,
    {
        &self.root
    }

    /// The smallest node that spans a byte range, below its ancestors.
    pub fn path_to_range(&self, start: usize, end: usize) -> (r: Option<Vec<SyntaxNode>>)
        ensures
            match r {
                Some(nodes) => spanning_path(self.source(), start, end) == Some(path_views(nodes@))
                    && nodes@.len() > 0,
                None => spanning_path(self.source(), start, end) is None,
            },
    {
        match spanning_node(&self.tree, start, end) {
            Some(node) => {
                let nodes = read_path(&node);
                assert(path_views(nodes@).len() == nodes@.len());
                Some(nodes)
            },
            None => None,
        }
    }
}

/// A parser of RON documents.
pub struct RonParser {
    parser: tree_sitter::Parser,
}

impl RonParser {
    /// Whether the parser is set to the RON grammar.
    pub closed spec fn wf(self) -> bool {
        reads_ron(self.parser)
    }

    /// A parser that is set to the RON grammar.
    pub fn new() -> (r: Self)
        ensures
            r.wf(),
    {
        RonParser { parser: new_ron_parser() }
    }

    /// The syntax tree of a document.
    pub fn parse(&mut self, content: &str) -> (r: Option<SyntaxTree>)
        requires
            old(self).wf(),
        ensures
            final(self).wf(),
            match r {
                Some(tree) => ron_syntax(content@) == Some(tree@) && tree.source() == content@,
                None => ron_syntax(content@) is None,
            },
    {
        match parse_text(&mut self.parser, content) {
            Some(tree) => {
                let root = {
                    let root = root_of(&tree);
                    read_node(&root)
                };
                Some(SyntaxTree { root, tree })
            },
            None => None,
        }
    }
}

impl Default for RonParser {
    fn default() -> (r: Self)
        ensures
            r.wf(),
    {
        RonParser::new()
    }
}

} // verus!
