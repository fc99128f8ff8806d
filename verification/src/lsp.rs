//! The plain values of the language server protocol that the library reads and gives.

use vstd::prelude::*;

verus! {

/// A place in a document: a line, and a character in it.
#[derive(Clone, Copy, Debug, PartialEq, Eq, Structural)]
pub struct Position {
    pub line: u32,
    pub character: u32,
}

impl Position {
    pub fn new(line: u32, character: u32) -> (r: Self)
        ensures
            r == (Position { line, character }),
    {
        Position { line, character }
    }
}

/// The part of a document between two places.
#[derive(Clone, Copy, Debug, PartialEq, Eq, Structural)]
pub struct Range {
    pub start: Position,
    pub end: Position,
}

impl Range {
    pub fn new(start: Position, end: Position) -> (r: Self)
        ensures
            r == (Range { start, end }),
    {
        Range { start, end }
    }
}

/// The characters of an optional string.
pub open spec fn opt_view(s: Option<String>) -> Option<Seq<char>> {
    match s {
        Some(s) => Some(s@),
        None => None,
    }
}

// ---------------------------------------------------------------------------
// Edits and code actions
// ---------------------------------------------------------------------------

/// A replacement of a part of a document.
#[derive(Clone, Debug)]
pub struct TextEdit {
    pub range: Range,
    pub new_text: String,
}

/// The model of a text edit.
pub ghost struct EditModel {
    pub range: Range,
    pub new_text: Seq<char>,
}

impl View for TextEdit {
    type V = EditModel;

    open spec fn view(&self) -> EditModel {
        EditModel { range: self.range, new_text: self.new_text@ }
    }
}

/// The edits of one document.
#[derive(Clone, Debug)]
pub struct DocumentEdits {
    pub uri: String,
    pub edits: Vec<TextEdit>,
}

/// The edits of a workspace.
#[derive(Clone, Debug)]
pub struct WorkspaceEdit {
    pub changes: Option<Vec<DocumentEdits>>,
}

/// What a code action is for.
#[derive(Clone, Copy, Debug, PartialEq, Eq, Structural)]
pub enum CodeActionKind {
    QuickFix,
    Refactor,
}

/// A change that the editor offers.
#[derive(Clone, Debug)]
pub struct CodeAction {
    pub title: String,
    pub kind: Option<CodeActionKind>,
    pub edit: Option<WorkspaceEdit>,
}

/// The model of the edits of one document.
#[verifier::ext_equal]
pub ghost struct DocumentModel {
    pub uri: Seq<char>,
    pub edits: Seq<EditModel>,
}

/// The model of a code action.
#[verifier::ext_equal]
pub ghost struct ActionModel {
    pub title: Seq<char>,
    pub kind: Option<CodeActionKind>,
    pub changes: Option<Seq<DocumentModel>>,
}

impl View for DocumentEdits {
    type V = DocumentModel;

    open spec fn view(&self) -> DocumentModel {
        DocumentModel { uri: self.uri@, edits: self.edits@.map_values(|e: TextEdit| e@) }
    }
}

impl View for CodeAction {
    type V = ActionModel;

    open spec fn view(&self) -> ActionModel {
        ActionModel {
            title: self.title@,
            kind: self.kind,
            changes: match self.edit {
                Some(edit) => match edit.changes {
                    Some(changes) => Some(changes@.map_values(|d: DocumentEdits| d@)),
                    None => None,
                },
                None => None,
            },
        }
    }
}

/// The models of the code actions of a list.
pub open spec fn action_views(actions: Seq<CodeAction>) -> Seq<ActionModel> {
    actions.map_values(|a: CodeAction| a@)
}

/// The code action that makes one edit in one document.
pub open spec fn single_edit(
    title: Seq<char>,
    kind: CodeActionKind,
    uri: Seq<char>,
    edit: EditModel,
) -> ActionModel {
    ActionModel {
        title,
        kind: Some(kind),
        changes: Some(seq![DocumentModel { uri, edits: seq![edit] }]),
    }
}

/// The code action that makes one edit in one document.
pub fn single_edit_action(
    title: String,
    kind: CodeActionKind,
    uri: &str,
    edit: TextEdit,
) -> (r: CodeAction)
    ensures
        r@ == single_edit(title@, kind, uri@, edit@),
{
    let ghost model = edit@;
    let mut edits: Vec<TextEdit> = Vec::new();
    edits.push(edit);
    let document = DocumentEdits { uri: uri.to_owned(), edits };
    assert(document@.edits == seq![model]);
    let mut changes: Vec<DocumentEdits> = Vec::new();
    changes.push(document);
    assert(changes@.map_values(|d: DocumentEdits| d@) == seq![document@]);
    CodeAction { title, kind: Some(kind), edit: Some(WorkspaceEdit { changes: Some(changes) }) }
}

// ---------------------------------------------------------------------------
// Completions
// ---------------------------------------------------------------------------

/// What a completion stands for.
#[derive(Clone, Copy, Debug, PartialEq, Eq, Structural)]
pub enum CompletionItemKind {
    Field,
    EnumMember,
    Struct,
    Enum,
    Value,
}

/// How the text of a completion is read.
#[derive(Clone, Copy, Debug, PartialEq, Eq, Structural)]
pub enum InsertTextFormat {
    PlainText,
    Snippet,
}

/// How a documentation text is read.
#[derive(Clone, Copy, Debug, PartialEq, Eq, Structural)]
pub enum MarkupKind {
    PlainText,
    Markdown,
}

/// A documentation text.
#[derive(Clone, Debug)]
pub struct MarkupContent {
    pub kind: MarkupKind,
    pub value: String,
}

/// The documentation of a completion.
#[derive(Clone, Debug)]
pub enum Documentation {
    MarkupContent(MarkupContent),
}

/// A completion that the editor offers.
#[derive(Clone, Debug)]
pub struct CompletionItem {
    pub label: String,
    pub kind: Option<CompletionItemKind>,
    pub detail: Option<String>,
    pub documentation: Option<Documentation>,
    pub insert_text: Option<String>,
    pub insert_text_format: Option<InsertTextFormat>,
}

/// The model of a documentation text.
pub ghost struct MarkupModel {
    pub kind: MarkupKind,
    pub value: Seq<char>,
}

/// The model of a completion.
pub ghost struct CompletionModel {
    pub label: Seq<char>,
    pub kind: Option<CompletionItemKind>,
    pub detail: Option<Seq<char>>,
    pub documentation: Option<MarkupModel>,
    pub insert_text: Option<Seq<char>>,
    pub insert_text_format: Option<InsertTextFormat>,
}

impl View for CompletionItem {
    type V = CompletionModel;

    open spec fn view(&self) -> CompletionModel {
        CompletionModel {
            label: self.label@,
            kind: self.kind,
            detail: opt_view(self.detail),
            documentation: match self.documentation {
                Some(Documentation::MarkupContent(content)) => Some(
                    MarkupModel { kind: content.kind, value: content.value@ },
                ),
                None => None,
            },
            insert_text: opt_view(self.insert_text),
            insert_text_format: self.insert_text_format,
        }
    }
}

/// The models of the completions of a list.
pub open spec fn completion_views(items: Seq<CompletionItem>) -> Seq<CompletionModel> {
    items.map_values(|c: CompletionItem| c@)
}

/// A documentation text in Markdown.
pub open spec fn markdown(value: Seq<char>) -> Option<MarkupModel> {
    Some(MarkupModel { kind: MarkupKind::Markdown, value })
}

// ---------------------------------------------------------------------------
// Laws
// ---------------------------------------------------------------------------

/// The model of a code action shows its title, its kind and all of its edits.
pub proof fn lemma_model_of_an_action(actions: Seq<CodeAction>, i: int, d: int, e: int)
    requires
        0 <= i < actions.len(),
    ensures
        action_views(actions).len() == actions.len(),
        action_views(actions)[i].title == actions[i].title@,
        action_views(actions)[i].kind == actions[i].kind,
        actions[i].edit matches Some(edit) ==> (edit.changes matches Some(changes) ==> {
            let shown = action_views(actions)[i].changes;
            &&& shown is Some && shown->0.len() == changes@.len()
            &&& 0 <= d < changes@.len() ==> {
                &&& shown->0[d].uri == changes@[d].uri@
                &&& shown->0[d].edits.len() == changes@[d].edits@.len()
                &&& 0 <= e < changes@[d].edits@.len() ==> {
                    &&& shown->0[d].edits[e].range == changes@[d].edits@[e].range
                    &&& shown->0[d].edits[e].new_text == changes@[d].edits@[e].new_text@
                }
            }
        }),
        actions[i].edit is None ==> action_views(actions)[i].changes is None,
        actions[i].edit matches Some(edit) ==> (edit.changes is None
            ==> action_views(actions)[i].changes is None),
{
    let action = actions[i];
    assert(action_views(actions)[i] == action@);
    if let Some(edit) = action.edit {
        if let Some(changes) = edit.changes {
            let shown = changes@.map_values(|d: DocumentEdits| d@);
            assert(action@.changes == Some(shown));
            if 0 <= d < changes@.len() {
                assert(shown[d] == changes@[d]@);
                let edits = changes@[d].edits@.map_values(|e: TextEdit| e@);
                assert(shown[d].edits == edits);
                if 0 <= e < changes@[d].edits@.len() {
                    assert(edits[e] == changes@[d].edits@[e]@);
                }
            }
        }
    }
}

/// The model of a completion shows all of it.
pub proof fn lemma_model_of_a_completion(items: Seq<CompletionItem>, i: int)
    requires
        0 <= i < items.len(),
    ensures
        completion_views(items).len() == items.len(),
        completion_views(items)[i].label == items[i].label@,
        completion_views(items)[i].kind == items[i].kind,
        completion_views(items)[i].insert_text_format == items[i].insert_text_format,
        items[i].detail matches Some(detail) ==> completion_views(items)[i].detail == Some(detail@),
        items[i].detail is None ==> completion_views(items)[i].detail is None,
        items[i].insert_text matches Some(text) ==> completion_views(items)[i].insert_text == Some(
            text@,
        ),
        items[i].insert_text is None ==> completion_views(items)[i].insert_text is None,
        items[i].documentation matches Some(Documentation::MarkupContent(shown)) ==> (
        completion_views(items)[i].documentation matches Some(model) && model.kind == shown.kind
            && model.value == shown.value@),
        items[i].documentation is None ==> completion_views(items)[i].documentation is None,
{
}

} // verus!
