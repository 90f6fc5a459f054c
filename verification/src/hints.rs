//! What language servers know of a place in a buffer.

use crate::diagnostics::TextRange;
use crate::edits::Anchor;
use crate::ids::{EntityId, LanguageServerId};
use crate::model::Language;
use std::sync::Arc;
use vstd::prelude::*;

verus! {

/// A stretch of a buffer.
#[derive(Debug, Clone, Copy, PartialEq, Eq, Structural)]
pub struct Location {
    pub buffer: EntityId,
    pub start: Anchor,
    pub end: Anchor,
}

/// A place that another place leads to.
#[derive(Debug, Clone, Copy, PartialEq, Eq, Structural)]
pub struct LocationLink {
    pub origin: Option<Location>,
    pub target: Location,
}

/// How a symbol is used at a place.
#[derive(Debug, Clone, Copy, PartialEq, Eq, Structural)]
pub enum DocumentHighlightKind {
    Text,
    Read,
    Write,
}

#[derive(Debug, Clone, Copy, PartialEq, Eq, Structural)]
pub struct DocumentHighlight {
    pub start: Anchor,
    pub end: Anchor,
    pub kind: DocumentHighlightKind,
}

#[derive(Debug, PartialEq, Eq)]
pub enum HoverBlockKind {
    PlainText,
    Markdown,
    Code { language: String },
}

#[derive(Debug, PartialEq, Eq)]
pub struct MarkupContent {
    pub kind: HoverBlockKind,
    pub value: String,
}

#[derive(Debug, PartialEq, Eq)]
pub enum InlayHintTooltip {
    Plain(String),
    MarkupContent(MarkupContent),
}

#[derive(Debug, PartialEq, Eq)]
pub enum InlayHintLabelPartTooltip {
    Plain(String),
    MarkupContent(MarkupContent),
}

/// A place in a document, as a language server names it.
#[derive(Debug, PartialEq, Eq)]
pub struct LspLocation {
    pub uri: String,
    pub range: TextRange,
}

#[derive(Debug, PartialEq, Eq)]
pub struct InlayHintLabelPart {
    pub value: String,
    pub tooltip: Option<InlayHintLabelPartTooltip>,
    pub location: Option<(LanguageServerId, LspLocation)>,
}

#[derive(Debug, PartialEq, Eq)]
pub enum InlayHintLabel {
    Plain(String),
    LabelParts(Vec<InlayHintLabelPart>),
}

#[derive(Debug, Clone, Copy, PartialEq, Eq, Structural)]
pub enum InlayHintKind {
    Type,
    Parameter,
}

/// Whether all is known of a hint. What a server needs to complete it is kept as JSON text.
#[derive(Debug, PartialEq, Eq)]
pub enum ResolveState {
    Resolved,
    CanResolve(LanguageServerId, Option<String>),
    Resolving,
}

/// A note that is shown between the characters of a buffer.
#[derive(Debug, PartialEq, Eq)]
pub struct InlayHint {
    pub position: Anchor,
    pub label: InlayHintLabel,
    pub kind: Option<InlayHintKind>,
    pub padding_left: bool,
    pub padding_right: bool,
    pub tooltip: Option<InlayHintTooltip>,
    pub resolve_state: ResolveState,
}

/// The texts of the first `n` parts, one after the other.
pub open spec fn joined_values(parts: Seq<InlayHintLabelPart>, n: int) -> Seq<char>
    decreases n,
{
    if n <= 0 {
        Seq::empty()
    } else {
        joined_values(parts, n - 1) + parts[n - 1].value@
    }
}

impl InlayHint {
    /// The text that is shown.
    pub fn text(&self) -> (r: String)
        ensures
            r@ == (match self.label {
                InlayHintLabel::Plain(s) => s@,
                InlayHintLabel::LabelParts(parts) => joined_values(
                    parts@,
                    parts@.len() as int,
                ),
            }),
    {
        match &self.label {
            InlayHintLabel::Plain(s) => s.clone(),
            InlayHintLabel::LabelParts(parts) => {
                let mut text = String::new();
                proof {
                    reveal_strlit("");
                    assert(text@ =~= Seq::<char>::empty());
                }
                for i in 0..parts.len()
                    invariant
                        text@ == joined_values(parts@, i as int),
                {
                    text.append(parts[i].value.as_str());
                }
                text
            },
        }
    }
}

#[derive(Debug, PartialEq, Eq)]
pub struct HoverBlock {
    pub text: String,
    pub kind: HoverBlockKind,
}

/// What is shown of a place that the pointer rests on.
#[derive(Debug)]
pub struct Hover {
    pub contents: Vec<HoverBlock>,
    pub range: Option<(Anchor, Anchor)>,
    pub language: Option<Arc<Language>>,
}

impl Hover {
    /// Tells whether there is nothing to show.
    pub fn is_empty(&self) -> (r: bool)
        ensures
            r == (forall|i: int|
                0 <= i < self.contents@.len() ==> (#[trigger] self.contents@[i]).text@.len() == 0),
    {
        for i in 0..self.contents.len()
            invariant
                forall|j: int| 0 <= j < i ==> (#[trigger] self.contents@[j]).text@.len() == 0,
        {
            if !crate::diagnostics::text_is_empty(&self.contents[i].text) {
                assert(self.contents@[i as int].text@.len() != 0);
                return false;
            }
        }
        true
    }
}

/// The text of a hint is made of the texts of all its parts, in their order: each stands behind those
/// before it.
pub proof fn every_part_is_shown(parts: Seq<InlayHintLabelPart>, n: int, i: int)
    requires
        0 <= i < n <= parts.len(),
    ensures
        ({
            let at = joined_values(parts, i).len() as int;
            let value = parts[i].value@;
            &&& at + value.len() <= joined_values(parts, n).len()
            &&& joined_values(parts, n).subrange(at, at + value.len()) == value
        }),
        joined_values(parts, 0).len() == 0,
        n == i + 1 ==> joined_values(parts, n).len() == joined_values(parts, i).len()
            + parts[i].value@.len(),
    decreases n,
{
    let at = joined_values(parts, i).len() as int;
    let value = parts[i].value@;
    if i < n - 1 {
        every_part_is_shown(parts, n - 1, i);
        let head = joined_values(parts, n - 1);
        assert(joined_values(parts, n).subrange(at, at + value.len()) =~= head.subrange(
            at,
            at + value.len(),
        ));
    } else {
        assert(joined_values(parts, n).subrange(at, at + value.len()) =~= value);
    }
}

} // verus!
