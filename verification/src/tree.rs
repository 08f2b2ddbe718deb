//! The section tree: the data model a parsed status line is turned into,
//! together with its mathematical model and the view from one to the other.

use vstd::prelude::*;
use crate::codes::FormattingCode;

verus! {

/// Mathematical model of one content item of a section.
pub enum SpecContent {
    Section(SpecSection),
    Text(Seq<char>),
    Newline,
}

/// Mathematical model of a section: the directives in effect for its own
/// text, its content in document order, and its nesting level.
pub struct SpecSection {
    pub formatting: Seq<FormattingCode>,
    pub children: Seq<SpecContent>,
    pub depth: nat,
}

/// One content item of a section: a nested scope, a contiguous run of
/// literal characters, or an explicit line break.
#[derive(Debug, PartialEq)]
pub enum SectionContents {
    Section(Section),
    Text(String),
    Newline,
}

/// A node of the section tree.
///
/// `formatting` holds the style and colour directives in effect for this
/// node's own text, in the order they appeared; `children` holds the node's
/// content in document order. The nesting level is write-once at creation:
/// zero for a root, one more than the parent for every colour-opened scope.
#[derive(Debug, PartialEq)]
pub struct Section {
    pub formatting: Vec<FormattingCode>,
    pub children: Vec<SectionContents>,
    pub depth: usize,
}

/// Model of one content item.
pub open spec fn content_view(c: SectionContents) -> SpecContent
    decreases c,
{
    match c {
        SectionContents::Section(s) => SpecContent::Section(section_view(s)),
        SectionContents::Text(t) => SpecContent::Text(t@),
        SectionContents::Newline => SpecContent::Newline,
    }
}

/// Model of a sequence of content items, item by item.
pub open spec fn children_view(cs: Seq<SectionContents>) -> Seq<SpecContent>
    decreases cs,
{
    if cs.len() == 0 {
        Seq::empty()
    } else {
        children_view(cs.subrange(0, cs.len() - 1)).push(content_view(cs[cs.len() - 1]))
    }
}

/// Model of a section.
pub open spec fn section_view(s: Section) -> SpecSection
    decreases s,
{
    SpecSection {
        formatting: s.formatting@,
        children: children_view(s.children@),
        depth: s.depth as nat,
    }
}

impl View for Section {
    type V = SpecSection;

    open spec fn view(&self) -> SpecSection {
        section_view(*self)
    }
}

impl View for SectionContents {
    type V = SpecContent;

    open spec fn view(&self) -> SpecContent {
        content_view(*self)
    }
}

/// The model of a sequence of content items has one model item per content
/// item, in the same order.
pub proof fn lemma_children_view_index(cs: Seq<SectionContents>)
    ensures
        children_view(cs).len() == cs.len(),
        forall|i: int| 0 <= i < cs.len() ==> children_view(cs)[i] == content_view(cs[i]),
    decreases cs.len(),
{
    if cs.len() > 0 {
        let front = cs.subrange(0, cs.len() - 1);
        lemma_children_view_index(front);
        assert forall|i: int| 0 <= i < cs.len() implies children_view(cs)[i] == content_view(
            cs[i],
        ) by {
            if i < cs.len() - 1 {
                assert(children_view(cs)[i] == children_view(front)[i]);
                assert(front[i] == cs[i]);
            }
        }
    }
}

/// Appending a content item to a section's children appends its model to
/// the model of the children.
pub proof fn lemma_children_view_push(cs: Seq<SectionContents>, x: SectionContents)
    ensures
        children_view(cs.push(x)) == children_view(cs).push(content_view(x)),
{
    let all = cs.push(x);
    assert(all.subrange(0, all.len() - 1) =~= cs);
    assert(all[all.len() - 1] == x);
}

impl Section {
    /// Creates a fresh root section: no formatting, no content, depth zero.
    pub fn new() -> (s: Section)
        ensures
            s@ == (SpecSection { formatting: Seq::empty(), children: Seq::empty(), depth: 0 }),
    {
        Section { formatting: Vec::new(), children: Vec::new(), depth: 0 }
    }

    /// Creates an empty child scope one nesting level below this section.
    pub fn make_child(&self) -> (c: Section)
        requires
            self@.depth < usize::MAX,
        ensures
            c@ == (SpecSection {
                formatting: Seq::empty(),
                children: Seq::empty(),
                depth: self@.depth + 1,
            }),
    {
        Section { formatting: Vec::new(), children: Vec::new(), depth: self.depth + 1 }
    }
}

} // verus!
