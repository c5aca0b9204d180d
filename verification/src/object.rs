//! A parsed document and the objects it is made of.

use crate::content::{Content, ContentView};
use crate::headline::{HeadlineGroup, HeadlineGroupView};
use crate::iter::{all_headlines_of, all_objects_of, AllObjects, Headlines};
use crate::text::join_lines;
use vstd::prelude::*;

verus! {

/// An object as plain data.
pub enum ObjectView {
    Headline(HeadlineGroupView),
    Content(ContentView),
}

/// One thing found in a document: a section or a content block.
#[derive(Debug)]
pub enum Object<'t> {
    Headline(&'t HeadlineGroup),
    Content(&'t Content),
}

impl<'t> View for Object<'t> {
    type V = ObjectView;

    open spec fn view(&self) -> ObjectView {
        match self {
            Object::Headline(group) => ObjectView::Headline(group@),
            Object::Content(content) => ObjectView::Content(content@),
        }
    }
}

impl<'t> From<&'t HeadlineGroup> for Object<'t> {
    fn from(headline: &'t HeadlineGroup) -> (o: Self) {
        Object::Headline(headline)
    }
}

impl<'t> vstd::std_specs::convert::FromSpecImpl<&'t HeadlineGroup> for Object<'t> {
    open spec fn obeys_from_spec() -> bool {
        true
    }

    open spec fn from_spec(headline: &'t HeadlineGroup) -> Self {
        Object::Headline(headline)
    }
}

impl<'t> From<&'t Content> for Object<'t> {
    fn from(content: &'t Content) -> (o: Self) {
        Object::Content(content)
    }
}

impl<'t> vstd::std_specs::convert::FromSpecImpl<&'t Content> for Object<'t> {
    open spec fn obeys_from_spec() -> bool {
        true
    }

    open spec fn from_spec(content: &'t Content) -> Self {
        Object::Content(content)
    }
}

/// A document as plain data.
pub struct DocumentView {
    pub text: Seq<char>,
    pub root: HeadlineGroupView,
}

impl DocumentView {
    /// The lines that the document is written as: the lines of what stands
    /// under the root, whose own heading is not written.
    pub open spec fn lines(self) -> Seq<Seq<char>> {
        self.root.body_lines()
    }

    /// The document as text: each of its lines, followed by a line feed.
    pub open spec fn render(self) -> Seq<char> {
        join_lines(self.lines())
    }

    /// The sections of the document, each before the sections under it,
    /// in the order of the text.
    pub open spec fn headlines(self) -> Seq<HeadlineGroupView> {
        all_headlines_of(self.root.children())
    }

    /// The content blocks and sections of the document in the order of the
    /// text; what stands under a section follows it.
    pub open spec fn objects(self) -> Seq<ObjectView> {
        all_objects_of(self.root)
    }
}

/// The tree that a text was parsed into, with the text it came from.
#[derive(Debug)]
pub struct Document<'t> {
    pub text: &'t str,
    pub root: HeadlineGroup,
}

impl<'t> View for Document<'t> {
    type V = DocumentView;

    open spec fn view(&self) -> DocumentView {
        DocumentView { text: self.text@, root: self.root@ }
    }
}

impl<'t> Document<'t> {
    /// Walks the sections of the document, each before the sections under it.
    pub fn headlines(&self) -> (r: Headlines<'_>)
        ensures
            r.remaining() == self@.headlines(),
    {
        self.root.all_headlines()
    }

    /// Walks the content blocks and sections of the document in the order
    /// of the text.
    pub fn objects(&self) -> (r: AllObjects<'_>)
        ensures
            r.remaining() == self@.objects(),
    {
        self.root.all_objects()
    }

    /// The document as text, rebuilt from the tree.
    pub fn render(&self) -> (s: String)
        ensures
            s@ == self@.render(),
    {
        let mut s = String::new();
        self.root.write_body_to(&mut s);
        assert(s@ =~= self@.render());
        s
    }
}

} // verus!
