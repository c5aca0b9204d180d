//! Turning a text into a document: a cursor over the classified lines, and
//! the builder that nests them into sections.

pub mod builder;
pub mod cursor;
pub mod limited;
pub mod line;
pub mod tree;

use crate::error::{OrgError, OrgErrorView};
use crate::grouping::{grouped_tree, lemma_section_grouped};
use crate::headline::{Headline, HeadlineView};
use crate::nesting::{lemma_section_nested, strictly_nested};
use crate::object::{Document, DocumentView};
use crate::parser::builder::parse_headline_objects;
use crate::parser::cursor::OrgCursor;
use crate::parser::limited::{capacity_error, LIMIT};
use crate::parser::line::classify_all;
use crate::parser::tree::{section, within_limit};
use crate::round_trip::{lemma_parsed_lines, rewritten};
use crate::text::{lines_of, strs_view};
use vstd::prelude::*;

verus! {

/// The document that `text` spells, with `labels` as the status keywords:
/// the section under the root heading that is built from all the lines.
pub open spec fn document_of(text: Seq<char>, labels: Seq<Seq<char>>) -> DocumentView {
    DocumentView {
        text,
        root: section(HeadlineView::root(), classify_all(lines_of(text), labels), 0),
    }
}

/// Parses `text` into a document, with `status_labels` as the status
/// keywords in the order in which they are tried. Fails on the empty text,
/// and where a section would hold more than `LIMIT` blocks or more than
/// `LIMIT` sections.
pub fn parse_org_text<'t>(text: &'t str, status_labels: Vec<&str>) -> (r: Result<
    Document<'t>,
    OrgError,
>)
    ensures
        match r {
            Ok(document) => {
                &&& text@.len() > 0
                &&& document@ == document_of(text@, strs_view(status_labels@))
                &&& within_limit(document@.root, LIMIT as nat)
                &&& strictly_nested(document@.root)
                &&& grouped_tree(document@.root)
                &&& document@.lines() == rewritten(lines_of(text@), strs_view(status_labels@))
            },
            Err(e) => if text@.len() == 0 {
                e@ == OrgErrorView::ParseError(Some(0), "cannot parse empty text"@)
            } else {
                &&& !within_limit(
                    document_of(text@, strs_view(status_labels@)).root,
                    LIMIT as nat,
                )
                &&& e@ == capacity_error(LIMIT as nat)
            },
        },
{
    let mut cursor = match OrgCursor::new(text, status_labels.as_slice()) {
        Ok(cursor) => cursor,
        Err(e) => {
            return Err(e);
        },
    };
    proof {
        let lines = cursor.lines();
        lemma_section_nested(HeadlineView::root(), lines, 0);
        lemma_section_grouped(HeadlineView::root(), lines, 0);
        lemma_parsed_lines(text@, strs_view(status_labels@));
    }
    match parse_headline_objects(Headline::new_root(), &mut cursor) {
        Ok(root) => Ok(Document { text, root }),
        Err(e) => Err(e),
    }
}

} // verus!
