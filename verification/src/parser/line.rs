//! Telling the lines of a text apart: headings, list items and plain text.

use crate::content::{bullet_of, Bullet, ListItem, ListItemView};
use crate::headline::{headline_of, parse_headline_chars, Headline, HeadlineView};
use crate::text::{
    chars_of, chars_of_all, find_char, first_index_of, string_of, strs_view, trim, trim_chars,
    vecs_view,
};
use vstd::prelude::*;

verus! {

/// A line as plain data.
pub enum LineView {
    Text(Seq<char>),
    Header(HeadlineView),
    ListItem(ListItemView),
}

/// One line of a text, told apart by what it is.
#[derive(Debug)]
pub enum Line {
    Text(String),
    Header(Headline),
    ListItem(ListItem),
}

impl View for Line {
    type V = LineView;

    open spec fn view(&self) -> LineView {
        match self {
            Line::Text(text) => LineView::Text(text@),
            Line::Header(headline) => LineView::Header(headline@),
            Line::ListItem(item) => LineView::ListItem(item@),
        }
    }
}

/// The list item that `line` spells: what stands before its first space is
/// a bullet, and what stands behind it, trimmed, is the content.
pub open spec fn list_item_of(line: Seq<char>) -> Option<ListItemView> {
    let i = first_index_of(line, ' ');
    if i < line.len() {
        match bullet_of(line.take(i as int)) {
            Some(bullet) => Some(ListItemView { bullet, content: trim(line.skip(i as int)) }),
            None => None,
        }
    } else {
        None
    }
}

/// What `line` is: a heading if it spells one, else a list item if it
/// spells one, else text.
pub open spec fn classify(line: Seq<char>, labels: Seq<Seq<char>>) -> LineView {
    match headline_of(line, labels) {
        Some(headline) => LineView::Header(headline),
        None => match list_item_of(line) {
            Some(item) => LineView::ListItem(item),
            None => LineView::Text(line),
        },
    }
}

/// Each of `lines`, classified.
pub open spec fn classify_all(lines: Seq<Seq<char>>, labels: Seq<Seq<char>>) -> Seq<LineView> {
    Seq::new(lines.len(), |i: int| classify(lines[i], labels))
}

impl LineView {
    /// The text that the line is written as.
    pub open spec fn render(self) -> Seq<char> {
        match self {
            LineView::Text(text) => text,
            LineView::Header(headline) => headline.render(),
            LineView::ListItem(item) => item.render(),
        }
    }
}

impl Line {
    /// Tells whether the line is a list item.
    pub fn is_list_item(&self) -> (b: bool)
        ensures
            b == (self@ is ListItem),
    {
        match self {
            Line::ListItem(_) => true,
            _ => false,
        }
    }

    /// Tells whether the line is a heading.
    pub fn is_header(&self) -> (b: bool)
        ensures
            b == (self@ is Header),
    {
        match self {
            Line::Header(_) => true,
            _ => false,
        }
    }
}

/// The view of a list item that may be absent.
pub open spec fn item_option_view(item: Option<ListItem>) -> Option<ListItemView> {
    match item {
        Some(item) => Some(item@),
        None => None,
    }
}

/// Reads a list item from the characters of a line.
pub fn parse_list_item_chars(line: &[char]) -> (r: Option<ListItem>)
    ensures
        item_option_view(r) == list_item_of(line@),
{
    let i = find_char(line, ' ');
    if i < line.len() {
        proof {
            assert(line@.subrange(0, i as int) =~= line@.take(i as int));
            assert(line@.subrange(i as int, line@.len() as int) =~= line@.skip(i as int));
        }
        match Bullet::parse_chars(&line[0..i]) {
            Some(bullet) => {
                let content = string_of(trim_chars(&line[i..line.len()]));
                Some(ListItem { bullet, content })
            },
            None => None,
        }
    } else {
        None
    }
}

/// Classifies the characters of a line.
pub fn parse_line_chars(line: &[char], labels: &Vec<Vec<char>>) -> (r: Line)
    ensures
        r@ == classify(line@, vecs_view(labels@)),
{
    match parse_headline_chars(line, labels) {
        Some(headline) => Line::Header(headline),
        None => match parse_list_item_chars(line) {
            Some(item) => Line::ListItem(item),
            None => Line::Text(string_of(line)),
        },
    }
}

/// Classifies a line, given the status keywords in the order in which they
/// are tried.
pub fn parse_line(line: &str, possible_states: &[&str]) -> (r: Line)
    ensures
        r@ == classify(line@, strs_view(possible_states@)),
{
    let chars = chars_of(line);
    let labels = chars_of_all(possible_states);
    parse_line_chars(chars.as_slice(), &labels)
}

/// Reads a list item from a line: `None` unless what stands before the
/// first space of the line is a bullet.
pub fn parse_list_item(line: &str) -> (r: Option<Line>)
    ensures
        match r {
            Some(found) => list_item_of(line@) matches Some(item) && found@ == LineView::ListItem(
                item,
            ),
            None => list_item_of(line@) is None,
        },
{
    let chars = chars_of(line);
    match parse_list_item_chars(chars.as_slice()) {
        Some(item) => Some(Line::ListItem(item)),
        None => None,
    }
}

} // verus!
