//! Sections nest by level: what stands under a heading is deeper than it.

use crate::headline::{HeadlineGroupView, HeadlineView};
use crate::iter::all_headlines_of;
use crate::parser::document_of;
use crate::parser::line::{classify_all, LineView};
use crate::parser::tree::{
    body_end, content_end, groups_from, is_content, lemma_run_end,
    lemma_section_parts, section, stays_below,
};
use crate::text::lines_of;
use vstd::prelude::*;

verus! {

/// Whether each of `groups` is deeper than `level` and strictly nested.
pub open spec fn nested_below(groups: Seq<HeadlineGroupView>, level: nat) -> bool
    decreases groups, 0nat,
{
    forall|i: int|
        0 <= i < groups.len() ==> (#[trigger] groups[i]).headline.level > level
            && strictly_nested(groups[i])
}

/// Whether, all through the tree under `group`, the sections right under a
/// section are deeper than it.
pub open spec fn strictly_nested(group: HeadlineGroupView) -> bool
    decreases group, 1nat,
{
    match group.sub_headlines {
        Some(groups) => nested_below(groups, group.headline.level),
        None => true,
    }
}

/// The sections that the builder makes for the lines from `from` on are
/// deeper than `level` and strictly nested.
pub proof fn lemma_groups_nested(lines: Seq<LineView>, from: int, level: nat)
    ensures
        nested_below(groups_from(lines, from, level), level),
    decreases lines.len() - from, 0nat,
{
    let groups = groups_from(lines, from, level);
    if 0 <= from < lines.len() && (lines[from] matches LineView::Header(headline)
        && headline.level > level) {
        let headline = lines[from]->Header_0;
        let end = body_end(lines, from + 1, headline.level);
        lemma_run_end(lines, from + 1, stays_below(headline.level));
        lemma_section_nested(headline, lines, from + 1);
        lemma_groups_nested(lines, end, level);
        let rest = groups_from(lines, end, level);
        assert forall|i: int| 0 <= i < groups.len() implies (#[trigger] groups[i]).headline.level
            > level && strictly_nested(groups[i]) by {
            if i == 0 {
                lemma_section_parts(headline, lines, from + 1);
            } else {
                assert(groups[i] == rest[i - 1]);
            }
        }
    }
}

/// The section that the builder makes under a heading is strictly nested.
pub proof fn lemma_section_nested(headline: HeadlineView, lines: Seq<LineView>, from: int)
    ensures
        strictly_nested(section(headline, lines, from)),
    decreases lines.len() - from, 1nat,
{
    if 0 <= from <= lines.len() {
        lemma_run_end(lines, from, is_content());
    }
    lemma_groups_nested(lines, content_end(lines, from), headline.level);
    lemma_section_parts(headline, lines, from);
    let whole = section(headline, lines, from);
    let groups = groups_from(lines, content_end(lines, from), headline.level);
    match whole.sub_headlines {
        Some(under) => {
            assert(under == groups);
        },
        None => {},
    }
}

/// Every section found under strictly nested sections that are deeper than
/// `level`, at whatever depth, is deeper than `level` and strictly nested.
pub proof fn lemma_all_headlines_deeper(groups: Seq<HeadlineGroupView>, level: nat, i: int)
    requires
        nested_below(groups, level),
        0 <= i < all_headlines_of(groups).len(),
    ensures
        all_headlines_of(groups)[i].headline.level > level,
        strictly_nested(all_headlines_of(groups)[i]),
    decreases groups,
{
    let first = groups[0];
    let under = match first.sub_headlines {
        Some(under) => all_headlines_of(under),
        None => Seq::empty(),
    };
    let rest = groups.drop_first();
    assert(all_headlines_of(groups) == seq![first] + under + all_headlines_of(rest));
    if i == 0 {
    } else if i <= under.len() {
        let below = first.sub_headlines->0;
        assert(nested_below(below, first.headline.level));
        lemma_all_headlines_deeper(below, first.headline.level, i - 1);
    } else {
        assert forall|j: int| 0 <= j < rest.len() implies (#[trigger] rest[j]).headline.level
            > level && strictly_nested(rest[j]) by {
            assert(rest[j] == groups[j + 1]);
        }
        lemma_all_headlines_deeper(rest, level, i - 1 - under.len());
    }
}

/// In a strictly nested tree, every section under a section, at whatever
/// depth, is deeper than it.
pub proof fn lemma_descendant_deeper(group: HeadlineGroupView, i: int)
    requires
        strictly_nested(group),
        0 <= i < all_headlines_of(group.children()).len(),
    ensures
        all_headlines_of(group.children())[i].headline.level > group.headline.level,
        strictly_nested(all_headlines_of(group.children())[i]),
{
    match group.sub_headlines {
        Some(groups) => {
            assert(nested_below(groups, group.headline.level));
            lemma_all_headlines_deeper(groups, group.headline.level, i);
        },
        None => {},
    }
}

/// In the document that a text spells, each section `descendant` under a
/// section `ancestor`, at whatever depth, has a level strictly greater than
/// that of `ancestor`: headings of one level are never nested in one another.
pub proof fn lemma_parsed_levels_nest(
    text: Seq<char>,
    labels: Seq<Seq<char>>,
    ancestor: int,
    descendant: int,
)
    requires
        0 <= ancestor < document_of(text, labels).headlines().len(),
        0 <= descendant < all_headlines_of(
            document_of(text, labels).headlines()[ancestor].children(),
        ).len(),
    ensures
        all_headlines_of(
            document_of(text, labels).headlines()[ancestor].children(),
        )[descendant].headline.level > document_of(
            text,
            labels,
        ).headlines()[ancestor].headline.level,
{
    let document = document_of(text, labels);
    let lines = classify_all(lines_of(text), labels);
    lemma_section_nested(HeadlineView::root(), lines, 0);
    lemma_descendant_deeper(document.root, ancestor);
    lemma_descendant_deeper(document.headlines()[ancestor], descendant);
}

} // verus!
