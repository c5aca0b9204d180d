//! The tree that a run of classified lines spells: where blocks and
//! sections start and end, and what they hold.

use crate::content::{Bullet, ContentView, ListItemView};
use crate::headline::{HeadlineGroupView, HeadlineView};
use crate::parser::line::LineView;
use vstd::prelude::*;

verus! {

/// Where the run of lines that satisfy `keeps` and starts at `from` ends:
/// the first position from `from` on whose line does not satisfy it, or the
/// end of `lines`.
pub open spec fn run_end(lines: Seq<LineView>, from: int, keeps: spec_fn(LineView) -> bool) -> int
    decreases lines.len() - from,
{
    if 0 <= from < lines.len() && keeps(lines[from]) {
        run_end(lines, from + 1, keeps)
    } else {
        from
    }
}

/// A run ends in range, all its lines satisfy the condition, and the line
/// behind it does not.
pub proof fn lemma_run_end(lines: Seq<LineView>, from: int, keeps: spec_fn(LineView) -> bool)
    requires
        0 <= from <= lines.len(),
    ensures
        from <= run_end(lines, from, keeps) <= lines.len(),
        forall|i: int| from <= i < run_end(lines, from, keeps) ==> keeps(#[trigger] lines[i]),
        run_end(lines, from, keeps) < lines.len() ==> !keeps(lines[run_end(lines, from, keeps)]),
    decreases lines.len() - from,
{
    if from < lines.len() && keeps(lines[from]) {
        lemma_run_end(lines, from + 1, keeps);
    }
}

/// A position behind lines that all satisfy the condition, whose own line
/// does not, is where the run ends.
pub proof fn lemma_run_end_is(
    lines: Seq<LineView>,
    from: int,
    keeps: spec_fn(LineView) -> bool,
    end: int,
)
    requires
        0 <= from <= end <= lines.len(),
        forall|i: int| from <= i < end ==> keeps(#[trigger] lines[i]),
        end < lines.len() ==> !keeps(lines[end]),
    ensures
        run_end(lines, from, keeps) == end,
    decreases end - from,
{
    if from < end {
        assert(keeps(lines[from]));
        lemma_run_end_is(lines, from + 1, keeps, end);
    }
}

/// Lines that are text.
pub open spec fn is_text() -> spec_fn(LineView) -> bool {
    |line: LineView| line is Text
}

/// Lines that are list items with a bullet of the family of `bullet`.
pub open spec fn in_family(bullet: Bullet) -> spec_fn(LineView) -> bool {
    |line: LineView| line matches LineView::ListItem(item) && item.bullet.same_family(bullet)
}

/// Lines that are no headings.
pub open spec fn is_content() -> spec_fn(LineView) -> bool {
    |line: LineView| !(line is Header)
}

/// Lines that do not end a section of level `level`: all but the headings
/// of that level or above it.
pub open spec fn stays_below(level: nat) -> spec_fn(LineView) -> bool {
    |line: LineView| !(line matches LineView::Header(headline) && headline.level <= level)
}

/// Where the content right under a heading ends, for content that starts
/// at `from`: at the next heading.
pub open spec fn content_end(lines: Seq<LineView>, from: int) -> int {
    run_end(lines, from, is_content())
}

/// Where a section of level `level` ends whose body starts at `from`: at
/// the next heading of that level or above it.
pub open spec fn body_end(lines: Seq<LineView>, from: int, level: nat) -> int {
    run_end(lines, from, stays_below(level))
}

/// The text lines from `from` up to `to`.
pub open spec fn texts_in(lines: Seq<LineView>, from: int, to: int) -> Seq<Seq<char>> {
    Seq::new((to - from) as nat, |i: int| lines[from + i]->Text_0)
}

/// The list items from `from` up to `to`.
pub open spec fn items_in(lines: Seq<LineView>, from: int, to: int) -> Seq<ListItemView> {
    Seq::new((to - from) as nat, |i: int| lines[from + i]->ListItem_0)
}

/// The content blocks that the lines from `from` up to the next heading
/// make: each longest run of text lines is a text block, and each longest
/// run of list items of the family of its first item is a list.
pub open spec fn blocks_from(lines: Seq<LineView>, from: int) -> Seq<ContentView>
    decreases lines.len() - from,
{
    if 0 <= from < lines.len() {
        match lines[from] {
            LineView::Header(_) => Seq::empty(),
            LineView::Text(_) => {
                proof {
                    lemma_run_end(lines, from + 1, is_text());
                }
                let end = run_end(lines, from, is_text());
                seq![ContentView::Text(texts_in(lines, from, end))] + blocks_from(lines, end)
            },
            LineView::ListItem(first) => {
                proof {
                    lemma_run_end(lines, from + 1, in_family(first.bullet));
                }
                let end = run_end(lines, from, in_family(first.bullet));
                seq![ContentView::List(items_in(lines, from, end))] + blocks_from(lines, end)
            },
        }
    } else {
        Seq::empty()
    }
}

/// `items`, or nothing where there are none.
pub open spec fn optional<A>(items: Seq<A>) -> Option<Seq<A>> {
    if items.len() == 0 {
        None
    } else {
        Some(items)
    }
}

/// The section under `headline` whose body starts at `from`: its content is
/// what stands before the next heading, and its sections are what follows,
/// as long as the headings are deeper than `headline`.
pub open spec fn section(
    headline: HeadlineView,
    lines: Seq<LineView>,
    from: int,
) -> HeadlineGroupView
    decreases lines.len() - from, 1nat,
{
    proof {
        if 0 <= from <= lines.len() {
            lemma_run_end(lines, from, is_content());
        }
    }
    HeadlineGroupView {
        headline,
        content: optional(blocks_from(lines, from)),
        sub_headlines: optional(groups_from(lines, content_end(lines, from), headline.level)),
    }
}

/// The sections that start at `from` and are deeper than `level`, one
/// after another: each opens with the heading at its start and ends before
/// the next heading that is not deeper than its own.
pub open spec fn groups_from(lines: Seq<LineView>, from: int, level: nat) -> Seq<
    HeadlineGroupView,
>
    decreases lines.len() - from, 0nat,
{
    if 0 <= from < lines.len() && (lines[from] matches LineView::Header(headline)
        && headline.level > level) {
        let headline = lines[from]->Header_0;
        proof {
            lemma_run_end(lines, from + 1, stays_below(headline.level));
        }
        seq![section(headline, lines, from + 1)] + groups_from(
            lines,
            body_end(lines, from + 1, headline.level),
            level,
        )
    } else {
        Seq::empty()
    }
}

/// Whether no section of the tree under `group`, itself included, holds
/// more than `limit` content blocks or more than `limit` sections.
pub open spec fn within_limit(group: HeadlineGroupView, limit: nat) -> bool
    decreases group,
{
    &&& group.contents().len() <= limit
    &&& match group.sub_headlines {
        Some(groups) => groups.len() <= limit && forall|i: int|
            0 <= i < groups.len() ==> within_limit(#[trigger] groups[i], limit),
        None => true,
    }
}

/// Where the list that starts at `from` ends: behind the last of the list
/// items that follow one another there and are of the family of the first;
/// at `from` where no list item stands there.
pub open spec fn list_end(lines: Seq<LineView>, from: int) -> int {
    if 0 <= from < lines.len() && lines[from] is ListItem {
        run_end(lines, from, in_family(lines[from]->ListItem_0.bullet))
    } else {
        from
    }
}

/// Two runs under one condition end at the same place where all the lines
/// between their starts satisfy the condition.
pub proof fn lemma_run_end_from(
    lines: Seq<LineView>,
    from: int,
    keeps: spec_fn(LineView) -> bool,
    later: int,
)
    requires
        0 <= from <= later <= lines.len(),
        forall|i: int| from <= i < later ==> keeps(#[trigger] lines[i]),
    ensures
        run_end(lines, from, keeps) == run_end(lines, later, keeps),
{
    lemma_run_end(lines, later, keeps);
    let end = run_end(lines, later, keeps);
    assert forall|i: int| from <= i < end implies keeps(#[trigger] lines[i]) by {
        if i >= later {
        }
    }
    lemma_run_end_is(lines, from, keeps, end);
}

/// The content and the sections of a section are what the lines under
/// its heading make.
pub proof fn lemma_section_parts(headline: HeadlineView, lines: Seq<LineView>, from: int)
    ensures
        section(headline, lines, from).headline == headline,
        section(headline, lines, from).content == optional(blocks_from(lines, from)),
        section(headline, lines, from).sub_headlines == optional(
            groups_from(lines, content_end(lines, from), headline.level),
        ),
        section(headline, lines, from).contents() == blocks_from(lines, from),
        section(headline, lines, from).children() == groups_from(
            lines,
            content_end(lines, from),
            headline.level,
        ),
{
    let whole = section(headline, lines, from);
    let blocks = blocks_from(lines, from);
    let groups = groups_from(lines, content_end(lines, from), headline.level);
    assert(whole.content == optional(blocks));
    assert(whole.sub_headlines == optional(groups));
    assert(whole.contents() =~= blocks);
    assert(whole.children() =~= groups);
}

/// At the end of the lines, and at a heading that is not deeper than
/// `level`, a section of that level has no more content and no more sections.
pub proof fn lemma_at_close(lines: Seq<LineView>, at: int, level: nat)
    requires
        0 <= at <= lines.len(),
        at < lines.len() ==> (lines[at] matches LineView::Header(headline) && headline.level
            <= level),
    ensures
        blocks_from(lines, at) == Seq::<ContentView>::empty(),
        content_end(lines, at) == at,
        groups_from(lines, at, level) == Seq::<HeadlineGroupView>::empty(),
        body_end(lines, at, level) == at,
{
    if at < lines.len() {
        assert(!is_content()(lines[at]));
        assert(!stays_below(level)(lines[at]));
    }
}

/// At a heading deeper than `level`, one section starts; it ends at a
/// heading or at the end of the lines, and the section of level `level`
/// around it goes on from there.
pub proof fn lemma_at_open(lines: Seq<LineView>, at: int, level: nat)
    requires
        0 <= at < lines.len(),
        lines[at] matches LineView::Header(headline) && headline.level > level,
    ensures
        ({
            let opened = lines[at]->Header_0;
            let end = body_end(lines, at + 1, opened.level);
            &&& at < end <= lines.len()
            &&& end < lines.len() ==> lines[end] is Header
            &&& blocks_from(lines, at) == Seq::<ContentView>::empty()
            &&& blocks_from(lines, end) == Seq::<ContentView>::empty()
            &&& content_end(lines, at) == at
            &&& content_end(lines, end) == end
            &&& groups_from(lines, at, level) == seq![section(opened, lines, at + 1)]
                + groups_from(lines, end, level)
            &&& body_end(lines, at, level) == body_end(lines, end, level)
        }),
{
    let opened = lines[at]->Header_0;
    let end = body_end(lines, at + 1, opened.level);
    lemma_run_end(lines, at + 1, stays_below(opened.level));
    assert(!is_content()(lines[at]));
    if end < lines.len() {
        assert(!stays_below(opened.level)(lines[end]));
        assert(!is_content()(lines[end]));
    }
    assert forall|i: int| at <= i < end implies stays_below(level)(#[trigger] lines[i]) by {
        if i > at {
            assert(stays_below(opened.level)(lines[i]));
        }
    }
    lemma_run_end_from(lines, at, stays_below(level), end);
}

/// At a text line, one text block starts; it holds the text lines that
/// follow one another there, and the section around it goes on behind them.
pub proof fn lemma_at_text(lines: Seq<LineView>, at: int, level: nat)
    requires
        0 <= at < lines.len(),
        lines[at] is Text,
    ensures
        ({
            let end = run_end(lines, at, is_text());
            &&& at < end <= lines.len()
            &&& blocks_from(lines, at) == seq![ContentView::Text(texts_in(lines, at, end))]
                + blocks_from(lines, end)
            &&& content_end(lines, at) == content_end(lines, end)
            &&& body_end(lines, at, level) == body_end(lines, end, level)
        }),
{
    let end = run_end(lines, at, is_text());
    lemma_run_end(lines, at, is_text());
    lemma_run_end(lines, at + 1, is_text());
    assert(is_text()(lines[at]));
    assert forall|i: int| at <= i < end implies is_content()(#[trigger] lines[i])
        && stays_below(level)(lines[i]) by {
        assert(is_text()(lines[i]));
    }
    lemma_run_end_from(lines, at, is_content(), end);
    lemma_run_end_from(lines, at, stays_below(level), end);
}

/// At a list item, one list starts; it holds the items of one family that
/// follow one another there, and the section around it goes on behind them.
pub proof fn lemma_at_list(lines: Seq<LineView>, at: int, level: nat)
    requires
        0 <= at < lines.len(),
        lines[at] is ListItem,
    ensures
        ({
            let end = list_end(lines, at);
            &&& at < end <= lines.len()
            &&& blocks_from(lines, at) == seq![ContentView::List(items_in(lines, at, end))]
                + blocks_from(lines, end)
            &&& content_end(lines, at) == content_end(lines, end)
            &&& body_end(lines, at, level) == body_end(lines, end, level)
        }),
{
    let keeps = in_family(lines[at]->ListItem_0.bullet);
    let end = list_end(lines, at);
    lemma_run_end(lines, at, keeps);
    lemma_run_end(lines, at + 1, keeps);
    assert(keeps(lines[at]));
    assert forall|i: int| at <= i < end implies is_content()(#[trigger] lines[i])
        && stays_below(level)(lines[i]) by {
        assert(keeps(lines[i]));
    }
    lemma_run_end_from(lines, at, is_content(), end);
    lemma_run_end_from(lines, at, stays_below(level), end);
}

/// A section with no more than `limit` blocks and sections, whose sections
/// are all within the limit, is within the limit.
pub proof fn lemma_within_limit(group: HeadlineGroupView, limit: nat)
    requires
        group.contents().len() <= limit,
        group.children().len() <= limit,
        forall|i: int|
            0 <= i < group.children().len() ==> within_limit(
                #[trigger] group.children()[i],
                limit,
            ),
    ensures
        within_limit(group, limit),
{
}

} // verus!
