//! Content is grouped into blocks by kind: a list holds items of one bullet
//! family, and no two blocks that follow one another could have been one.

use crate::content::{ContentView, ListItemView};
use crate::headline::{HeadlineGroupView, HeadlineView};
use crate::iter::{all_objects_of, all_objects_of_groups, content_objects};
use crate::object::ObjectView;
use crate::parser::document_of;
use crate::parser::line::{classify_all, LineView};
use crate::parser::tree::{
    blocks_from, body_end, content_end, groups_from, in_family, is_content, is_text,
    items_in, lemma_run_end, lemma_section_parts, run_end, section, stays_below, texts_in,
};
use crate::text::lines_of;
use vstd::prelude::*;

verus! {

/// Whether `items` is not empty and all its bullets are of one family.
pub open spec fn one_family(items: Seq<ListItemView>) -> bool {
    items.len() > 0 && forall|i: int|
        0 <= i < items.len() ==> (#[trigger] items[i]).bullet.same_family(items[0].bullet)
}

/// Whether `block` is a text block with a line, or a list of one family.
pub open spec fn uniform(block: ContentView) -> bool {
    match block {
        ContentView::List(items) => one_family(items),
        ContentView::Text(lines) => lines.len() > 0,
    }
}

/// Whether `second` could have gone on `first`: both are text, or both
/// are lists and the first item of `second` is of the family of `first`.
pub open spec fn could_join(first: ContentView, second: ContentView) -> bool {
    match (first, second) {
        (ContentView::Text(_), ContentView::Text(_)) => true,
        (ContentView::List(a), ContentView::List(b)) => a.len() > 0 && b.len() > 0
            && b[0].bullet.same_family(a[0].bullet),
        _ => false,
    }
}

/// Whether `block` opens with `line`.
pub open spec fn opens_with(block: ContentView, line: LineView) -> bool {
    match block {
        ContentView::List(items) => items.len() > 0 && line == LineView::ListItem(items[0]),
        ContentView::Text(lines) => lines.len() > 0 && line == LineView::Text(lines[0]),
    }
}

/// Whether each of `blocks` is uniform, and none could have gone on the
/// block before it.
pub open spec fn well_grouped(blocks: Seq<ContentView>) -> bool {
    &&& forall|i: int| 0 <= i < blocks.len() ==> uniform(#[trigger] blocks[i])
    &&& forall|i: int| 0 <= i < blocks.len() - 1 ==> !could_join(#[trigger] blocks[i], blocks[i + 1])
}

/// Whether the blocks of each of `groups`, and of all the sections under
/// them, are well grouped.
pub open spec fn all_grouped(groups: Seq<HeadlineGroupView>) -> bool
    decreases groups, 0nat,
{
    forall|i: int| 0 <= i < groups.len() ==> grouped_tree(#[trigger] groups[i])
}

/// Whether the blocks of `group`, and of all the sections under it, are
/// well grouped.
pub open spec fn grouped_tree(group: HeadlineGroupView) -> bool
    decreases group, 1nat,
{
    &&& well_grouped(group.contents())
    &&& match group.sub_headlines {
        Some(groups) => all_grouped(groups),
        None => true,
    }
}

/// The blocks that the builder makes from the lines from `from` on are
/// well grouped, and the first of them opens with the line at `from`.
pub proof fn lemma_blocks_grouped(lines: Seq<LineView>, from: int)
    ensures
        well_grouped(blocks_from(lines, from)),
        blocks_from(lines, from).len() > 0 ==> 0 <= from < lines.len() && opens_with(
            blocks_from(lines, from)[0],
            lines[from],
        ),
    decreases lines.len() - from,
{
    let blocks = blocks_from(lines, from);
    if 0 <= from < lines.len() {
        match lines[from] {
            LineView::Header(_) => {},
            LineView::Text(_) => {
                let end = run_end(lines, from, is_text());
                lemma_run_end(lines, from, is_text());
                lemma_run_end(lines, from + 1, is_text());
                lemma_blocks_grouped(lines, end);
                let first = ContentView::Text(texts_in(lines, from, end));
                let rest = blocks_from(lines, end);
                assert(blocks == seq![first] + rest);
                assert(uniform(first));
                assert(opens_with(first, lines[from]));
                if rest.len() > 0 {
                    assert(!is_text()(lines[end]));
                    assert(!could_join(first, rest[0]));
                }
                lemma_well_grouped_cons(first, rest);
            },
            LineView::ListItem(item) => {
                let keeps = in_family(item.bullet);
                let end = run_end(lines, from, keeps);
                lemma_run_end(lines, from, keeps);
                lemma_run_end(lines, from + 1, keeps);
                lemma_blocks_grouped(lines, end);
                let items = items_in(lines, from, end);
                let first = ContentView::List(items);
                let rest = blocks_from(lines, end);
                assert(blocks == seq![first] + rest);
                assert(items[0] == item);
                assert forall|i: int| 0 <= i < items.len() implies (#[trigger] items[i]).bullet.same_family(
                    items[0].bullet,
                ) by {
                    assert(keeps(lines[from + i]));
                }
                assert(opens_with(first, lines[from]));
                if rest.len() > 0 {
                    assert(!keeps(lines[end]));
                    assert(!could_join(first, rest[0]));
                }
                lemma_well_grouped_cons(first, rest);
            },
        }
    }
}

/// Well grouped blocks stay so behind a uniform block that the first of
/// them could not have gone on.
pub proof fn lemma_well_grouped_cons(first: ContentView, rest: Seq<ContentView>)
    requires
        uniform(first),
        well_grouped(rest),
        rest.len() > 0 ==> !could_join(first, rest[0]),
    ensures
        well_grouped(seq![first] + rest),
{
    let blocks = seq![first] + rest;
    assert forall|i: int| 0 <= i < blocks.len() implies uniform(#[trigger] blocks[i]) by {
        if i > 0 {
            assert(blocks[i] == rest[i - 1]);
        }
    }
    assert forall|i: int| 0 <= i < blocks.len() - 1 implies !could_join(
        #[trigger] blocks[i],
        blocks[i + 1],
    ) by {
        assert(blocks[i + 1] == rest[i]);
        if i > 0 {
            assert(blocks[i] == rest[i - 1]);
        }
    }
}

/// The blocks of the sections that the builder makes for the lines from
/// `from` on are well grouped.
pub proof fn lemma_groups_grouped(lines: Seq<LineView>, from: int, level: nat)
    ensures
        all_grouped(groups_from(lines, from, level)),
    decreases lines.len() - from, 0nat,
{
    let groups = groups_from(lines, from, level);
    if 0 <= from < lines.len() && (lines[from] matches LineView::Header(headline)
        && headline.level > level) {
        let headline = lines[from]->Header_0;
        let end = body_end(lines, from + 1, headline.level);
        lemma_run_end(lines, from + 1, stays_below(headline.level));
        lemma_section_grouped(headline, lines, from + 1);
        lemma_groups_grouped(lines, end, level);
        let rest = groups_from(lines, end, level);
        assert forall|i: int| 0 <= i < groups.len() implies grouped_tree(#[trigger] groups[i]) by {
            if i > 0 {
                assert(groups[i] == rest[i - 1]);
            }
        }
    }
}

/// The blocks of the section that the builder makes under a heading, and
/// of all the sections under it, are well grouped.
pub proof fn lemma_section_grouped(headline: HeadlineView, lines: Seq<LineView>, from: int)
    ensures
        grouped_tree(section(headline, lines, from)),
    decreases lines.len() - from, 1nat,
{
    if 0 <= from <= lines.len() {
        lemma_run_end(lines, from, is_content());
    }
    lemma_blocks_grouped(lines, from);
    lemma_groups_grouped(lines, content_end(lines, from), headline.level);
    lemma_section_parts(headline, lines, from);
    let whole = section(headline, lines, from);
    match whole.sub_headlines {
        Some(under) => {
            assert(under == groups_from(lines, content_end(lines, from), headline.level));
        },
        None => {},
    }
}

/// Whether each content block among `objects` is uniform.
pub open spec fn uniform_objects(objects: Seq<ObjectView>) -> bool {
    forall|i: int|
        0 <= i < objects.len() ==> (#[trigger] objects[i] matches ObjectView::Content(block)
            ==> uniform(block))
}

/// Every content block found under sections whose blocks are well
/// grouped, at whatever depth, is uniform.
pub proof fn lemma_objects_of_groups_uniform(groups: Seq<HeadlineGroupView>)
    requires
        all_grouped(groups),
    ensures
        uniform_objects(all_objects_of_groups(groups)),
    decreases groups, 0nat,
{
    if groups.len() > 0 {
        let first = groups[0];
        let rest = groups.drop_first();
        lemma_objects_uniform(first);
        assert forall|j: int| 0 <= j < rest.len() implies grouped_tree(#[trigger] rest[j]) by {
            assert(rest[j] == groups[j + 1]);
        }
        lemma_objects_of_groups_uniform(rest);
        let objects = all_objects_of_groups(groups);
        let under = all_objects_of(first);
        let behind = all_objects_of_groups(rest);
        assert(objects == seq![ObjectView::Headline(first)] + under + behind);
        assert forall|i: int| 0 <= i < objects.len() implies (#[trigger] objects[i] matches ObjectView::Content(
            block,
        ) ==> uniform(block)) by {
            if i == 0 {
            } else if i <= under.len() {
                assert(objects[i] == under[i - 1]);
            } else {
                assert(objects[i] == behind[i - 1 - under.len()]);
            }
        }
    }
}

/// Every content block found under a section whose blocks are well
/// grouped, at whatever depth, is uniform.
pub proof fn lemma_objects_uniform(group: HeadlineGroupView)
    requires
        grouped_tree(group),
    ensures
        uniform_objects(all_objects_of(group)),
    decreases group, 1nat,
{
    let own = content_objects(group.contents());
    let below = match group.sub_headlines {
        Some(under) => all_objects_of_groups(under),
        None => Seq::empty(),
    };
    match group.sub_headlines {
        Some(under) => {
            lemma_objects_of_groups_uniform(under);
        },
        None => {},
    }
    let objects = all_objects_of(group);
    assert(objects == own + below);
    assert forall|i: int| 0 <= i < objects.len() implies (#[trigger] objects[i] matches ObjectView::Content(
        block,
    ) ==> uniform(block)) by {
        if i < own.len() {
            assert(objects[i] == ObjectView::Content(group.contents()[i]));
        } else {
            assert(objects[i] == below[i - own.len()]);
        }
    }
}

/// In the document that a text spells, every list holds at least one item
/// and only items of one bullet family, wherever the list stands: list
/// lines that follow one another and change the family are never one list.
pub proof fn lemma_parsed_lists_are_of_one_family(
    text: Seq<char>,
    labels: Seq<Seq<char>>,
    i: int,
)
    requires
        0 <= i < document_of(text, labels).objects().len(),
        document_of(text, labels).objects()[i] matches ObjectView::Content(ContentView::List(_)),
    ensures
        document_of(text, labels).objects()[i] matches ObjectView::Content(
            ContentView::List(items),
        ) && one_family(items),
{
    let document = document_of(text, labels);
    let lines = classify_all(lines_of(text), labels);
    lemma_section_grouped(HeadlineView::root(), lines, 0);
    lemma_objects_uniform(document.root);
}

/// In a section that the builder makes, of two content blocks that follow
/// one another, the second could not have gone on the first: a list ends
/// only where the family changes or the list lines end, and a text block
/// only where the text lines end.
pub proof fn lemma_parsed_blocks_are_maximal(
    headline: HeadlineView,
    lines: Seq<LineView>,
    from: int,
    i: int,
)
    requires
        0 <= i < section(headline, lines, from).contents().len() - 1,
    ensures
        !could_join(
            section(headline, lines, from).contents()[i],
            section(headline, lines, from).contents()[i + 1],
        ),
{
    lemma_section_grouped(headline, lines, from);
}

} // verus!
