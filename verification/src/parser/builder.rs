//! The builder that nests the lines under a cursor into sections.

use crate::content::{items_view, Bullet, Content, ContentView, ListItem};
use crate::error::OrgError;
use crate::headline::{
    contents_view, groups_view, Headline, HeadlineGroup, HeadlineGroupView,
};
use crate::parser::cursor::OrgCursor;
use crate::parser::limited::{capacity_error, LimitedVec, LIMIT};
use crate::parser::line::{Line, LineView};
use crate::parser::tree::{
    blocks_from, body_end, content_end, groups_from, in_family, is_text, items_in,
    lemma_at_close, lemma_at_list, lemma_at_open, lemma_at_text, lemma_run_end_is,
    lemma_section_parts, lemma_within_limit, list_end, optional, run_end, section, texts_in,
    within_limit,
};
use crate::text::strings_view;
use vstd::prelude::*;

verus! {

/// Takes the list items that follow one another from where the cursor
/// stands, as long as their bullets are of the family of the first, and
/// leaves the cursor on the line behind them.
pub fn parse_list(cursor: &mut OrgCursor) -> (r: Vec<ListItem>)
    requires
        old(cursor).wf(),
    ensures
        final(cursor).wf(),
        final(cursor).lines() == old(cursor).lines(),
        final(cursor).position() == list_end(old(cursor).lines(), old(cursor).position() as int),
        items_view(r@) == items_in(
            old(cursor).lines(),
            old(cursor).position() as int,
            final(cursor).position() as int,
        ),
{
    let ghost lines = cursor.lines();
    let ghost from = cursor.position() as int;
    let mut list_items: Vec<ListItem> = Vec::new();
    let mut bullet_opt: Option<Bullet> = None;
    proof {
        cursor.lemma_position();
    }
    loop
        invariant
            cursor.wf(),
            cursor.lines() == lines,
            0 <= from <= cursor.position() <= lines.len(),
            list_items@.len() == cursor.position() - from,
            forall|i: int|
                0 <= i < list_items@.len() ==> (#[trigger] list_items@[i])@ == lines[from
                    + i]->ListItem_0,
            match bullet_opt {
                Some(first) => cursor.position() > from && lines[from] is ListItem && first
                    == lines[from]->ListItem_0.bullet,
                None => cursor.position() == from,
            },
            forall|i: int|
                from <= i < cursor.position() ==> in_family(lines[from]->ListItem_0.bullet)(
                    #[trigger] lines[i],
                ),
        ensures
            cursor.position() == list_end(lines, from),
        decreases lines.len() - cursor.position(),
    {
        let ghost at = cursor.position() as int;
        let bullet = match cursor.current_line() {
            Some(Line::ListItem(item)) => item.bullet,
            _ => {
                proof {
                    if at > from {
                        lemma_run_end_is(lines, from, in_family(lines[from]->ListItem_0.bullet), at);
                    }
                }
                break ;
            },
        };
        let first = match bullet_opt {
            Some(first) => first,
            None => {
                bullet_opt = Some(bullet);
                bullet
            },
        };
        if !bullet.matches(&first) {
            proof {
                lemma_run_end_is(lines, from, in_family(lines[from]->ListItem_0.bullet), at);
            }
            break ;
        }
        match cursor.advance() {
            Some(Line::ListItem(item)) => {
                list_items.push(item);
            },
            _ => {},
        }
    }
    proof {
        assert(items_view(list_items@) =~= items_in(
            lines,
            from,
            cursor.position() as int,
        ));
    }
    list_items
}

/// Takes the text lines that follow one another from where the cursor
/// stands, as one block, and leaves the cursor on the line behind them.
pub fn parse_text(cursor: &mut OrgCursor) -> (r: Content)
    requires
        old(cursor).wf(),
    ensures
        final(cursor).wf(),
        final(cursor).lines() == old(cursor).lines(),
        final(cursor).position() == run_end(
            old(cursor).lines(),
            old(cursor).position() as int,
            is_text(),
        ),
        r@ == ContentView::Text(
            texts_in(
                old(cursor).lines(),
                old(cursor).position() as int,
                final(cursor).position() as int,
            ),
        ),
{
    let ghost lines = cursor.lines();
    let ghost from = cursor.position() as int;
    let mut text_lines: Vec<String> = Vec::new();
    proof {
        cursor.lemma_position();
    }
    loop
        invariant
            cursor.wf(),
            cursor.lines() == lines,
            0 <= from <= cursor.position() <= lines.len(),
            text_lines@.len() == cursor.position() - from,
            forall|i: int|
                0 <= i < text_lines@.len() ==> (#[trigger] text_lines@[i])@ == lines[from
                    + i]->Text_0,
            forall|i: int| from <= i < cursor.position() ==> is_text()(#[trigger] lines[i]),
        ensures
            cursor.position() == run_end(lines, from, is_text()),
        decreases lines.len() - cursor.position(),
    {
        let ghost at = cursor.position() as int;
        let is_text_line = match cursor.current_line() {
            Some(Line::Text(_)) => true,
            _ => false,
        };
        if !is_text_line {
            proof {
                lemma_run_end_is(lines, from, is_text(), at);
            }
            break ;
        }
        match cursor.advance() {
            Some(Line::Text(line)) => {
                text_lines.push(line);
            },
            _ => {},
        }
    }
    proof {
        assert(strings_view(text_lines@) =~= texts_in(
            lines,
            from,
            cursor.position() as int,
        ));
    }
    Content::Text(text_lines)
}

/// What the builder does on the line it finds.
enum Step {
    Stop,
    Descend,
    List,
    Text,
}

/// The items that a vector which is made on its first item holds.
pub open spec fn held<T>(slot: Option<LimitedVec<T>>) -> Seq<T> {
    match slot {
        Some(items) => items@,
        None => Seq::empty(),
    }
}

/// Whether a vector, where it was made, holds an item and takes up to `LIMIT`.
pub open spec fn limited<T>(slot: Option<LimitedVec<T>>) -> bool {
    slot matches Some(items) ==> 0 < items@.len() <= LIMIT && items.spec_limit() == LIMIT
}

/// Whether each of `groups` is within the limit.
pub open spec fn all_within_limit(groups: Seq<HeadlineGroupView>, limit: nat) -> bool {
    forall|i: int| 0 <= i < groups.len() ==> within_limit(#[trigger] groups[i], limit)
}

/// Appends `item` to the vector in `slot`, which is made on the first item.
fn push_limited<T>(slot: &mut Option<LimitedVec<T>>, item: T) -> (r: Result<(), OrgError>)
    requires
        limited(*old(slot)),
    ensures
        limited(*final(slot)),
        match r {
            Ok(_) => held(*final(slot)) == held(*old(slot)).push(item),
            Err(e) => held(*old(slot)).len() >= LIMIT && e@ == capacity_error(LIMIT as nat),
        },
{
    let mut items = match slot.take() {
        Some(items) => items,
        None => LimitedVec::default(),
    };
    match items.push(item) {
        Ok(_) => {
            *slot = Some(items);
            Ok(())
        },
        Err(e) => Err(e),
    }
}

/// Appends `block` to the blocks collected so far.
fn push_block(slot: &mut Option<LimitedVec<Content>>, block: Content) -> (r: Result<
    (),
    OrgError,
>)
    requires
        limited(*old(slot)),
    ensures
        limited(*final(slot)),
        match r {
            Ok(_) => contents_view(held(*final(slot))) == contents_view(held(*old(slot))).push(
                block@,
            ),
            Err(e) => contents_view(held(*old(slot))).len() >= LIMIT && e@ == capacity_error(
                LIMIT as nat,
            ),
        },
{
    let r = push_limited(slot, block);
    proof {
        if r is Ok {
            assert(contents_view(held(*slot)) =~= contents_view(held(*old(slot))).push(block@));
        }
    }
    r
}

/// Appends `group` to the sections collected so far.
fn push_group(slot: &mut Option<LimitedVec<HeadlineGroup>>, group: HeadlineGroup) -> (r: Result<
    (),
    OrgError,
>)
    requires
        limited(*old(slot)),
    ensures
        limited(*final(slot)),
        match r {
            Ok(_) => groups_view(held(*final(slot))) == groups_view(held(*old(slot))).push(group@),
            Err(e) => groups_view(held(*old(slot))).len() >= LIMIT && e@ == capacity_error(
                LIMIT as nat,
            ),
        },
{
    let r = push_limited(slot, group);
    proof {
        if r is Ok {
            assert(groups_view(held(*slot)) =~= groups_view(held(*old(slot))).push(group@));
        }
    }
    r
}

/// The section made of `headline`, of the blocks and of the sections
/// collected under it.
fn make_group(
    headline: Headline,
    content: Option<LimitedVec<Content>>,
    sub_headlines: Option<LimitedVec<HeadlineGroup>>,
) -> (group: HeadlineGroup)
    requires
        limited(content),
        limited(sub_headlines),
    ensures
        group@ == (HeadlineGroupView {
            headline: headline@,
            content: optional(contents_view(held(content))),
            sub_headlines: optional(groups_view(held(sub_headlines))),
        }),
{
    let group = HeadlineGroup {
        headline,
        content: match content {
            Some(blocks) => Some(blocks.take()),
            None => None,
        },
        sub_headlines: match sub_headlines {
            Some(groups) => Some(groups.take()),
            None => None,
        },
    };
    proof {
        group.lemma_view();
    }
    group
}

/// Takes the heading that the cursor stands on and builds the section under it.
fn parse_sub_headline(cursor: &mut OrgCursor) -> (r: Result<HeadlineGroup, OrgError>)
    requires
        old(cursor).wf(),
        old(cursor).position() < old(cursor).lines().len(),
        old(cursor).lines()[old(cursor).position() as int] is Header,
    ensures
        final(cursor).wf(),
        final(cursor).lines() == old(cursor).lines(),
        ({
            let lines = old(cursor).lines();
            let at = old(cursor).position() as int;
            let opened = lines[at]->Header_0;
            match r {
                Ok(group) => {
                    &&& group@ == section(opened, lines, at + 1)
                    &&& within_limit(group@, LIMIT as nat)
                    &&& final(cursor).position() == body_end(lines, at + 1, opened.level)
                },
                Err(e) => {
                    &&& !within_limit(section(opened, lines, at + 1), LIMIT as nat)
                    &&& e@ == capacity_error(LIMIT as nat)
                },
            }
        }),
    decreases old(cursor).lines().len() - old(cursor).position(), 0nat,
{
    let new_header = match cursor.advance() {
        Some(Line::Header(new_header)) => new_header,
        _ => {
            return Err(
                OrgError::ParseError(
                    cursor.current_line_number(),
                    "cursor returned a bad value".to_owned(),
                ),
            );
        },
    };
    parse_headline_objects(new_header, cursor)
}

/// Tells what the builder of a section of level `level` does next.
fn next_step(cursor: &OrgCursor, level: usize) -> (step: Step)
    requires
        cursor.wf(),
    ensures
        ({
            let lines = cursor.lines();
            let at = cursor.position() as int;
            match step {
                Step::Stop => at == lines.len() || (lines[at] matches LineView::Header(headline)
                    && headline.level <= level),
                Step::Descend => at < lines.len() && (lines[at] matches LineView::Header(headline)
                    && headline.level > level),
                Step::List => at < lines.len() && lines[at] is ListItem,
                Step::Text => at < lines.len() && lines[at] is Text,
            }
        }),
{
    match cursor.current_line() {
        None => Step::Stop,
        Some(Line::Header(new_headline)) => {
            if new_headline.level() > level {
                Step::Descend
            } else {
                Step::Stop
            }
        },
        Some(Line::ListItem(_)) => Step::List,
        Some(Line::Text(_)) => Step::Text,
    }
}

/// A section is over the limit where it has more blocks than `limit`.
proof fn lemma_too_many_blocks(
    whole: HeadlineGroupView,
    taken: Seq<ContentView>,
    rest: Seq<ContentView>,
    limit: nat,
)
    requires
        whole.contents() == taken + rest,
        taken.len() >= limit,
        rest.len() > 0,
    ensures
        !within_limit(whole, limit),
{
}

/// A section is over the limit where it has more sections than `limit`, or
/// a section that is over the limit.
proof fn lemma_too_many_groups(
    whole: HeadlineGroupView,
    taken: Seq<HeadlineGroupView>,
    child: HeadlineGroupView,
    rest: Seq<HeadlineGroupView>,
    limit: nat,
)
    requires
        whole.children() == taken + seq![child] + rest,
        taken.len() >= limit || !within_limit(child, limit),
    ensures
        !within_limit(whole, limit),
{
    assert(whole.children()[taken.len() as int] == child);
}

/// Sections that are within the limit stay so with one more that is.
proof fn lemma_all_within_push(groups: Seq<HeadlineGroupView>, child: HeadlineGroupView, limit: nat)
    requires
        all_within_limit(groups, limit),
        within_limit(child, limit),
    ensures
        all_within_limit(groups.push(child), limit),
{
    assert forall|i: int| 0 <= i < groups.push(child).len() implies within_limit(
        #[trigger] groups.push(child)[i],
        limit,
    ) by {
        if i < groups.len() {
            assert(groups.push(child)[i] == groups[i]);
        }
    }
}

/// Taking one more item from the front of what is left keeps the whole.
proof fn lemma_take_one<A>(whole: Seq<A>, taken: Seq<A>, one: A, rest: Seq<A>, left: Seq<A>)
    requires
        taken + left == whole,
        left == seq![one] + rest,
    ensures
        taken.push(one) + rest == whole,
        whole == taken + seq![one] + rest,
{
    assert(taken.push(one) + rest =~= taken + (seq![one] + rest));
    assert(taken + seq![one] + rest =~= taken + (seq![one] + rest));
}

/// Builds the section under `headline` from the lines that the cursor has
/// yet to give: content blocks up to the next heading, then one section for
/// each heading deeper than `headline`, up to the first heading that is
/// not deeper. The cursor is left on that heading, or behind the last
/// line. Fails where a section of the result would hold more than `LIMIT`
/// blocks or more than `LIMIT` sections.
pub fn parse_headline_objects(headline: Headline, cursor: &mut OrgCursor) -> (r: Result<
    HeadlineGroup,
    OrgError,
>)
    requires
        old(cursor).wf(),
    ensures
        final(cursor).wf(),
        final(cursor).lines() == old(cursor).lines(),
        match r {
            Ok(group) => {
                &&& group@ == section(
                    headline@,
                    old(cursor).lines(),
                    old(cursor).position() as int,
                )
                &&& within_limit(group@, LIMIT as nat)
                &&& final(cursor).position() == body_end(
                    old(cursor).lines(),
                    old(cursor).position() as int,
                    headline@.level,
                )
            },
            Err(e) => {
                &&& !within_limit(
                    section(headline@, old(cursor).lines(), old(cursor).position() as int),
                    LIMIT as nat,
                )
                &&& e@ == capacity_error(LIMIT as nat)
            },
        },
    decreases old(cursor).lines().len() - old(cursor).position(), 1nat,
{
    let ghost lines = cursor.lines();
    let ghost from = cursor.position() as int;
    let ghost level = headline@.level;
    let ghost whole = section(headline@, lines, from);
    let ghost all_blocks = blocks_from(lines, from);
    let ghost all_groups = groups_from(lines, content_end(lines, from), level);
    let own_level = headline.level();
    let mut content: Option<LimitedVec<Content>> = None;
    let mut sub_headlines: Option<LimitedVec<HeadlineGroup>> = None;
    let ghost mut blocks: Seq<ContentView> = Seq::empty();
    let ghost mut groups: Seq<HeadlineGroupView> = Seq::empty();
    proof {
        cursor.lemma_position();
        lemma_section_parts(headline@, lines, from);
        assert(contents_view(held(content)) =~= blocks);
        assert(groups_view(held(sub_headlines)) =~= groups);
        assert(blocks + all_blocks =~= all_blocks);
        assert(groups + all_groups =~= all_groups);
    }
    loop
        invariant
            cursor.wf(),
            cursor.lines() == lines,
            lines == old(cursor).lines(),
            from == old(cursor).position(),
            0 <= from <= cursor.position() <= lines.len(),
            level == own_level,
            whole == section(headline@, lines, from),
            whole.headline == headline@,
            whole.contents() == all_blocks,
            whole.children() == all_groups,
            contents_view(held(content)) == blocks,
            groups_view(held(sub_headlines)) == groups,
            blocks + blocks_from(lines, cursor.position() as int) == all_blocks,
            groups + groups_from(lines, content_end(lines, cursor.position() as int), level)
                == all_groups,
            body_end(lines, cursor.position() as int, level) == body_end(lines, from, level),
            limited(content),
            limited(sub_headlines),
            all_within_limit(groups, LIMIT as nat),
        ensures
            cursor.position() == body_end(lines, from, level),
            blocks == all_blocks,
            groups == all_groups,
        decreases lines.len() - cursor.position(),
    {
        let ghost at = cursor.position() as int;
        match next_step(cursor, own_level) {
            Step::Stop => {
                proof {
                    lemma_at_close(lines, at, level);
                    assert(blocks + Seq::<ContentView>::empty() =~= blocks);
                    assert(groups + Seq::<HeadlineGroupView>::empty() =~= groups);
                }
                break ;
            },
            Step::Descend => {
                let ghost opened = lines[at]->Header_0;
                let ghost end = body_end(lines, at + 1, opened.level);
                let ghost child = section(opened, lines, at + 1);
                proof {
                    lemma_at_open(lines, at, level);
                    lemma_take_one(
                        all_groups,
                        groups,
                        child,
                        groups_from(lines, end, level),
                        groups_from(lines, at, level),
                    );
                }
                let sub_header = match parse_sub_headline(cursor) {
                    Ok(sub_header) => sub_header,
                    Err(e) => {
                        proof {
                            lemma_too_many_groups(
                                whole,
                                groups,
                                child,
                                groups_from(lines, end, level),
                                LIMIT as nat,
                            );
                        }
                        return Err(e);
                    },
                };
                match push_group(&mut sub_headlines, sub_header) {
                    Ok(_) => {},
                    Err(e) => {
                        proof {
                            lemma_too_many_groups(
                                whole,
                                groups,
                                child,
                                groups_from(lines, end, level),
                                LIMIT as nat,
                            );
                        }
                        return Err(e);
                    },
                }
                proof {
                    lemma_all_within_push(groups, child, LIMIT as nat);
                    groups = groups.push(child);
                }
            },
            Step::List => {
                let ghost end = list_end(lines, at);
                proof {
                    lemma_at_list(lines, at, level);
                }
                let list = Content::List(parse_list(cursor));
                proof {
                    lemma_take_one(
                        all_blocks,
                        blocks,
                        list@,
                        blocks_from(lines, end),
                        blocks_from(lines, at),
                    );
                }
                match push_block(&mut content, list) {
                    Ok(_) => {},
                    Err(e) => {
                        proof {
                            lemma_too_many_blocks(
                                whole,
                                blocks,
                                blocks_from(lines, at),
                                LIMIT as nat,
                            );
                        }
                        return Err(e);
                    },
                }
                proof {
                    blocks = blocks.push(list@);
                }
            },
            Step::Text => {
                let ghost end = run_end(lines, at, is_text());
                proof {
                    lemma_at_text(lines, at, level);
                }
                let text = parse_text(cursor);
                proof {
                    lemma_take_one(
                        all_blocks,
                        blocks,
                        text@,
                        blocks_from(lines, end),
                        blocks_from(lines, at),
                    );
                }
                match push_block(&mut content, text) {
                    Ok(_) => {},
                    Err(e) => {
                        proof {
                            lemma_too_many_blocks(
                                whole,
                                blocks,
                                blocks_from(lines, at),
                                LIMIT as nat,
                            );
                        }
                        return Err(e);
                    },
                }
                proof {
                    blocks = blocks.push(text@);
                }
            },
        }
    }
    let group = make_group(headline, content, sub_headlines);
    proof {
        assert(group@.contents() =~= all_blocks);
        assert(group@.children() =~= all_groups);
        lemma_section_whole(whole, group@);
        lemma_within_limit(group@, LIMIT as nat);
    }
    Ok(group)
}

/// Two sections with one heading, the same blocks and the same sections,
/// which have no field that is present and empty, are one section.
proof fn lemma_section_whole(whole: HeadlineGroupView, group: HeadlineGroupView)
    requires
        whole.headline == group.headline,
        whole.contents() == group.contents(),
        whole.children() == group.children(),
        whole.content == optional(whole.contents()),
        whole.sub_headlines == optional(whole.children()),
        group.content == optional(group.contents()),
        group.sub_headlines == optional(group.children()),
    ensures
        whole == group,
{
}

} // verus!
