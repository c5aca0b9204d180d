//! Writing a parsed document gives back its lines: each line as its kind
//! is written, in the order of the text.

use crate::content::{bullet_of, Bullet, ContentView, ListItemView};
use crate::headline::{
    blocks_lines, groups_lines, headline_of, marker_count, HeadlineGroupView, HeadlineView,
};
use crate::parser::document_of;
use crate::parser::line::{classify, classify_all, LineView};
use crate::parser::tree::{
    blocks_from, body_end, content_end, groups_from, in_family, is_content, is_text,
    items_in, lemma_at_open, lemma_run_end, lemma_run_end_from, lemma_run_end_is,
    lemma_section_parts, run_end, section, stays_below, texts_in,
};
use crate::text::{
    decimal, first_index_of, is_digit, is_trimmed, join_lines, lemma_decimal_value,
    lemma_first_index_of, lemma_first_index_of_is, lemma_join_lines_add, lemma_trim_padded,
    lines_of, strip_cr,
};
use vstd::prelude::*;

verus! {

/// The lines from `from` up to `to`, each as it is written.
pub open spec fn rendered(lines: Seq<LineView>, from: int, to: int) -> Seq<Seq<char>> {
    Seq::new((to - from) as nat, |i: int| lines[from + i].render())
}

/// The lines of two runs of blocks are the lines of each.
pub proof fn lemma_blocks_lines_add(a: Seq<ContentView>, b: Seq<ContentView>)
    ensures
        blocks_lines(a + b) == blocks_lines(a) + blocks_lines(b),
    decreases b.len(),
{
    if b.len() == 0 {
        assert(a + b =~= a);
        assert(blocks_lines(a) + blocks_lines(b) =~= blocks_lines(a));
    } else {
        lemma_blocks_lines_add(a, b.drop_last());
        assert((a + b).drop_last() =~= a + b.drop_last());
        assert((a + b).last() == b.last());
        assert(blocks_lines(a + b) =~= blocks_lines(a) + blocks_lines(b));
    }
}

/// The lines of two runs of sections are the lines of each.
pub proof fn lemma_groups_lines_add(a: Seq<HeadlineGroupView>, b: Seq<HeadlineGroupView>)
    ensures
        groups_lines(a + b) == groups_lines(a) + groups_lines(b),
    decreases b.len(),
{
    if b.len() == 0 {
        assert(a + b =~= a);
        assert(groups_lines(a) + groups_lines(b) =~= groups_lines(a));
    } else {
        lemma_groups_lines_add(a, b.drop_last());
        assert((a + b).drop_last() =~= a + b.drop_last());
        assert((a + b).last() == b.last());
        assert(groups_lines(a + b) =~= groups_lines(a) + groups_lines(b));
    }
}

/// One block alone is written as its lines.
pub proof fn lemma_blocks_lines_one(block: ContentView)
    ensures
        blocks_lines(seq![block]) == block.lines(),
{
    let one = seq![block];
    assert(one.drop_last() =~= Seq::<ContentView>::empty());
    assert(blocks_lines(Seq::<ContentView>::empty()) =~= Seq::<Seq<char>>::empty());
    assert(one.last() == block);
    assert(blocks_lines(one) =~= block.lines());
}

/// One section alone is written as its lines.
pub proof fn lemma_groups_lines_one(group: HeadlineGroupView)
    ensures
        groups_lines(seq![group]) == group.lines(),
{
    let one = seq![group];
    assert(one.drop_last() =~= Seq::<HeadlineGroupView>::empty());
    assert(groups_lines(Seq::<HeadlineGroupView>::empty()) =~= Seq::<Seq<char>>::empty());
    assert(one.last() == group);
    assert(groups_lines(one) =~= group.lines());
}

/// One line alone is joined to itself and a line feed.
pub proof fn lemma_join_lines_one(line: Seq<char>)
    ensures
        join_lines(seq![line]) == line + seq!['\n'],
{
    let one = seq![line];
    assert(one.drop_last() =~= Seq::<Seq<char>>::empty());
    assert(join_lines(Seq::<Seq<char>>::empty()) =~= Seq::<char>::empty());
    assert(one.last() == line);
    assert(join_lines(one) =~= line + seq!['\n']);
}

/// The blocks that the builder makes from the lines from `from` on are
/// written as those lines, up to the next heading.
pub proof fn lemma_blocks_rendered(lines: Seq<LineView>, from: int)
    requires
        0 <= from <= lines.len(),
    ensures
        blocks_lines(blocks_from(lines, from)) == rendered(
            lines,
            from,
            content_end(lines, from),
        ),
    decreases lines.len() - from,
{
    let blocks = blocks_from(lines, from);
    let stop = content_end(lines, from);
    lemma_run_end(lines, from, is_content());
    if from < lines.len() {
        match lines[from] {
            LineView::Header(_) => {
                assert(!is_content()(lines[from]));
                assert(blocks_lines(blocks) =~= rendered(lines, from, stop));
            },
            LineView::Text(_) => {
                let end = run_end(lines, from, is_text());
                lemma_run_end(lines, from, is_text());
                lemma_run_end(lines, from + 1, is_text());
                assert forall|i: int| from <= i < end implies is_content()(
                    #[trigger] lines[i],
                ) by {
                    assert(is_text()(lines[i]));
                }
                lemma_run_end_from(lines, from, is_content(), end);
                lemma_blocks_rendered(lines, end);
                let first = ContentView::Text(texts_in(lines, from, end));
                let rest = blocks_from(lines, end);
                lemma_blocks_lines_add(seq![first], rest);
                lemma_blocks_lines_one(first);
                assert forall|i: int| 0 <= i < end - from implies first.lines()[i] == rendered(
                    lines,
                    from,
                    end,
                )[i] by {
                    assert(is_text()(lines[from + i]));
                }
                assert(first.lines() =~= rendered(lines, from, end));
                assert(rendered(lines, from, end) + rendered(lines, end, stop) =~= rendered(
                    lines,
                    from,
                    stop,
                ));
            },
            LineView::ListItem(item) => {
                let keeps = in_family(item.bullet);
                let end = run_end(lines, from, keeps);
                lemma_run_end(lines, from, keeps);
                lemma_run_end(lines, from + 1, keeps);
                assert forall|i: int| from <= i < end implies is_content()(
                    #[trigger] lines[i],
                ) by {
                    assert(keeps(lines[i]));
                }
                lemma_run_end_from(lines, from, is_content(), end);
                lemma_blocks_rendered(lines, end);
                let first = ContentView::List(items_in(lines, from, end));
                let rest = blocks_from(lines, end);
                lemma_blocks_lines_add(seq![first], rest);
                lemma_blocks_lines_one(first);
                assert forall|i: int| 0 <= i < end - from implies first.lines()[i] == rendered(
                    lines,
                    from,
                    end,
                )[i] by {
                    assert(keeps(lines[from + i]));
                }
                assert(first.lines() =~= rendered(lines, from, end));
                assert(rendered(lines, from, end) + rendered(lines, end, stop) =~= rendered(
                    lines,
                    from,
                    stop,
                ));
            },
        }
    } else {
        assert(blocks_lines(blocks) =~= rendered(lines, from, stop));
    }
}

/// The sections that the builder makes for the headings from `from` on are
/// written as the lines from there to the end of the section around them.
pub proof fn lemma_groups_rendered(lines: Seq<LineView>, from: int, level: nat)
    requires
        0 <= from <= lines.len(),
        from < lines.len() ==> lines[from] is Header,
    ensures
        groups_lines(groups_from(lines, from, level)) == rendered(
            lines,
            from,
            body_end(lines, from, level),
        ),
    decreases lines.len() - from, 0nat,
{
    let groups = groups_from(lines, from, level);
    let stop = body_end(lines, from, level);
    if from < lines.len() && lines[from]->Header_0.level > level {
        let headline = lines[from]->Header_0;
        let end = body_end(lines, from + 1, headline.level);
        lemma_at_open(lines, from, level);
        lemma_section_rendered(headline, lines, from + 1);
        lemma_groups_rendered(lines, end, level);
        lemma_run_end(lines, end, stays_below(level));
        let child = section(headline, lines, from + 1);
        let rest = groups_from(lines, end, level);
        lemma_section_parts(headline, lines, from + 1);
        lemma_groups_lines_add(seq![child], rest);
        lemma_groups_lines_one(child);
        assert(child.lines() =~= rendered(lines, from, end));
        assert(rendered(lines, from, end) + rendered(lines, end, stop) =~= rendered(
            lines,
            from,
            stop,
        ));
    } else {
        if from < lines.len() {
            assert(!stays_below(level)(lines[from]));
        }
        assert(groups_lines(groups) =~= rendered(lines, from, stop));
    }
}

/// What stands under the heading of a section that the builder makes is
/// written as the lines from which it was made.
pub proof fn lemma_section_rendered(headline: HeadlineView, lines: Seq<LineView>, from: int)
    requires
        0 <= from <= lines.len(),
    ensures
        section(headline, lines, from).body_lines() == rendered(
            lines,
            from,
            body_end(lines, from, headline.level),
        ),
    decreases lines.len() - from, 1nat,
{
    let whole = section(headline, lines, from);
    let middle = content_end(lines, from);
    let stop = body_end(lines, from, headline.level);
    lemma_run_end(lines, from, is_content());
    if middle < lines.len() {
        assert(!is_content()(lines[middle]));
    }
    assert forall|i: int| from <= i < middle implies stays_below(headline.level)(
        #[trigger] lines[i],
    ) by {
        assert(is_content()(lines[i]));
    }
    lemma_run_end_from(lines, from, stays_below(headline.level), middle);
    lemma_run_end(lines, middle, stays_below(headline.level));
    lemma_blocks_rendered(lines, from);
    lemma_groups_rendered(lines, middle, headline.level);
    lemma_section_parts(headline, lines, from);
    let groups = groups_from(lines, middle, headline.level);
    match whole.sub_headlines {
        Some(under) => {
            assert(under == groups);
        },
        None => {
            assert(groups_lines(groups) =~= Seq::<Seq<char>>::empty());
        },
    }
    assert(rendered(lines, from, middle) + rendered(lines, middle, stop) =~= rendered(
        lines,
        from,
        stop,
    ));
}

/// Each of `lines`, classified and written again.
pub open spec fn rewritten(lines: Seq<Seq<char>>, labels: Seq<Seq<char>>) -> Seq<Seq<char>> {
    Seq::new(lines.len(), |i: int| classify(lines[i], labels).render())
}

/// Whether writing `line` again gives `line`: text lines always, and
/// headings and list items that are spelled the way they are written.
pub open spec fn canonical(line: Seq<char>, labels: Seq<Seq<char>>) -> bool {
    classify(line, labels).render() == line
}

/// A line that is classified as text is canonical.
pub proof fn lemma_text_is_canonical(line: Seq<char>, labels: Seq<Seq<char>>)
    requires
        classify(line, labels) is Text,
    ensures
        canonical(line, labels),
{
}

/// The document that a text spells has one line for each line of the
/// text, in order: that line, classified and written again.
pub proof fn lemma_parsed_lines(text: Seq<char>, labels: Seq<Seq<char>>)
    ensures
        document_of(text, labels).lines() == rewritten(lines_of(text), labels),
{
    let raw = lines_of(text);
    let lines = classify_all(raw, labels);
    lemma_section_rendered(HeadlineView::root(), lines, 0);
    assert forall|i: int| 0 <= i < lines.len() implies stays_below(0)(#[trigger] lines[i]) by {
        assert(lines[i] == classify(raw[i], labels));
        match headline_of(raw[i], labels) {
            Some(headline) => {
                assert(headline.level >= 1);
            },
            None => {},
        }
    }
    lemma_run_end_is(lines, 0, stays_below(0), lines.len() as int);
    assert(rendered(lines, 0, lines.len() as int) =~= rewritten(raw, labels));
}

/// Where every line of a text is canonical, the document that the text
/// spells is written as the lines of the text: as many lines, and line
/// for line the same.
pub proof fn lemma_round_trip(text: Seq<char>, labels: Seq<Seq<char>>)
    requires
        forall|i: int|
            0 <= i < lines_of(text).len() ==> canonical(#[trigger] lines_of(text)[i], labels),
    ensures
        document_of(text, labels).lines() == lines_of(text),
        document_of(text, labels).render() == join_lines(lines_of(text)),
{
    lemma_parsed_lines(text, labels);
    assert(rewritten(lines_of(text), labels) =~= lines_of(text));
}

/// Whether `line` can be a line of a text: it holds no line feed, and no
/// carriage return at its end.
pub open spec fn is_line(line: Seq<char>) -> bool {
    &&& forall|i: int| 0 <= i < line.len() ==> #[trigger] line[i] != '\n'
    &&& line.len() > 0 ==> line.last() != '\r'
}

/// No line of a text holds a line feed.
pub proof fn lemma_lines_hold_no_line_feed(text: Seq<char>, i: int, j: int)
    requires
        0 <= i < lines_of(text).len(),
        0 <= j < lines_of(text)[i].len(),
    ensures
        lines_of(text)[i][j] != '\n',
    decreases text.len(),
{
    let at = first_index_of(text, '\n');
    lemma_first_index_of(text, '\n');
    if at < text.len() {
        let first = strip_cr(text.take(at as int));
        let rest = lines_of(text.skip((at + 1) as int));
        assert(lines_of(text) == seq![first] + rest);
        if i == 0 {
            assert(first[j] == text[j]);
        } else {
            assert(lines_of(text)[i] == rest[i - 1]);
            lemma_lines_hold_no_line_feed(text.skip((at + 1) as int), i - 1, j);
        }
    }
}

/// The text made of lines, each followed by a line feed, has those lines.
pub proof fn lemma_lines_of_joined(lines: Seq<Seq<char>>)
    requires
        forall|i: int| 0 <= i < lines.len() ==> is_line(#[trigger] lines[i]),
    ensures
        lines_of(join_lines(lines)) == lines,
    decreases lines.len(),
{
    if lines.len() == 0 {
        assert(lines_of(join_lines(lines)) =~= lines);
    } else {
        let first = lines[0];
        let rest = lines.drop_first();
        assert(lines =~= seq![first] + rest);
        lemma_join_lines_add(seq![first], rest);
        lemma_join_lines_one(first);
        let text = join_lines(lines);
        let tail = join_lines(rest);
        assert(text =~= first + seq!['\n'] + tail);
        assert(is_line(first));
        assert forall|k: int| 0 <= k < first.len() implies #[trigger] text[k] != '\n' by {
            assert(text[k] == first[k]);
        }
        assert(text[first.len() as int] == '\n');
        lemma_first_index_of_is(text, '\n', first.len() as int);
        assert(text.take(first.len() as int) =~= first);
        assert(text.skip((first.len() + 1) as int) =~= tail);
        assert forall|i: int| 0 <= i < rest.len() implies is_line(#[trigger] rest[i]) by {
            assert(rest[i] == lines[i + 1]);
        }
        lemma_lines_of_joined(rest);
        assert(lines_of(text) =~= seq![first] + rest);
    }
}

/// Where every line of a text is canonical and none ends with a carriage
/// return, parsing the text, writing the document and taking the lines of
/// what was written gives the lines of the text.
pub proof fn lemma_round_trip_lines(text: Seq<char>, labels: Seq<Seq<char>>)
    requires
        forall|i: int|
            0 <= i < lines_of(text).len() ==> canonical(#[trigger] lines_of(text)[i], labels),
        forall|i: int|
            0 <= i < lines_of(text).len() ==> (#[trigger] lines_of(text)[i]).len() > 0
                ==> lines_of(text)[i].last() != '\r',
    ensures
        lines_of(document_of(text, labels).render()) == lines_of(text),
{
    lemma_round_trip(text, labels);
    let lines = lines_of(text);
    assert forall|i: int| 0 <= i < lines.len() implies is_line(#[trigger] lines[i]) by {
        assert forall|j: int| 0 <= j < lines[i].len() implies #[trigger] lines[i][j] != '\n' by {
            lemma_lines_hold_no_line_feed(text, i, j);
        }
    }
    lemma_lines_of_joined(lines);
}

/// The line that a list item is written as is read back as that item,
/// where the content of the item neither starts nor ends with whitespace:
/// such a line is canonical, whatever the number of a numeric bullet is.
pub proof fn lemma_written_item_reads_back(item: ListItemView, labels: Seq<Seq<char>>)
    requires
        is_trimmed(item.content),
    ensures
        classify(item.render(), labels) == LineView::ListItem(item),
        canonical(item.render(), labels),
{
    let glyph = item.bullet.glyph();
    let line = item.render();
    match item.bullet {
        Bullet::Numeric(n) => {
            lemma_decimal_value(n as nat);
            let digits = decimal(n as nat);
            assert(glyph.drop_last() =~= digits);
            assert(glyph.last() == '.');
            assert forall|i: int| 0 <= i < glyph.len() implies #[trigger] glyph[i] != ' '
                && glyph[0] != '*' by {
                assert(is_digit(digits[0]));
                if i < digits.len() {
                    assert(is_digit(digits[i]));
                    assert(glyph[i] == digits[i]);
                }
            }
            assert(glyph != seq!['-']) by {
                assert(glyph.len() >= 2);
            }
            assert(glyph != seq!['+']) by {
                assert(glyph.len() >= 2);
            }
        },
        _ => {},
    }
    assert(bullet_of(glyph) == Some(item.bullet));
    assert(line[0] == glyph[0]);
    assert(marker_count(line) == 0);
    assert forall|i: int| 0 <= i < glyph.len() implies #[trigger] line[i] != ' ' by {
        assert(line[i] == glyph[i]);
    }
    assert(line[glyph.len() as int] == ' ');
    lemma_first_index_of_is(line, ' ', glyph.len() as int);
    assert(line.take(glyph.len() as int) =~= glyph);
    assert(line.skip(glyph.len() as int) =~= seq![' '] + item.content);
    lemma_trim_padded(seq![' '], item.content);
}

} // verus!
