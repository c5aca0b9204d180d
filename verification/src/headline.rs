//! Headings: the line that opens a section, and the section it opens.

use crate::content::{Content, ContentView};
use crate::iter::{
    all_headlines_of, all_objects_of, sub_objects_of, AllObjects, Headlines, SubHeadlines,
    SubObjects,
};
use crate::text::{
    char_is_whitespace, chars_of, chars_of_all, find_char, first_index_of, has_prefix,
    is_whitespace, join_lines, join_with, lemma_join_lines_add, slices_view, split_chars,
    split_on, starts_with, string_of, strings_view, strs_view, trim, trim_bounds, trim_chars,
    vecs_view,
};
use vstd::prelude::*;

verus! {

/// The number of `*` at the front of `line`.
pub open spec fn marker_count(line: Seq<char>) -> nat
    decreases line.len(),
{
    if line.len() > 0 && line[0] == '*' {
        1 + marker_count(line.drop_first())
    } else {
        0
    }
}

/// A run of `*` followed by another character, or by the end, is the marker run.
pub proof fn lemma_marker_count_is(line: Seq<char>, n: int)
    requires
        0 <= n <= line.len(),
        forall|i: int| 0 <= i < n ==> #[trigger] line[i] == '*',
        n < line.len() ==> line[n] != '*',
    ensures
        marker_count(line) == n,
    decreases line.len(),
{
    if n > 0 {
        let t = line.drop_first();
        assert(line[0] == '*');
        assert forall|i: int| 0 <= i < n - 1 implies #[trigger] t[i] == '*' by {
            assert(t[i] == line[i + 1]);
        }
        lemma_marker_count_is(t, n - 1);
    }
}

/// The position in `labels` of the first label that `text` starts with, or
/// the number of labels where it starts with none.
pub open spec fn first_match(text: Seq<char>, labels: Seq<Seq<char>>) -> nat
    decreases labels.len(),
{
    if labels.len() > 0 && !starts_with(text, labels[0]) {
        1 + first_match(text, labels.drop_first())
    } else {
        0
    }
}

/// `first_match` is in range, `text` starts with the label there, and with
/// no label before it.
pub proof fn lemma_first_match(text: Seq<char>, labels: Seq<Seq<char>>)
    ensures
        first_match(text, labels) <= labels.len(),
        forall|i: int|
            0 <= i < first_match(text, labels) ==> !starts_with(text, #[trigger] labels[i]),
        first_match(text, labels) < labels.len() ==> starts_with(
            text,
            labels[first_match(text, labels) as int],
        ),
    decreases labels.len(),
{
    if labels.len() > 0 && !starts_with(text, labels[0]) {
        let t = labels.drop_first();
        lemma_first_match(text, t);
        assert forall|i: int| 0 <= i < first_match(text, labels) implies !starts_with(
            text,
            #[trigger] labels[i],
        ) by {
            if i > 0 {
                assert(labels[i] == t[i - 1]);
            }
        }
        if first_match(text, labels) < labels.len() {
            assert(labels[first_match(text, labels) as int] == t[first_match(text, t) as int]);
        }
    }
}

/// A matching label, or the end, with no matching label before it, is `first_match`.
pub proof fn lemma_first_match_is(text: Seq<char>, labels: Seq<Seq<char>>, n: int)
    requires
        0 <= n <= labels.len(),
        forall|i: int| 0 <= i < n ==> !starts_with(text, #[trigger] labels[i]),
        n < labels.len() ==> starts_with(text, labels[n]),
    ensures
        first_match(text, labels) == n,
    decreases labels.len(),
{
    if n > 0 {
        let t = labels.drop_first();
        assert(!starts_with(text, labels[0]));
        assert forall|i: int| 0 <= i < n - 1 implies !starts_with(text, #[trigger] t[i]) by {
            assert(t[i] == labels[i + 1]);
        }
        lemma_first_match_is(text, t, n - 1);
    }
}

/// The status at the front of `text` and the trimmed text behind it: the
/// first of `labels`, in their order, that `text` starts with.
pub open spec fn status_of(text: Seq<char>, labels: Seq<Seq<char>>) -> Option<
    (Seq<char>, Seq<char>),
> {
    let i = first_match(text, labels);
    if i < labels.len() {
        Some((labels[i as int], trim(text.skip(labels[i as int].len() as int))))
    } else {
        None
    }
}

/// The position of the last whitespace character of `s`, or -1 where it has none.
pub open spec fn last_whitespace(s: Seq<char>) -> int
    decreases s.len(),
{
    if s.len() == 0 {
        -1
    } else if is_whitespace(s.last()) {
        s.len() - 1
    } else {
        last_whitespace(s.drop_last())
    }
}

/// A whitespace character with none behind it is the last one; with none at
/// all, the position is -1.
pub proof fn lemma_last_whitespace_is(s: Seq<char>, w: int)
    requires
        -1 <= w < s.len(),
        w >= 0 ==> is_whitespace(s[w]),
        forall|i: int| w < i < s.len() ==> !is_whitespace(#[trigger] s[i]),
    ensures
        last_whitespace(s) == w,
    decreases s.len(),
{
    if s.len() > 0 && w < s.len() - 1 {
        let t = s.drop_last();
        assert(!is_whitespace(s[s.len() - 1]));
        assert forall|i: int| w < i < t.len() implies !is_whitespace(#[trigger] t[i]) by {
            assert(t[i] == s[i]);
        }
        lemma_last_whitespace_is(t, w);
    }
}

/// Whether a piece between colons counts as a tag: it is not empty and holds no space.
pub open spec fn is_tag(piece: Seq<char>) -> bool {
    piece.len() > 0 && first_index_of(piece, ' ') == piece.len()
}

/// The pieces of `pieces` that count as tags, in order.
pub open spec fn keep_tags(pieces: Seq<Seq<char>>) -> Seq<Seq<char>>
    decreases pieces.len(),
{
    if pieces.len() == 0 {
        Seq::empty()
    } else if is_tag(pieces.last()) {
        keep_tags(pieces.drop_last()).push(pieces.last())
    } else {
        keep_tags(pieces.drop_last())
    }
}

/// The tags at the end of `text` and the trimmed text before them. The tags
/// are looked for in what starts at the last whitespace character of the
/// trimmed text: its pieces between colons that are not empty and hold no
/// space. The first piece starts with that whitespace character, so a last
/// word without a colon is a tag only where a whitespace character other
/// than a space stands before it. Where there is no whitespace or no such
/// piece, there are no tags.
pub open spec fn tags_of(text: Seq<char>) -> Option<(Seq<Seq<char>>, Seq<char>)> {
    let t = trim(text);
    let w = last_whitespace(t);
    if w < 0 {
        None
    } else {
        let tags = keep_tags(split_on(t.skip(w), ':'));
        if tags.len() == 0 {
            None
        } else {
            Some((tags, trim(t.take(w))))
        }
    }
}

/// A heading as plain data.
pub struct HeadlineView {
    pub level: nat,
    pub title: Seq<char>,
    pub status: Option<Seq<char>>,
    pub tags: Option<Seq<Seq<char>>>,
}

/// The heading that `line` spells, if it starts with at least one `*`: the
/// number of `*` is the level; of the trimmed rest, a status is taken from
/// the front, then tags from the end, and what is left is the title.
pub open spec fn headline_of(line: Seq<char>, labels: Seq<Seq<char>>) -> Option<HeadlineView> {
    let level = marker_count(line);
    if level == 0 {
        None
    } else {
        let text = trim(line.skip(level as int));
        let (status, text) = match status_of(text, labels) {
            Some((status, rest)) => (Some(status), rest),
            None => (None, text),
        };
        let (tags, title) = match tags_of(text) {
            Some((tags, rest)) => (Some(tags), rest),
            None => (None, text),
        };
        Some(HeadlineView { level, title, status, tags })
    }
}

/// `level` times `*`.
pub open spec fn markers(level: nat) -> Seq<char> {
    Seq::new(level, |i: int| '*')
}

impl HeadlineView {
    /// The heading of the section that holds a whole document.
    pub open spec fn root() -> HeadlineView {
        HeadlineView { level: 0, title: seq!['r', 'o', 'o', 't'], status: None, tags: None }
    }

    /// The line that the heading is written as.
    pub open spec fn render(self) -> Seq<char> {
        let head = markers(self.level) + seq![' '];
        match (self.status, self.tags) {
            (Some(status), None) => head + status + seq![' '] + self.title,
            (None, Some(tags)) => head + self.title + seq![' '] + join_with(tags, ':'),
            (Some(status), Some(tags)) => head + status + seq![' '] + self.title + seq![' ', ':']
                + join_with(tags, ':') + seq![':'],
            (None, None) => head + self.title,
        }
    }
}

/// A heading line: its depth, title, and optional status and tags.
#[derive(Debug)]
pub struct Headline {
    level: usize,
    title: String,
    status: Option<String>,
    tags: Option<Vec<String>>,
}

impl View for Headline {
    type V = HeadlineView;

    closed spec fn view(&self) -> HeadlineView {
        HeadlineView {
            level: self.level as nat,
            title: self.title@,
            status: match self.status {
                Some(s) => Some(s@),
                None => None,
            },
            tags: match self.tags {
                Some(t) => Some(strings_view(t@)),
                None => None,
            },
        }
    }
}

/// The view of a heading that may be absent.
pub open spec fn headline_option_view(h: Option<Headline>) -> Option<HeadlineView> {
    match h {
        Some(h) => Some(h@),
        None => None,
    }
}

/// The index of the first of `labels` that `text` starts with, or their number.
pub fn find_status(text: &[char], labels: &Vec<Vec<char>>) -> (i: usize)
    ensures
        i == first_match(text@, vecs_view(labels@)),
{
    let mut i: usize = 0;
    while i < labels.len() && !has_prefix(text, labels[i].as_slice())
        invariant
            i <= labels@.len(),
            forall|j: int| 0 <= j < i ==> !starts_with(text@, #[trigger] vecs_view(labels@)[j]),
        decreases labels@.len() - i,
    {
        i += 1;
    }
    proof {
        lemma_first_match_is(text@, vecs_view(labels@), i as int);
    }
    i
}

/// Splits the status off the front of `text`, given the possible states in
/// the order in which they are tried. Returns the status and the trimmed
/// rest, or `None` where `text` starts with none of them.
pub fn parse_status<'t>(text: &'t str, possible_states: &[&str]) -> (r: Option<
    (&'t str, &'t str),
>)
    ensures
        match r {
            Some((status, rest)) => status_of(text@, strs_view(possible_states@)) == Some(
                (status@, rest@),
            ),
            None => status_of(text@, strs_view(possible_states@)) is None,
        },
{
    let chars = chars_of(text);
    let labels = chars_of_all(possible_states);
    let i = find_status(chars.as_slice(), &labels);
    if i < labels.len() {
        let k = labels[i].len();
        proof {
            lemma_first_match(chars@, vecs_view(labels@));
            assert(vecs_view(labels@)[i as int] == labels@[i as int]@);
            assert(chars@.subrange(k as int, chars@.len() as int) =~= chars@.skip(k as int));
            assert(chars@.subrange(0, k as int) =~= chars@.take(k as int));
        }
        let (a, b) = trim_bounds(&chars.as_slice()[k..chars.len()]);
        let status = text.substring_char(0, k);
        let rest = text.substring_char(k + a, k + b);
        proof {
            assert(text@.subrange(k + a, k + b) =~= chars@.skip(k as int).subrange(
                a as int,
                b as int,
            ));
        }
        Some((status, rest))
    } else {
        None
    }
}

/// The strings made of each of `pieces`.
fn strings_of(pieces: &Vec<&[char]>) -> (r: Vec<String>)
    ensures
        strings_view(r@) == slices_view(pieces@),
{
    let mut r: Vec<String> = Vec::new();
    let mut i: usize = 0;
    while i < pieces.len()
        invariant
            i <= pieces@.len(),
            r@.len() == i,
            forall|j: int| 0 <= j < i ==> (#[trigger] r@[j])@ == pieces@[j]@,
        decreases pieces@.len() - i,
    {
        r.push(string_of(pieces[i]));
        i += 1;
    }
    proof {
        assert(strings_view(r@) =~= slices_view(pieces@));
    }
    r
}

/// The tags at the end of `text`, and the trimmed text before them.
pub fn parse_tags_chars<'a>(text: &'a [char]) -> (r: Option<(Vec<&'a [char]>, &'a [char])>)
    ensures
        match r {
            Some((tags, rest)) => tags_of(text@) == Some((slices_view(tags@), rest@)),
            None => tags_of(text@) is None,
        },
{
    let t = trim_chars(text);
    let mut w: usize = t.len();
    while w > 0 && !char_is_whitespace(t[w - 1])
        invariant
            w <= t@.len(),
            forall|i: int| w <= i < t@.len() ==> !is_whitespace(#[trigger] t@[i]),
        decreases w,
    {
        w -= 1;
    }
    proof {
        lemma_last_whitespace_is(t@, w - 1);
    }
    if w == 0 {
        return None;
    }
    let w: usize = w - 1;
    proof {
        assert(t@.subrange(w as int, t@.len() as int) =~= t@.skip(w as int));
        assert(t@.subrange(0, w as int) =~= t@.take(w as int));
    }
    let pieces = split_chars(&t[w..t.len()], ':');
    let mut tags: Vec<&'a [char]> = Vec::new();
    let mut i: usize = 0;
    while i < pieces.len()
        invariant
            i <= pieces@.len(),
            slices_view(tags@) == keep_tags(slices_view(pieces@).take(i as int)),
        decreases pieces@.len() - i,
    {
        let piece = pieces[i];
        let ghost before = slices_view(tags@);
        proof {
            let p = slices_view(pieces@).take(i + 1);
            assert(p.drop_last() =~= slices_view(pieces@).take(i as int));
            assert(p.last() == piece@);
        }
        if piece.len() > 0 && find_char(piece, ' ') == piece.len() {
            tags.push(piece);
            proof {
                assert(slices_view(tags@) =~= before.push(piece@));
            }
        }
        i += 1;
    }
    proof {
        assert(slices_view(pieces@).take(i as int) =~= slices_view(pieces@));
    }
    if tags.len() == 0 {
        None
    } else {
        let rest = trim_chars(&t[0..w]);
        Some((tags, rest))
    }
}

/// Splits the tags off the end of `text`. Returns the tags and the trimmed
/// text before them, or `None` where there are no tags.
pub fn parse_tags(text: &str) -> (r: Option<(Vec<String>, String)>)
    ensures
        match r {
            Some((tags, rest)) => tags_of(text@) == Some((strings_view(tags@), rest@)),
            None => tags_of(text@) is None,
        },
{
    let chars = chars_of(text);
    match parse_tags_chars(chars.as_slice()) {
        Some((tags, rest)) => Some((strings_of(&tags), string_of(rest))),
        None => None,
    }
}

/// Reads a heading from the characters of a line.
pub fn parse_headline_chars(line: &[char], labels: &Vec<Vec<char>>) -> (r: Option<Headline>)
    ensures
        headline_option_view(r) == headline_of(line@, vecs_view(labels@)),
{
    let mut level: usize = 0;
    while level < line.len() && line[level] == '*'
        invariant
            level <= line@.len(),
            forall|i: int| 0 <= i < level ==> #[trigger] line@[i] == '*',
        decreases line@.len() - level,
    {
        level += 1;
    }
    proof {
        lemma_marker_count_is(line@, level as int);
    }
    if level == 0 {
        return None;
    }
    proof {
        assert(line@.subrange(level as int, line@.len() as int) =~= line@.skip(level as int));
    }
    let text = trim_chars(&line[level..line.len()]);
    let i = find_status(text, labels);
    let (status, text) = if i < labels.len() {
        let k = labels[i].len();
        proof {
            lemma_first_match(text@, vecs_view(labels@));
            assert(vecs_view(labels@)[i as int] == labels@[i as int]@);
            assert(text@.subrange(k as int, text@.len() as int) =~= text@.skip(k as int));
        }
        (Some(string_of(labels[i].as_slice())), trim_chars(&text[k..text.len()]))
    } else {
        (None, text)
    };
    let (tags, title) = match parse_tags_chars(text) {
        Some((tags, rest)) => (Some(strings_of(&tags)), rest),
        None => (None, text),
    };
    Some(Headline { level, title: string_of(title), status, tags })
}

/// Reads a heading from a line: `None` unless the line starts with `*`.
pub fn parse_headline(line: &str, possible_states: &[&str]) -> (r: Option<Headline>)
    ensures
        headline_option_view(r) == headline_of(line@, strs_view(possible_states@)),
{
    let chars = chars_of(line);
    let labels = chars_of_all(possible_states);
    parse_headline_chars(chars.as_slice(), &labels)
}

impl Headline {
    /// The heading of the section that holds a whole document: level 0,
    /// titled `root`.
    pub fn new_root() -> (h: Self)
        ensures
            h@ == HeadlineView::root(),
    {
        proof {
            reveal_strlit("root");
        }
        assert("root"@ =~= seq!['r', 'o', 'o', 't']);
        Headline { level: 0, title: "root".to_owned(), status: None, tags: None }
    }

    /// Reads a heading from a line: `None` unless the line starts with `*`.
    pub fn parse(line: &str, possible_states: &[&str]) -> (r: Option<Headline>)
        ensures
            headline_option_view(r) == headline_of(line@, strs_view(possible_states@)),
    {
        parse_headline(line, possible_states)
    }

    /// The number of `*` that the heading was written with.
    pub fn level(&self) -> (n: usize)
        ensures
            n == self@.level,
    {
        self.level
    }

    /// The heading's text without status and tags.
    pub fn title(&self) -> (s: &str)
        ensures
            s@ == self@.title,
    {
        self.title.as_str()
    }

    /// The heading's status keyword, if it has one.
    pub fn status(&self) -> (s: Option<&str>)
        ensures
            match s {
                Some(s) => self@.status == Some(s@),
                None => self@.status is None,
            },
    {
        match &self.status {
            Some(s) => Some(s.as_str()),
            None => None,
        }
    }

    /// The heading's tags, if it has any.
    pub fn tags(&self) -> (t: Option<&Vec<String>>)
        ensures
            match t {
                Some(t) => self@.tags == Some(strings_view(t@)),
                None => self@.tags is None,
            },
    {
        match &self.tags {
            Some(t) => Some(t),
            None => None,
        }
    }
}

impl Headline {
    /// Appends the heading's line, without a line end, to `out`.
    pub fn write_to(&self, out: &mut String)
        ensures
            final(out)@ == old(out)@ + self@.render(),
    {
        proof {
            reveal_strlit("*");
            reveal_strlit(" ");
            reveal_strlit(":");
            reveal_strlit(" :");
        }
        assert("*"@ =~= seq!['*']);
        assert(" "@ =~= seq![' ']);
        assert(":"@ =~= seq![':']);
        assert(" :"@ =~= seq![' ', ':']);
        let mut i: usize = 0;
        while i < self.level
            invariant
                i <= self.level,
                "*"@ == seq!['*'],
                out@ == old(out)@ + markers(i as nat),
            decreases self.level - i,
        {
            out.append("*");
            i += 1;
            assert(out@ =~= old(out)@ + markers(i as nat));
        }
        out.append(" ");
        match &self.status {
            Some(status) => {
                out.append(status.as_str());
                out.append(" ");
            },
            None => {},
        }
        out.append(self.title.as_str());
        match &self.tags {
            Some(tags) => {
                let ghost before = out@;
                let ghost all = strings_view(tags@);
                if self.status.is_some() {
                    out.append(" :");
                } else {
                    out.append(" ");
                }
                let ghost opened = out@;
                let mut j: usize = 0;
                while j < tags.len()
                    invariant
                        j <= tags@.len(),
                        all == strings_view(tags@),
                        ":"@ == seq![':'],
                        out@ == opened + join_with(all.take(j as int), ':'),
                    decreases tags@.len() - j,
                {
                    proof {
                        let t = all.take(j + 1);
                        assert(t.drop_last() =~= all.take(j as int));
                        assert(t.last() == tags@[j as int]@);
                        if j == 0 {
                            assert(t[0] == tags@[0]@);
                        }
                    }
                    if j > 0 {
                        out.append(":");
                    }
                    out.append(tags[j].as_str());
                    j += 1;
                    assert(out@ =~= opened + join_with(all.take(j as int), ':'));
                }
                assert(all.take(j as int) =~= all);
                if self.status.is_some() {
                    out.append(":");
                }
                assert(out@ =~= old(out)@ + self@.render());
            },
            None => {
                assert(out@ =~= old(out)@ + self@.render());
            },
        }
    }

    /// The heading's line, without a line end.
    pub fn render(&self) -> (s: String)
        ensures
            s@ == self@.render(),
    {
        let mut s = String::new();
        self.write_to(&mut s);
        assert(s@ =~= self@.render());
        s
    }
}

/// A section as plain data.
pub struct HeadlineGroupView {
    pub headline: HeadlineView,
    pub content: Option<Seq<ContentView>>,
    pub sub_headlines: Option<Seq<HeadlineGroupView>>,
}

/// A section: a heading, the content blocks right under it, and the
/// sections under it.
#[derive(Debug)]
pub struct HeadlineGroup {
    pub headline: Headline,
    pub content: Option<Vec<Content>>,
    pub sub_headlines: Option<Vec<HeadlineGroup>>,
}

/// The views of the blocks of `v`.
pub open spec fn contents_view(v: Seq<Content>) -> Seq<ContentView> {
    Seq::new(v.len(), |i: int| v[i]@)
}

/// The views of the sections of `v`.
pub open spec fn groups_view(v: Seq<HeadlineGroup>) -> Seq<HeadlineGroupView> {
    Seq::new(v.len(), |i: int| v[i]@)
}

/// The views of the sections of `groups`; none where there is no vector.
pub open spec fn groups_option_view(groups: Option<Vec<HeadlineGroup>>) -> Seq<
    HeadlineGroupView,
> {
    match groups {
        Some(groups) => groups_view(groups@),
        None => Seq::empty(),
    }
}

/// The view of a section: the views of its heading, of its blocks and of
/// the sections under it.
pub open spec fn group_view(group: HeadlineGroup) -> HeadlineGroupView
    decreases group,
{
    HeadlineGroupView {
        headline: group.headline@,
        content: match group.content {
            Some(blocks) => Some(contents_view(blocks@)),
            None => None,
        },
        sub_headlines: match group.sub_headlines {
            Some(groups) => Some(
                Seq::new(
                    groups@.len(),
                    |i: int|
                        if 0 <= i < groups@.len() {
                            group_view(groups@[i])
                        } else {
                            arbitrary()
                        },
                ),
            ),
            None => None,
        },
    }
}

impl View for HeadlineGroup {
    type V = HeadlineGroupView;

    open spec fn view(&self) -> HeadlineGroupView {
        group_view(*self)
    }
}

/// The lines that `blocks` are written as, one block after another.
pub open spec fn blocks_lines(blocks: Seq<ContentView>) -> Seq<Seq<char>>
    decreases blocks.len(),
{
    if blocks.len() == 0 {
        Seq::empty()
    } else {
        blocks_lines(blocks.drop_last()) + blocks.last().lines()
    }
}

/// The lines that `groups` are written as, one section after another.
pub open spec fn groups_lines(groups: Seq<HeadlineGroupView>) -> Seq<Seq<char>>
    decreases groups,
{
    if groups.len() == 0 {
        Seq::empty()
    } else {
        groups_lines(groups.drop_last()) + groups.last().lines()
    }
}

impl HeadlineGroupView {
    /// The content blocks right under the heading; none where the field is absent.
    pub open spec fn contents(self) -> Seq<ContentView> {
        match self.content {
            Some(blocks) => blocks,
            None => Seq::empty(),
        }
    }

    /// The sections right under this one; none where the field is absent.
    pub open spec fn children(self) -> Seq<HeadlineGroupView> {
        match self.sub_headlines {
            Some(groups) => groups,
            None => Seq::empty(),
        }
    }

    /// The lines of the section's own content blocks and of the sections under it.
    pub open spec fn body_lines(self) -> Seq<Seq<char>>
        decreases self, 0nat,
    {
        blocks_lines(self.contents()) + match self.sub_headlines {
            Some(groups) => groups_lines(groups),
            None => Seq::empty(),
        }
    }

    /// The lines that the section is written as: the heading's line, the
    /// lines of each content block, then the sections under it.
    pub open spec fn lines(self) -> Seq<Seq<char>>
        decreases self, 1nat,
    {
        seq![self.headline.render()] + self.body_lines()
    }

    /// The section as text: each of its lines, followed by a line feed.
    pub open spec fn render(self) -> Seq<char> {
        join_lines(self.lines())
    }
}

impl HeadlineGroup {
    /// The view of a section is made of the views of its parts.
    pub proof fn lemma_view(&self)
        ensures
            self@.headline == self.headline@,
            self@.content == match self.content {
                Some(blocks) => Some(contents_view(blocks@)),
                None => None,
            },
            self@.sub_headlines == match self.sub_headlines {
                Some(groups) => Some(groups_view(groups@)),
                None => None,
            },
    {
        match self.sub_headlines {
            Some(groups) => {
                assert(self@.sub_headlines->0 =~= groups_view(groups@));
            },
            None => {},
        }
    }

    /// The content blocks right under the heading, in order.
    pub fn content(&self) -> (r: Vec<&Content>)
        ensures
            r@.len() == self@.contents().len(),
            forall|i: int| 0 <= i < r@.len() ==> (#[trigger] r@[i])@ == self@.contents()[i],
    {
        let mut r: Vec<&Content> = Vec::new();
        match &self.content {
            Some(blocks) => {
                let mut i: usize = 0;
                while i < blocks.len()
                    invariant
                        i <= blocks@.len(),
                        r@.len() == i,
                        forall|j: int| 0 <= j < i ==> *(#[trigger] r@[j]) == blocks@[j],
                    decreases blocks@.len() - i,
                {
                    r.push(&blocks[i]);
                    i += 1;
                }
            },
            None => {},
        }
        r
    }

    /// The number of content blocks right under the heading.
    pub fn content_len(&self) -> (n: usize)
        ensures
            n == self@.contents().len(),
    {
        match &self.content {
            Some(blocks) => blocks.len(),
            None => 0,
        }
    }

    /// The number of sections right under this one.
    pub fn sub_headlines_len(&self) -> (n: usize)
        ensures
            n == self@.children().len(),
    {
        proof {
            self.lemma_view();
        }
        match &self.sub_headlines {
            Some(groups) => groups.len(),
            None => 0,
        }
    }

    /// Walks the sections right under this one.
    pub fn sub_headlines(&self) -> (r: SubHeadlines<'_>)
        ensures
            r.remaining() == self@.children(),
    {
        proof {
            self.lemma_view();
        }
        SubHeadlines::new(&self.sub_headlines)
    }

    /// Walks what stands right under this section: its content blocks, then
    /// its sections.
    pub fn sub_objects(&self) -> (r: SubObjects<'_>)
        ensures
            r.group() == self@,
            r.position() == 0,
            r.remaining() == sub_objects_of(self@),
    {
        SubObjects::new(self)
    }

    /// Walks all the sections under this one, each before the sections under it.
    pub fn all_headlines(&self) -> (r: Headlines<'_>)
        ensures
            r.remaining() == all_headlines_of(self@.children()),
    {
        Headlines::new(self.sub_headlines())
    }

    /// Walks everything under this section in the order of the text.
    pub fn all_objects(&self) -> (r: AllObjects<'_>)
        ensures
            r.remaining() == all_objects_of(self@),
    {
        AllObjects::new(self)
    }

    /// Appends the lines of the content blocks and of the sections under
    /// this one to `out`, each with a line feed.
    pub fn write_body_to(&self, out: &mut String)
        ensures
            final(out)@ == old(out)@ + join_lines(self@.body_lines()),
        decreases self, 0nat,
    {
        proof {
            self.lemma_view();
        }
        match &self.content {
            Some(blocks) => {
                let ghost all = contents_view(blocks@);
                let mut i: usize = 0;
                while i < blocks.len()
                    invariant
                        i <= blocks@.len(),
                        all == contents_view(blocks@),
                        out@ == old(out)@ + join_lines(blocks_lines(all.take(i as int))),
                    decreases blocks@.len() - i,
                {
                    blocks[i].write_to(out);
                    proof {
                        let t = all.take(i + 1);
                        assert(t.drop_last() =~= all.take(i as int));
                        assert(t.last() == blocks@[i as int]@);
                        lemma_join_lines_add(blocks_lines(all.take(i as int)), t.last().lines());
                        assert(out@ =~= old(out)@ + join_lines(blocks_lines(t)));
                    }
                    i += 1;
                }
                assert(all.take(i as int) =~= all);
            },
            None => {
                assert(out@ =~= old(out)@ + join_lines(blocks_lines(Seq::empty())));
            },
        }
        let ghost own = blocks_lines(self@.contents());
        match &self.sub_headlines {
            Some(groups) => {
                let ghost all = groups_view(groups@);
                let mut i: usize = 0;
                while i < groups.len()
                    invariant
                        i <= groups@.len(),
                        self.sub_headlines == Some(*groups),
                        all == groups_view(groups@),
                        own == blocks_lines(self@.contents()),
                        out@ == old(out)@ + join_lines(own + groups_lines(all.take(i as int))),
                    decreases groups@.len() - i,
                {
                    groups[i].write_to(out);
                    proof {
                        let t = all.take(i + 1);
                        assert(t.drop_last() =~= all.take(i as int));
                        assert(t.last() == groups@[i as int]@);
                        lemma_join_lines_add(
                            own + groups_lines(all.take(i as int)),
                            t.last().lines(),
                        );
                        assert(own + groups_lines(t) =~= own + groups_lines(all.take(i as int))
                            + t.last().lines());
                        assert(out@ =~= old(out)@ + join_lines(own + groups_lines(t)));
                    }
                    i += 1;
                }
                assert(all.take(i as int) =~= all);
            },
            None => {
                assert(own + Seq::<Seq<char>>::empty() =~= own);
            },
        }
    }

    /// Appends the section's lines to `out`, each with a line feed.
    pub fn write_to(&self, out: &mut String)
        ensures
            final(out)@ == old(out)@ + self@.render(),
        decreases self, 1nat,
    {
        proof {
            reveal_strlit("\n");
        }
        assert("\n"@ =~= seq!['\n']);
        self.headline.write_to(out);
        out.append("\n");
        let ghost head = out@;
        self.write_body_to(out);
        proof {
            let first = seq![self@.headline.render()];
            assert(first.drop_last() =~= Seq::<Seq<char>>::empty());
            assert(first.last() == self@.headline.render());
            assert(join_lines(first.drop_last()) =~= Seq::<char>::empty());
            assert(join_lines(first) =~= self@.headline.render() + seq!['\n']);
            lemma_join_lines_add(first, self@.body_lines());
            assert(out@ =~= old(out)@ + self@.render());
        }
    }

    /// The section as text.
    pub fn render(&self) -> (s: String)
        ensures
            s@ == self@.render(),
    {
        let mut s = String::new();
        self.write_to(&mut s);
        assert(s@ =~= self@.render());
        s
    }
}

} // verus!
