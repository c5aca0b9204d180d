//! What stands under a heading: runs of text lines and lists.

use crate::text::{
    all_digits, chars_of, decimal, decimal_value, join_lines, parse_decimal, push_decimal,
    string_of, strings_view,
};
use vstd::prelude::*;

verus! {

/// The marker that opens a list item.
#[derive(Debug, PartialEq, Eq, Structural, Copy, Clone)]
pub enum Bullet {
    Minus,
    Plus,
    Numeric(usize),
}

/// The bullet that `token` spells: `-`, `+`, or a run of digits followed by
/// one full stop, whose value fits in `usize`.
pub open spec fn bullet_of(token: Seq<char>) -> Option<Bullet> {
    if token == seq!['-'] {
        Some(Bullet::Minus)
    } else if token == seq!['+'] {
        Some(Bullet::Plus)
    } else if token.len() >= 2 && token.last() == '.' && all_digits(token.drop_last())
        && decimal_value(token.drop_last()) <= usize::MAX {
        Some(Bullet::Numeric(decimal_value(token.drop_last()) as usize))
    } else {
        None
    }
}

impl Bullet {
    /// Whether two bullets are of one family: both dashes, both plus signs,
    /// or both numbers, whatever the numbers.
    pub open spec fn same_family(self, other: Bullet) -> bool {
        match (self, other) {
            (Bullet::Minus, Bullet::Minus) => true,
            (Bullet::Plus, Bullet::Plus) => true,
            (Bullet::Numeric(_), Bullet::Numeric(_)) => true,
            _ => false,
        }
    }

    /// The text that the bullet is written as.
    pub open spec fn glyph(self) -> Seq<char> {
        match self {
            Bullet::Minus => seq!['-'],
            Bullet::Plus => seq!['+'],
            Bullet::Numeric(n) => decimal(n as nat) + seq!['.'],
        }
    }

    /// Reads a bullet from the token that opens a line.
    pub fn parse(s: &str) -> (r: Option<Bullet>)
        ensures
            r == bullet_of(s@),
    {
        let chars = chars_of(s);
        Bullet::parse_chars(chars.as_slice())
    }

    /// Reads a bullet from the token that opens a line.
    pub fn parse_chars(token: &[char]) -> (r: Option<Bullet>)
        ensures
            r == bullet_of(token@),
    {
        let n = token.len();
        if n == 1 && token[0] == '-' {
            assert(token@ =~= seq!['-']);
            Some(Bullet::Minus)
        } else if n == 1 && token[0] == '+' {
            assert(token@ =~= seq!['+']);
            Some(Bullet::Plus)
        } else if n >= 2 && token[n - 1] == '.' {
            assert(token@.subrange(0, n - 1) =~= token@.drop_last());
            match parse_decimal(&token[0..n - 1]) {
                Some(value) => Some(Bullet::Numeric(value)),
                None => None,
            }
        } else {
            assert(token@ != seq!['-']) by {
                if token@ == seq!['-'] {
                    assert(token@.len() == 1 && token@[0] == '-');
                }
            }
            assert(token@ != seq!['+']) by {
                if token@ == seq!['+'] {
                    assert(token@.len() == 1 && token@[0] == '+');
                }
            }
            None
        }
    }

    /// Tells whether `other` is of the same family as this bullet.
    pub fn matches(&self, other: &Bullet) -> (b: bool)
        ensures
            b == self.same_family(*other),
    {
        match (self, other) {
            (Bullet::Minus, Bullet::Minus) => true,
            (Bullet::Plus, Bullet::Plus) => true,
            (Bullet::Numeric(_), Bullet::Numeric(_)) => true,
            _ => false,
        }
    }

    /// Appends the bullet's glyph to `out`.
    pub fn write_to(&self, out: &mut String)
        ensures
            final(out)@ == old(out)@ + self.glyph(),
    {
        proof {
            reveal_strlit("-");
            reveal_strlit("+");
        }
        match self {
            Bullet::Minus => {
                out.append("-");
                assert("-"@ =~= seq!['-']);
            },
            Bullet::Plus => {
                out.append("+");
                assert("+"@ =~= seq!['+']);
            },
            Bullet::Numeric(n) => {
                let mut digits: Vec<char> = Vec::new();
                push_decimal(*n, &mut digits);
                digits.push('.');
                let numeral = string_of(digits.as_slice());
                out.append(numeral.as_str());
                assert(digits@ =~= decimal(*n as nat) + seq!['.']);
            },
        }
    }
}

/// One entry of a list.
#[derive(Debug)]
pub struct ListItem {
    pub bullet: Bullet,
    pub content: String,
}

/// A list item as plain data.
pub struct ListItemView {
    pub bullet: Bullet,
    pub content: Seq<char>,
}

impl View for ListItem {
    type V = ListItemView;

    open spec fn view(&self) -> ListItemView {
        ListItemView { bullet: self.bullet, content: self.content@ }
    }
}

impl ListItemView {
    /// The line that the item is written as: glyph, one space, content.
    pub open spec fn render(self) -> Seq<char> {
        self.bullet.glyph() + seq![' '] + self.content
    }
}

impl ListItem {
    /// Appends the item's line, without a line end, to `out`.
    pub fn write_to(&self, out: &mut String)
        ensures
            final(out)@ == old(out)@ + self@.render(),
    {
        proof {
            reveal_strlit(" ");
        }
        self.bullet.write_to(out);
        out.append(" ");
        out.append(self.content.as_str());
        assert(" "@ =~= seq![' ']);
        assert(out@ =~= old(out)@ + self@.render());
    }

    /// The item's line, without a line end.
    pub fn render(&self) -> (s: String)
        ensures
            s@ == self@.render(),
    {
        let mut s = String::new();
        self.write_to(&mut s);
        assert(s@ =~= self@.render());
        s
    }
}

/// The views of the items of `v`.
pub open spec fn items_view(v: Seq<ListItem>) -> Seq<ListItemView> {
    Seq::new(v.len(), |i: int| v[i]@)
}

/// The lines that the items of `items` are written as.
pub open spec fn item_lines(items: Seq<ListItemView>) -> Seq<Seq<char>> {
    Seq::new(items.len(), |i: int| items[i].render())
}

/// A block of content under a heading.
#[derive(Debug)]
pub enum Content {
    /// Consecutive list items of one bullet family.
    List(Vec<ListItem>),
    /// Consecutive lines of plain text.
    Text(Vec<String>),
}

/// A content block as plain data.
pub enum ContentView {
    List(Seq<ListItemView>),
    Text(Seq<Seq<char>>),
}

impl View for Content {
    type V = ContentView;

    open spec fn view(&self) -> ContentView {
        match self {
            Content::List(items) => ContentView::List(items_view(items@)),
            Content::Text(lines) => ContentView::Text(strings_view(lines@)),
        }
    }
}

impl ContentView {
    /// The lines that the block is written as.
    pub open spec fn lines(self) -> Seq<Seq<char>> {
        match self {
            ContentView::List(items) => item_lines(items),
            ContentView::Text(lines) => lines,
        }
    }

    /// The block as text: each of its lines, followed by a line feed.
    pub open spec fn render(self) -> Seq<char> {
        join_lines(self.lines())
    }
}

impl Content {
    /// Appends the block's lines, each with a line feed, to `out`.
    pub fn write_to(&self, out: &mut String)
        ensures
            final(out)@ == old(out)@ + self@.render(),
    {
        proof {
            reveal_strlit("\n");
        }
        assert("\n"@ =~= seq!['\n']);
        match self {
            Content::List(items) => {
                let ghost lines = item_lines(items_view(items@));
                let mut i: usize = 0;
                while i < items.len()
                    invariant
                        i <= items@.len(),
                        lines == item_lines(items_view(items@)),
                        "\n"@ == seq!['\n'],
                        out@ == old(out)@ + join_lines(lines.take(i as int)),
                    decreases items@.len() - i,
                {
                    items[i].write_to(out);
                    out.append("\n");
                    proof {
                        let t = lines.take(i + 1);
                        assert(t.drop_last() =~= lines.take(i as int));
                        assert(t.last() == items@[i as int]@.render());
                        assert(out@ =~= old(out)@ + join_lines(t));
                    }
                    i += 1;
                }
                assert(lines.take(i as int) =~= lines);
            },
            Content::Text(text) => {
                let ghost lines = strings_view(text@);
                let mut i: usize = 0;
                while i < text.len()
                    invariant
                        i <= text@.len(),
                        lines == strings_view(text@),
                        "\n"@ == seq!['\n'],
                        out@ == old(out)@ + join_lines(lines.take(i as int)),
                    decreases text@.len() - i,
                {
                    out.append(text[i].as_str());
                    out.append("\n");
                    proof {
                        let t = lines.take(i + 1);
                        assert(t.drop_last() =~= lines.take(i as int));
                        assert(t.last() == text@[i as int]@);
                        assert(out@ =~= old(out)@ + join_lines(t));
                    }
                    i += 1;
                }
                assert(lines.take(i as int) =~= lines);
            },
        }
    }

    /// The block as text.
    pub fn render(&self) -> (s: String)
        ensures
            s@ == self@.render(),
    {
        let mut s = String::new();
        self.write_to(&mut s);
        assert(s@ =~= self@.render());
        s
    }
}

impl From<Vec<ListItem>> for Content {
    fn from(items: Vec<ListItem>) -> (c: Content) {
        Content::List(items)
    }
}

impl vstd::std_specs::convert::FromSpecImpl<Vec<ListItem>> for Content {
    open spec fn obeys_from_spec() -> bool {
        true
    }

    open spec fn from_spec(items: Vec<ListItem>) -> Content {
        Content::List(items)
    }
}

} // verus!
