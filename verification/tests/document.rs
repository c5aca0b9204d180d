use org::content::{Bullet, Content, ListItem};
use org::parser::parse_org_text;
use org::text::{chars_of, parse_decimal, split_lines, trim_chars};

const TEST_STATES: [&str; 3] = ["TODO", "STARTED", "DONE"];

fn with_line_ends(lines: &[&str]) -> String {
    let mut s = String::new();
    for line in lines {
        s.push_str(line);
        s.push('\n');
    }
    s
}

#[test]
fn round_trip_line_for_line() {
    let lines = [
        "leading text",
        "",
        "* TODO first :a:b:",
        "  indented text stays as it is  ",
        "- one",
        "- two",
        "+ other family",
        "** DONE second",
        "1. first",
        "12. twelfth",
        "*** third",
        "* plain",
        "\ttabbed",
    ];
    let text = with_line_ends(&lines);
    let content = parse_org_text(&text, TEST_STATES.to_vec()).unwrap();
    let rendered = content.render();
    assert_eq!(rendered, text);
    let rendered_lines: Vec<&str> = rendered.lines().collect();
    assert_eq!(rendered_lines, lines);
}

#[test]
fn round_trip_without_final_line_end() {
    let text = "* a\n** b\ntext";
    let content = parse_org_text(text, TEST_STATES.to_vec()).unwrap();
    let rendered = content.render();
    assert_eq!(rendered, "* a\n** b\ntext\n");
    assert_eq!(
        rendered.lines().collect::<Vec<_>>(),
        text.lines().collect::<Vec<_>>()
    );
}

#[test]
fn carriage_returns_before_line_feeds_are_dropped() {
    let content = parse_org_text("* a\r\ntext\r\n", TEST_STATES.to_vec()).unwrap();
    assert_eq!(content.render(), "* a\ntext\n");
    let alone = parse_org_text("a\rb", TEST_STATES.to_vec()).unwrap();
    assert_eq!(alone.render(), "a\rb\n");
}

#[test]
fn rendering_normalises_what_is_not_canonical() {
    let content = parse_org_text(
        "*   TODO   spaced   :x:\n-    item\n007. seven",
        TEST_STATES.to_vec(),
    )
    .unwrap();
    assert_eq!(content.render(), "* TODO spaced :x:\n- item\n7. seven\n");
}

#[test]
fn document_keeps_its_text() {
    let text = "* a\nbody";
    let content = parse_org_text(text, TEST_STATES.to_vec()).unwrap();
    assert_eq!(content.text, text);
}

#[test]
fn content_rendering() {
    let list = Content::List(vec![
        ListItem { bullet: Bullet::Minus, content: "a".to_string() },
        ListItem { bullet: Bullet::Numeric(3), content: "b".to_string() },
        ListItem { bullet: Bullet::Plus, content: "".to_string() },
    ]);
    assert_eq!(list.render(), "- a\n3. b\n+ \n");
    let text = Content::Text(vec!["x".to_string(), "".to_string()]);
    assert_eq!(text.render(), "x\n\n");
    let from: Content = Content::from(vec![ListItem {
        bullet: Bullet::Numeric(0),
        content: "zero".to_string(),
    }]);
    assert_eq!(from.render(), "0. zero\n");
}

#[test]
fn lines_of_a_text() {
    let chars = chars_of("a\nb\r\n\nlast");
    let lines: Vec<String> = split_lines(&chars)
        .iter()
        .map(|l| l.iter().collect())
        .collect();
    assert_eq!(lines, vec!["a", "b", "", "last"]);
    let none = chars_of("");
    assert!(split_lines(&none).is_empty());
    let ending = chars_of("x\n");
    assert_eq!(split_lines(&ending).len(), 1);
    let only_cr = chars_of("x\r");
    let kept: String = split_lines(&only_cr)[0].iter().collect();
    assert_eq!(kept, "x\r");
}

#[test]
fn trimming_uses_unicode_white_space() {
    let chars = chars_of("\u{3000}\t a b \u{a0}\n");
    let trimmed: String = trim_chars(&chars).iter().collect();
    assert_eq!(trimmed, "a b");
    let zero_width = chars_of("\u{200b}x");
    assert_eq!(trim_chars(&zero_width).len(), 2);
    for c in 0..=0x3100u32 {
        if let Some(c) = char::from_u32(c) {
            assert_eq!(org::text::char_is_whitespace(c), c.is_whitespace());
        }
    }
}

#[test]
fn decimal_numbers() {
    assert_eq!(parse_decimal(&chars_of("0")), Some(0));
    assert_eq!(parse_decimal(&chars_of("0042")), Some(42));
    assert_eq!(parse_decimal(&chars_of("")), None);
    assert_eq!(parse_decimal(&chars_of("4a")), None);
    assert_eq!(parse_decimal(&chars_of("-4")), None);
    assert_eq!(parse_decimal(&chars_of("٣")), None);
    let mut out = Vec::new();
    org::text::push_decimal(0, &mut out);
    org::text::push_decimal(1905, &mut out);
    assert_eq!(out.iter().collect::<String>(), "01905");
}
