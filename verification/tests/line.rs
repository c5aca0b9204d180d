use org::content::Bullet;
use org::parser::line::{parse_line, parse_list_item, Line};

const TEST_STATES: [&str; 3] = ["TODO", "STARTED", "DONE"];

const GOOD_HEADERS: [&str; 9] = [
    "* a simple header",
    "* TODO a simple todo header",
    "* TODO a simple todo header :with:tags:",
    "** second level header",
    "*** third level header",
    "** STARTED second level started todo",
    "* STARTED first level started todo",
    "* DONE first level done todo",
    "* STARTED first level started :with:tags",
];

const GOOD_LIST_ITEMS: [&str; 4] = [
    "- list item",
    "+ plus list item",
    "1. numbered list item",
    "6. sixth list item",
];

#[test]
fn test_test() {
    assert!(true);
}

#[test]
fn test_good_headers() {
    // check that all lines are headers
    assert!(GOOD_HEADERS.iter().all(|line: &&str| {
        match parse_line(line, &TEST_STATES) {
            Line::Header(_header) => true,
            _ => false,
        }
    }))
}

#[test]
fn test_good_list_items() {
    assert!(GOOD_LIST_ITEMS.iter().all(|line: &&str| {
        match parse_line(line, &TEST_STATES) {
            Line::ListItem(_list_item) => true,
            _ => false,
        }
    }))
}

#[test]
fn line_kinds() {
    assert!(parse_line("* h", &TEST_STATES).is_header());
    assert!(!parse_line("* h", &TEST_STATES).is_list_item());
    assert!(parse_line("- i", &TEST_STATES).is_list_item());
    assert!(!parse_line("plain", &TEST_STATES).is_header());
    assert!(!parse_line("plain", &TEST_STATES).is_list_item());
}

#[test]
fn heading_takes_priority_over_text_and_items() {
    match parse_line("*bold* text", &TEST_STATES) {
        Line::Header(h) => {
            assert_eq!(h.level(), 1);
            assert_eq!(h.title(), "bold* text");
        }
        _ => panic!("a line that starts with a marker is a heading"),
    }
}

#[test]
fn text_lines_keep_their_characters() {
    for line in ["", "   ", "plain text", "  - indented item", "-no space", "1 . x", ":END:"] {
        match parse_line(line, &TEST_STATES) {
            Line::Text(text) => assert_eq!(text, line),
            _ => panic!("expected text for {:?}", line),
        }
    }
}

#[test]
fn list_item_parts() {
    match parse_list_item("- list item") {
        Some(Line::ListItem(item)) => {
            assert_eq!(item.bullet, Bullet::Minus);
            assert_eq!(item.content, "list item");
        }
        _ => panic!("expected a list item"),
    }
    match parse_list_item("+   spaced   out  ") {
        Some(Line::ListItem(item)) => {
            assert_eq!(item.bullet, Bullet::Plus);
            assert_eq!(item.content, "spaced   out");
        }
        _ => panic!("expected a list item"),
    }
    match parse_list_item("10. ten") {
        Some(Line::ListItem(item)) => {
            assert_eq!(item.bullet, Bullet::Numeric(10));
            assert_eq!(item.content, "ten");
            assert_eq!(item.render(), "10. ten");
        }
        _ => panic!("expected a list item"),
    }
    match parse_list_item("- ") {
        Some(Line::ListItem(item)) => {
            assert_eq!(item.bullet, Bullet::Minus);
            assert_eq!(item.content, "");
        }
        _ => panic!("expected a list item"),
    }
}

#[test]
fn not_list_items() {
    assert!(parse_list_item("plain text").is_none());
    assert!(parse_list_item("-").is_none());
    assert!(parse_list_item(" - leading space").is_none());
    assert!(parse_list_item("1 one").is_none());
    assert!(parse_list_item("1.5 one").is_none());
    assert!(parse_list_item("a. one").is_none());
    assert!(parse_list_item(". one").is_none());
    assert!(parse_list_item("+5. one").is_none());
    assert!(parse_list_item("").is_none());
}

#[test]
fn bullet_parse() {
    assert_eq!(Bullet::parse("-"), Some(Bullet::Minus));
    assert_eq!(Bullet::parse("+"), Some(Bullet::Plus));
    assert_eq!(Bullet::parse("1."), Some(Bullet::Numeric(1)));
    assert_eq!(Bullet::parse("007."), Some(Bullet::Numeric(7)));
    assert_eq!(Bullet::parse("0."), Some(Bullet::Numeric(0)));
    assert_eq!(Bullet::parse("1"), None);
    assert_eq!(Bullet::parse("."), None);
    assert_eq!(Bullet::parse(""), None);
    assert_eq!(Bullet::parse("--"), None);
    assert_eq!(Bullet::parse("1.."), None);
    assert_eq!(Bullet::parse("x1."), None);
}

#[test]
fn bullet_number_must_fit() {
    let max = format!("{}.", usize::MAX);
    assert_eq!(Bullet::parse(&max), Some(Bullet::Numeric(usize::MAX)));
    let over = format!("{}0.", usize::MAX);
    assert_eq!(Bullet::parse(&over), None);
    assert_eq!(Bullet::parse("99999999999999999999999999999999."), None);
}

#[test]
fn bullet_families() {
    assert!(Bullet::Minus.matches(&Bullet::Minus));
    assert!(Bullet::Plus.matches(&Bullet::Plus));
    assert!(Bullet::Numeric(1).matches(&Bullet::Numeric(9)));
    assert!(!Bullet::Minus.matches(&Bullet::Plus));
    assert!(!Bullet::Plus.matches(&Bullet::Numeric(1)));
    assert!(!Bullet::Numeric(1).matches(&Bullet::Minus));
}
