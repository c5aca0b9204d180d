use org::content::{Bullet, Content, ListItem};
use org::error::OrgError;
use org::object::Object;
use org::parser::line::Line;
use org::parser::builder::{parse_list, parse_text};
use org::parser::cursor::OrgCursor;
use org::parser::limited::{LimitedVec, LIMIT};
use org::parser::parse_org_text;

const TEST_STATES: [&str; 3] = ["TODO", "STARTED", "DONE"];

const TEST_TEXT: &str = "* TODO task header: with_tags :tag:anothertag:
:DEADLINE: 

:PROPERTIES:
:END:

* STARTED started task
* TODO unorodered lists
- not necessarily first
- maybe not second
- doesn't have to be third
* plus sign list
+ unordered lists
+ don't have to start
+ with a - like a sane person
* STARTED ordered lists
1. there
2. needs
3. to
4. be
5. ten
6. of
7. these
8. so
9. here's
10. ten
"; // end with a new line

const GOOD_LIST_0: &str = "- a good list
- not necessarily in order
- a third item";
const GOOD_LIST_0_LEN: usize = 3;
const GOOD_LIST_0_BULLET: Bullet = Bullet::Minus;

const GOOD_LIST_1: &str = "+ another good list
+ featuring the plus sign
+ also, now with over 3 items
+ why have more than 1 indicator?
+ who knows";
const GOOD_LIST_1_LEN: usize = 5;
const GOOD_LIST_1_BULLET: Bullet = Bullet::Plus;

#[test]
fn parse_test_str() {
    println!("{}", TEST_TEXT);

    let content = parse_org_text(&TEST_TEXT, TEST_STATES.to_vec()).unwrap();

    println!("parsed output:");
    println!("{}", content.render());

    println!("objects:");
    for object in content.objects().collect() {
        println!("{:?}", object);
    }

    let headlines: Vec<_> = content.headlines().collect();

    let object_num: usize = content.objects().collect().len();

    let expected_headline_num: usize = 5;

    assert_eq!(headlines.len(), expected_headline_num);

    let expected_objects: usize = 9;

    assert_eq!(object_num, expected_objects);

    let expected_lines: usize = 26;
    let test_text_lines = TEST_TEXT.lines().count();
    let content_lines = format!("{}", content.render()).lines().count();

    assert_eq!(test_text_lines, expected_lines);
    assert_eq!(content_lines, test_text_lines);
}

fn check_list(
    list: &Vec<ListItem>,
    expected_len: usize,
    expected_bullet: Bullet,
) -> Result<(), OrgError> {
    if list.len() != expected_len {
        return Err(OrgError::Unexpected(format!(
            "incorrect list length. expected: {}, found: {}",
            expected_len,
            list.len()
        )));
    }

    check_bullets(list, expected_bullet)
}

fn check_bullets(list: &Vec<ListItem>, expected_bullet: Bullet) -> Result<(), OrgError> {
    match expected_bullet {
        Bullet::Numeric(_) => {
            match list
                .iter()
                .enumerate()
                .find(|(num, item)| match item.bullet {
                    Bullet::Numeric(i) => *num != (i + 1),
                    _ => false,
                }) {
                Some((bad_bullet_index, bad_bullet)) => Err(OrgError::ParseError(
                    None,
                    format!(
                        "expected numeric bullet: {}, found: {}",
                        bad_bullet_index + 1,
                        bad_bullet.render(),
                    ),
                )),
                _ => Ok(()),
            }
        }
        _ => match list.iter().find(|item| item.bullet != expected_bullet) {
            Some(item) => Err(OrgError::ParseError(
                None,
                format!(
                    "bad bullet was parsed: {:?}, expected: {:?}",
                    item.bullet, expected_bullet,
                ),
            )),
            None => Ok(()),
        },
    }
}

fn get_cursor(s: &str) -> Result<OrgCursor, OrgError> {
    OrgCursor::new(s, &TEST_STATES)
}

#[test]
fn parse_lists() {
    for line in GOOD_LIST_0.lines() {
        println!("line: {}", line);
    }

    let mut cursor = get_cursor(GOOD_LIST_0).unwrap();

    let good_list_0 = parse_list(&mut cursor);
    check_list(&good_list_0, GOOD_LIST_0_LEN, GOOD_LIST_0_BULLET).unwrap();

    let mut cursor = get_cursor(GOOD_LIST_1).unwrap();

    let good_list_1 = parse_list(&mut cursor);
    check_list(&good_list_1, GOOD_LIST_1_LEN, GOOD_LIST_1_BULLET).unwrap();
}

#[test]
fn example_end_to_end() {
    let content = parse_org_text("* 1\n** 2\n* 3", TEST_STATES.to_vec()).unwrap();
    let top = content.root.sub_headlines().collect();
    assert_eq!(top.len(), 2);
    assert_eq!(top[0].headline.title(), "1");
    assert_eq!(top[0].headline.level(), 1);
    assert_eq!(top[1].headline.title(), "3");
    assert_eq!(top[1].headline.level(), 1);
    let under_first = top[0].sub_headlines().collect();
    assert_eq!(under_first.len(), 1);
    assert_eq!(under_first[0].headline.title(), "2");
    assert_eq!(under_first[0].headline.level(), 2);
    assert_eq!(top[1].sub_headlines_len(), 0);
    let all = content.headlines().collect();
    let titles: Vec<&str> = all.iter().map(|g| g.headline.title()).collect();
    assert_eq!(titles, vec!["1", "2", "3"]);
    assert_eq!(all.len(), 3);
}

#[test]
fn empty_input() {
    match parse_org_text("", TEST_STATES.to_vec()) {
        Err(OrgError::ParseError(Some(0), msg)) => assert_eq!(msg, "cannot parse empty text"),
        _ => panic!("the empty text must be refused at line 0"),
    }
    assert!(OrgCursor::new("", &TEST_STATES).is_err());
}

#[test]
fn a_single_line_feed_is_one_empty_line() {
    let content = parse_org_text("\n", TEST_STATES.to_vec()).unwrap();
    assert_eq!(content.render(), "\n");
    assert_eq!(content.objects().collect().len(), 1);
}

#[test]
fn numeric_list_non_renumbering() {
    let content = parse_org_text("5. five\n1. one", TEST_STATES.to_vec()).unwrap();
    let blocks = content.root.content();
    assert_eq!(blocks.len(), 1);
    match blocks[0] {
        Content::List(items) => {
            assert_eq!(items.len(), 2);
            assert_eq!(items[0].bullet, Bullet::Numeric(5));
            assert_eq!(items[0].content, "five");
            assert_eq!(items[1].bullet, Bullet::Numeric(1));
            assert_eq!(items[1].content, "one");
        }
        _ => panic!("expected a list"),
    }
    assert_eq!(content.render(), "5. five\n1. one\n");
}

#[test]
fn bullet_family_grouping() {
    let content = parse_org_text("- a\n- b\n+ c\n+ d\n1. e", TEST_STATES.to_vec()).unwrap();
    let blocks = content.root.content();
    assert_eq!(blocks.len(), 3);
    let sizes: Vec<usize> = blocks
        .iter()
        .map(|block| match block {
            Content::List(items) => items.len(),
            Content::Text(_) => panic!("expected lists only"),
        })
        .collect();
    assert_eq!(sizes, vec![2, 2, 1]);
}

#[test]
fn list_stops_at_another_family() {
    let mut cursor = get_cursor("- a\n- b\n+ c").unwrap();
    let first = parse_list(&mut cursor);
    assert_eq!(first.len(), 2);
    assert_eq!(cursor.current_line_number(), Some(2));
    let second = parse_list(&mut cursor);
    assert_eq!(second.len(), 1);
    assert_eq!(second[0].bullet, Bullet::Plus);
    assert_eq!(cursor.current_line_number(), None);
    assert!(parse_list(&mut cursor).is_empty());
}

#[test]
fn list_on_a_line_that_is_no_item_is_empty() {
    let mut cursor = get_cursor("text\n- a").unwrap();
    assert!(parse_list(&mut cursor).is_empty());
    assert_eq!(cursor.current_line_number(), Some(0));
}

#[test]
fn text_run_is_one_block() {
    let mut cursor = get_cursor("one\n\n  three\n- item").unwrap();
    match parse_text(&mut cursor) {
        Content::Text(lines) => assert_eq!(lines, vec!["one", "", "  three"]),
        _ => panic!("expected text"),
    }
    assert_eq!(cursor.current_line_number(), Some(3));
    match cursor.current_line() {
        Some(Line::ListItem(item)) => assert_eq!(item.content, "item"),
        _ => panic!("expected the list item"),
    }
}

#[test]
fn cursor_walks_the_lines() {
    let mut cursor = get_cursor("* h\r\ntext\n- i\n").unwrap();
    assert_eq!(cursor.current_line_number(), Some(0));
    assert!(matches!(cursor.current_line(), Some(Line::Header(_))));
    match cursor.advance() {
        Some(Line::Header(h)) => assert_eq!(h.title(), "h"),
        _ => panic!("expected the heading"),
    }
    assert_eq!(cursor.current_line_number(), Some(1));
    match cursor.advance() {
        Some(Line::Text(t)) => assert_eq!(t, "text"),
        _ => panic!("expected the text"),
    }
    assert_eq!(cursor.current_line_number(), Some(2));
    assert!(matches!(cursor.advance(), Some(Line::ListItem(_))));
    assert_eq!(cursor.current_line_number(), None);
    assert!(cursor.current_line().is_none());
    assert!(cursor.advance().is_none());
    assert!(cursor.advance().is_none());
}

#[test]
fn content_before_the_first_heading_belongs_to_the_root() {
    let content = parse_org_text("intro\n- item\n* h\nbody", TEST_STATES.to_vec()).unwrap();
    assert_eq!(content.root.content_len(), 2);
    assert_eq!(content.root.sub_headlines_len(), 1);
    let objects = content.objects().collect();
    assert_eq!(objects.len(), 4);
    assert!(matches!(objects[0], Object::Content(Content::Text(_))));
    assert!(matches!(objects[1], Object::Content(Content::List(_))));
    assert!(matches!(objects[2], Object::Headline(_)));
    assert!(matches!(objects[3], Object::Content(Content::Text(_))));
    assert_eq!(content.render(), "intro\n- item\n* h\nbody\n");
}

#[test]
fn objects_are_interleaved_in_text_order() {
    let content =
        parse_org_text("* a\nta\n** b\ntb\n*** c\n* d\n- x", TEST_STATES.to_vec()).unwrap();
    let objects = content.objects().collect();
    let kinds: Vec<String> = objects
        .iter()
        .map(|o| match o {
            Object::Headline(g) => format!("H:{}", g.headline.title()),
            Object::Content(Content::Text(lines)) => format!("T:{}", lines.join("|")),
            Object::Content(Content::List(items)) => format!("L:{}", items.len()),
        })
        .collect();
    assert_eq!(kinds, vec!["H:a", "T:ta", "H:b", "T:tb", "H:c", "H:d", "L:1"]);
    let mut walk = content.objects();
    let mut count = 0;
    while let Some(_) = walk.next() {
        count += 1;
    }
    assert_eq!(count, 7);
    assert!(walk.next().is_none());
}

#[test]
fn equal_levels_are_siblings_and_deeper_ones_nest() {
    let content = parse_org_text(
        "** deep first\n* top\n*** skips a level\n** back\n* again",
        TEST_STATES.to_vec(),
    )
    .unwrap();
    let top = content.root.sub_headlines().collect();
    let levels: Vec<usize> = top.iter().map(|g| g.headline.level()).collect();
    assert_eq!(levels, vec![2, 1, 1]);
    let under_top = top[1].sub_headlines().collect();
    let titles: Vec<&str> = under_top.iter().map(|g| g.headline.title()).collect();
    assert_eq!(titles, vec!["skips a level", "back"]);
    for group in content.headlines().collect() {
        for below in group.all_headlines().collect() {
            assert!(below.headline.level() > group.headline.level());
        }
    }
}

#[test]
fn capacity_of_sections() {
    let mut text = String::new();
    for i in 0..LIMIT {
        text.push_str(&format!("* h{}\n", i));
    }
    let content = parse_org_text(&text, TEST_STATES.to_vec()).unwrap();
    assert_eq!(content.root.sub_headlines_len(), LIMIT);
    text.push_str("* one too many\n");
    match parse_org_text(&text, TEST_STATES.to_vec()) {
        Err(OrgError::ParseError(None, msg)) => {
            assert_eq!(msg, "capacity reached in limited vec: limit == 64")
        }
        _ => panic!("expected the capacity error"),
    }
}

#[test]
fn capacity_of_content_blocks() {
    let mut text = String::from("* h\n");
    for i in 0..LIMIT {
        text.push_str(if i % 2 == 0 { "- item\n" } else { "text\n" });
    }
    let content = parse_org_text(&text, TEST_STATES.to_vec()).unwrap();
    assert_eq!(content.root.sub_headlines().collect()[0].content_len(), LIMIT);
    text.push_str("- one too many\n");
    match parse_org_text(&text, TEST_STATES.to_vec()) {
        Err(OrgError::ParseError(None, msg)) => {
            assert_eq!(msg, "capacity reached in limited vec: limit == 64")
        }
        _ => panic!("expected the capacity error"),
    }
}

#[test]
fn capacity_below_the_top() {
    let mut text = String::from("* top\n");
    for i in 0..(LIMIT + 1) {
        text.push_str(&format!("** h{}\n", i));
    }
    assert!(parse_org_text(&text, TEST_STATES.to_vec()).is_err());
}

#[test]
fn limited_vec() {
    let mut v: LimitedVec<u8> = LimitedVec::default();
    assert_eq!(v.limit(), 64);
    for i in 0..64u8 {
        assert!(v.push(i).is_ok());
    }
    match v.push(64) {
        Err(OrgError::ParseError(None, msg)) => {
            assert_eq!(msg, "capacity reached in limited vec: limit == 64")
        }
        _ => panic!("expected the capacity error"),
    }
    let items = v.take();
    assert_eq!(items.len(), 64);
    assert_eq!(items[63], 63);
}
