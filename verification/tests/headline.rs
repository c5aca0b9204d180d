use org::headline::{parse_headline, parse_status, parse_tags, Headline, HeadlineGroup};
use org::parser::parse_org_text;

const TEST_STATES: [&str; 3] = ["TODO", "STARTED", "DONE"];

const COUNT_UP_HEADLINES: &str = "* 1
** 2
* 3
** 4
* 5
* 6
** 7
*** 8
** 9
*** 10
** 11
* 12";

const GOOD_HEADLINES: [&str; 3] = [
    "* a good headline",
    "* TODO a good headline with a todo",
    "** a second level headline",
];

#[test]
fn test_parsing() {
    assert!(GOOD_HEADLINES
        .iter()
        .all(|headline_str| Headline::parse(headline_str, &TEST_STATES).is_some()))
}

#[test]
fn headline_iterator() {
    let content = parse_org_text(COUNT_UP_HEADLINES, TEST_STATES.to_vec())
        .expect("could not parse test string");

    let sub_headlines: Vec<&HeadlineGroup> = content.root.sub_headlines().collect();

    assert!(
        sub_headlines.len() == 5,
        "wrong number of sub-headlines. expected: 5, found {}",
        sub_headlines.len()
    );

    let headlines: Vec<&HeadlineGroup> = content.headlines().collect();

    assert!(
        headlines.len() == 12,
        "wrong number of headlines. expected: 12, found {}",
        headlines.len()
    );
}

#[test]
fn headlines_come_in_text_order() {
    let content = parse_org_text(COUNT_UP_HEADLINES, TEST_STATES.to_vec()).unwrap();
    let titles: Vec<String> = content
        .headlines()
        .collect()
        .iter()
        .map(|group| group.headline.title().to_string())
        .collect();
    let expected: Vec<String> = (1..=12).map(|n| n.to_string()).collect();
    assert_eq!(titles, expected);
}

#[test]
fn headline_walk_step_by_step() {
    let content = parse_org_text("* a\n** b\n* c", TEST_STATES.to_vec()).unwrap();
    let mut walk = content.headlines();
    assert_eq!(walk.next().unwrap().headline.title(), "a");
    assert_eq!(walk.next().unwrap().headline.title(), "b");
    assert_eq!(walk.next().unwrap().headline.title(), "c");
    assert!(walk.next().is_none());
    assert!(walk.next().is_none());
}

#[test]
fn root_headline() {
    let root = Headline::new_root();
    assert_eq!(root.level(), 0);
    assert_eq!(root.title(), "root");
    assert!(root.status().is_none());
    assert!(root.tags().is_none());
}

#[test]
fn headline_needs_a_marker() {
    assert!(Headline::parse("no marker", &TEST_STATES).is_none());
    assert!(Headline::parse(" * indented", &TEST_STATES).is_none());
    assert!(Headline::parse("", &TEST_STATES).is_none());
    assert!(parse_headline("- item", &TEST_STATES).is_none());
}

#[test]
fn headline_level_counts_markers() {
    let h = Headline::parse("*** third level header", &TEST_STATES).unwrap();
    assert_eq!(h.level(), 3);
    assert_eq!(h.title(), "third level header");
    let bare = Headline::parse("**", &TEST_STATES).unwrap();
    assert_eq!(bare.level(), 2);
    assert_eq!(bare.title(), "");
}

#[test]
fn tag_extraction_boundary() {
    let h = Headline::parse("* TODO task header: with_tags :tag:anothertag:", &TEST_STATES)
        .unwrap();
    assert_eq!(h.level(), 1);
    assert_eq!(h.status(), Some("TODO"));
    assert_eq!(h.title(), "task header: with_tags");
    assert_eq!(
        h.tags().unwrap(),
        &vec!["tag".to_string(), "anothertag".to_string()]
    );
}

#[test]
fn tags_need_their_own_last_word() {
    let h = Headline::parse("* a simple header", &TEST_STATES).unwrap();
    assert!(h.tags().is_none());
    assert_eq!(h.title(), "a simple header");
    let one_word = Headline::parse("* :tag:", &TEST_STATES).unwrap();
    assert!(one_word.tags().is_none());
    assert_eq!(one_word.title(), ":tag:");
}

#[test]
fn tags_without_closing_colon() {
    let h = Headline::parse("* STARTED first level started :with:tags", &TEST_STATES).unwrap();
    assert_eq!(h.status(), Some("STARTED"));
    assert_eq!(h.title(), "first level started");
    assert_eq!(h.tags().unwrap(), &vec!["with".to_string(), "tags".to_string()]);
}

#[test]
fn parse_tags_directly() {
    let (tags, rest) = parse_tags("title here :a:b:").unwrap();
    assert_eq!(tags, vec!["a".to_string(), "b".to_string()]);
    assert_eq!(rest, "title here");
    assert!(parse_tags("title").is_none());
    assert!(parse_tags("title ::").is_none());
    assert!(parse_tags("").is_none());
    let (tags, rest) = parse_tags("  padded   :x:  ").unwrap();
    assert_eq!(tags, vec!["x".to_string()]);
    assert_eq!(rest, "padded");
}

#[test]
fn status_prefix_precedence() {
    let states = ["TODO", "STARTED", "DONE"];
    assert_eq!(parse_status("STARTEDfoo", &states), Some(("STARTED", "foo")));
    assert_eq!(parse_status("STARTED foo", &states), Some(("STARTED", "foo")));
    assert_eq!(parse_status("started foo", &states), None);
    assert_eq!(parse_status("foo TODO", &states), None);
}

#[test]
fn status_order_decides_between_overlapping_keywords() {
    assert_eq!(
        parse_status("DONEISH thing", &["DONE", "DONEISH"]),
        Some(("DONE", "ISH thing"))
    );
    assert_eq!(
        parse_status("DONEISH thing", &["DONEISH", "DONE"]),
        Some(("DONEISH", "thing"))
    );
}

#[test]
fn status_with_no_keywords() {
    assert_eq!(parse_status("TODO x", &[]), None);
    let h = Headline::parse("* TODO x", &[]).unwrap();
    assert!(h.status().is_none());
    assert_eq!(h.title(), "TODO x");
}

#[test]
fn headline_rendering_table() {
    let states = TEST_STATES;
    let status_only = Headline::parse("** DONE finished", &states).unwrap();
    assert_eq!(status_only.render(), "** DONE finished");
    let tags_only = Headline::parse("* title :a:b:", &states).unwrap();
    assert_eq!(tags_only.render(), "* title a:b");
    let both = Headline::parse("* TODO title :a:b:", &states).unwrap();
    assert_eq!(both.render(), "* TODO title :a:b:");
    let neither = Headline::parse("*** plain", &states).unwrap();
    assert_eq!(neither.render(), "*** plain");
}

#[test]
fn group_counts_and_render() {
    let content = parse_org_text("* a\ntext\n- x\n** b\n** c", TEST_STATES.to_vec()).unwrap();
    let top: Vec<&HeadlineGroup> = content.root.sub_headlines().collect();
    assert_eq!(top.len(), 1);
    let a = top[0];
    assert_eq!(a.content_len(), 2);
    assert_eq!(a.content().len(), 2);
    assert_eq!(a.sub_headlines_len(), 2);
    assert_eq!(a.sub_objects().collect().len(), 4);
    assert_eq!(a.all_headlines().collect().len(), 2);
    assert_eq!(a.all_objects().collect().len(), 4);
    assert_eq!(a.render(), "* a\ntext\n- x\n** b\n** c\n");
    assert_eq!(content.root.content_len(), 0);
    assert_eq!(content.root.sub_headlines_len(), 1);
}

#[test]
fn tags_behind_other_whitespace_than_a_space() {
    let h = Headline::parse("* a\tb", &TEST_STATES).unwrap();
    assert_eq!(h.title(), "a");
    assert_eq!(h.tags().unwrap(), &vec!["\tb".to_string()]);
    let colon = Headline::parse("* one two:three", &TEST_STATES).unwrap();
    assert_eq!(colon.title(), "one");
    assert_eq!(colon.tags().unwrap(), &vec!["three".to_string()]);
}
