use ivly::tags::{AddTag, Colour, FilterTag, NegTag, Style, Tags};

fn names(tags: &Tags) -> Vec<(String, String, Option<String>)> {
    tags.iter()
        .iter()
        .map(|(t, s)| (t.clone(), s.fg.clone(), s.bg.clone()))
        .collect()
}

#[test]
fn parse_tag_prefixes() {
    assert_eq!(AddTag::parse("+x").unwrap().as_str(), "x");
    assert_eq!(AddTag::parse("x").err(), Some("tag must start with +"));
    assert_eq!(AddTag::parse("").err(), Some("tag must start with +"));
    assert_eq!(NegTag::parse("/x").unwrap().into_string(), "x");
    assert_eq!(NegTag::parse("+x").err(), Some("negation tag must start with /"));
    let add: FilterTag = "+work".parse().unwrap();
    assert!(!add.is_neg());
    assert_eq!(add.as_str(), "work");
    let neg: FilterTag = "/work".parse().unwrap();
    assert!(neg.is_neg());
    assert_eq!(neg.into_string(), "work");
    assert_eq!(FilterTag::parse("work").err(), Some("filter tag must start with + or /"));
    assert_eq!(FilterTag::parse("+").unwrap().as_str(), "");
}

#[test]
fn filter_on_tags() {
    let tags = vec!["a".to_string(), "b".to_string()];
    assert!(FilterTag::parse("+a").unwrap().filter(&tags));
    assert!(!FilterTag::parse("+c").unwrap().filter(&tags));
    assert!(!FilterTag::parse("/b").unwrap().filter(&tags));
    assert!(FilterTag::parse("/c").unwrap().filter(&tags));
    assert!(FilterTag::parse("/c").unwrap().filter(&[]));
    assert!(!FilterTag::parse("+c").unwrap().filter(&[]));
}

#[test]
fn tag_styles_in_tag_order() {
    let mut tags = Tags::default();
    tags.set_fg("tag2", Colour::Red);
    tags.set_fg("tag1", Colour::Blue);
    tags.set_bg("tag2", Colour::Blue);
    tags.set_bg("tag3", Colour::Green);
    assert_eq!(
        names(&tags),
        vec![
            ("tag1".to_string(), "blue".to_string(), None),
            ("tag2".to_string(), "red".to_string(), Some("blue".to_string())),
            ("tag3".to_string(), "green".to_string(), Some("green".to_string())),
        ]
    );
    assert_eq!(tags.get("tag2").map(|s| s.fg.clone()), Some("red".to_string()));
    assert!(tags.get("tag4").is_none());
    tags.set_fg("tag1", Colour::BrightWhite);
    assert_eq!(tags.get("tag1").map(|s| s.fg.clone()), Some("bright white".to_string()));
    assert_eq!(tags.iter().len(), 3);
}

#[test]
fn tag_order_is_string_order() {
    let mut tags = Tags::new();
    for t in ["b", "a", "ab", "", "B", "é", "aa"] {
        tags.set_fg(t, Colour::Cyan);
    }
    let order: Vec<String> = tags.iter().iter().map(|(t, _)| t.clone()).collect();
    let mut expected: Vec<String> = ["b", "a", "ab", "", "B", "é", "aa"].iter().map(|s| s.to_string()).collect();
    expected.sort();
    assert_eq!(order, expected);
}

#[test]
fn colour_names_and_default_style() {
    assert_eq!(Colour::BrightBlack.name(), "bright black");
    assert_eq!(Colour::Magenta.name(), "magenta");
    assert_eq!(Colour::TrueColor { r: 1, g: 2, b: 3 }.name(), "black");
    let s = Style::default();
    assert_eq!(s.fg, "green");
    assert!(s.bg.is_none());
}

#[test]
fn style_table_column_widths() {
    let mut tags = Tags::new();
    assert_eq!(tags.column_widths(), (3, 2, 2));
    tags.set_fg("tag1", Colour::Blue);
    tags.set_fg("tag2", Colour::Red);
    tags.set_bg("tag2", Colour::Blue);
    tags.set_bg("tag3", Colour::Green);
    assert_eq!(tags.column_widths(), (4, 5, 5));
    tags.set_bg("é", Colour::BrightMagenta);
    assert_eq!(tags.column_widths(), (4, 5, 14));
    tags.set_style("t", Some("x"), None);
    assert_eq!(tags.get("t").map(|s| (s.fg.clone(), s.bg.clone())), Some(("x".to_string(), None)));
}
