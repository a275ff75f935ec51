use bwoc_chat::colour::{palette, Rgba};
use bwoc_chat::label::{short, truncate};
use bwoc_chat::session::ActivityItem;

#[test]
fn short_drops_the_prefix_once() {
    assert_eq!(short("agent-ada"), "ada");
    assert_eq!(short("ada"), "ada");
    assert_eq!(short("agent-"), "");
    assert_eq!(short("agent-agent-x"), "agent-x");
    assert_eq!(short("Agent-x"), "Agent-x");
}

#[test]
fn truncate_collapses_and_cuts() {
    assert_eq!(truncate("  a \n b\tc ", 80), "a b c");
    assert_eq!(truncate("abcdef", 6), "abcdef");
    assert_eq!(truncate("abcdef", 5), "abcde…");
    assert_eq!(truncate("ab cd", 3), "ab …");
    assert_eq!(truncate("x", 0), "…");
    assert_eq!(truncate("", 0), "");
    assert_eq!(truncate(&"ก".repeat(81), 80), format!("{}…", "ก".repeat(80)));
}

#[test]
fn truncating_twice_is_truncating_once() {
    for s in ["a  b", "ab cd ef", "", "   ", "long words here and there"] {
        for max in 0..12 {
            let once = truncate(s, max);
            assert_eq!(truncate(&once, max), once);
            assert!(once.chars().count() <= max + 1);
            assert!(!once.contains('\n'));
        }
    }
}

#[test]
fn a_body_is_kept_when_it_adds_something() {
    let eighty = "x".repeat(80);
    let row = ActivityItem::new("s".to_string(), eighty.clone());
    assert_eq!((row.summary.as_str(), row.body.as_str()), ("s", ""));
    assert_eq!(truncate(&eighty, 80), eighty);

    let more = "x".repeat(81);
    let row = ActivityItem::new("s".to_string(), more.clone());
    assert_eq!(row.body, more);

    let wide = format!("a{}b", " ".repeat(80));
    assert_eq!(truncate(&wide, 80), "a b");
    let row = ActivityItem::new("» t a b".to_string(), wide);
    assert_eq!((row.summary.as_str(), row.body.as_str()), ("» t a b", ""));

    let lines = "a\nb";
    let row = ActivityItem::new("s".to_string(), lines.to_string());
    assert_eq!(row.body, lines);

    let row = ActivityItem::new("s".to_string(), "a\tb".to_string());
    assert_eq!(row.body, "");

    let row = ActivityItem::line("only".to_string());
    assert_eq!((row.summary.as_str(), row.body.as_str()), ("only", ""));
}

#[test]
fn colours_cycle_after_six() {
    assert_eq!(
        palette(0),
        Rgba {
            r: 0x9E,
            g: 0xE0,
            b: 0x93,
            a: 255
        }
    );
    assert_eq!(
        palette(5),
        Rgba {
            r: 0x80,
            g: 0xD8,
            b: 0xC0,
            a: 255
        }
    );
    for i in 0..6 {
        assert_eq!(palette(i), palette(i + 6));
        for j in 0..i {
            assert_ne!(palette(i), palette(j));
        }
    }
}
