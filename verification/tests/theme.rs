use kairotui::tab::{render_tab_list, ListType};
use kairotui::theme::{term_color, unicode_icon, TERM_COLORS_REGEX};

#[test]
fn colours_of_the_theme_by_name() {
    assert_eq!(term_color("Red"), Some(0xfb4934));
    assert_eq!(term_color("Green"), Some(0xb8bb26));
    assert_eq!(term_color("Yellow"), Some(0xfabd2f));
    assert_eq!(term_color("Blue"), Some(0x83a598));
    assert_eq!(term_color("Purple"), Some(0xd3869b));
    assert_eq!(term_color("Aqua"), Some(0x8ec07c));
    assert_eq!(term_color("Gray"), Some(0x928374));
    assert_eq!(term_color("Orange"), Some(0xfe8019));
    assert_eq!(term_color("red"), None);
    assert_eq!(term_color(""), None);
}

#[test]
fn every_named_colour_is_in_the_alternation() {
    let inner = &TERM_COLORS_REGEX[1..TERM_COLORS_REGEX.len() - 1];
    let mut count = 0;
    for name in inner.split('|') {
        assert!(term_color(name).is_some(), "{}", name);
        count += 1;
    }
    assert_eq!(count, 8);
}

#[test]
fn icons_are_a_character_and_a_space() {
    assert_eq!(unicode_icon(0xf02c), "\u{f02c} ");
    assert_eq!(unicode_icon(0x41), "A ");
    assert_eq!(unicode_icon(0xD800), "X ");
    assert_eq!(unicode_icon(0x110000), "X ");
    assert_eq!(unicode_icon(0x10FFFF), "\u{10FFFF} ");
}

#[test]
fn tabs_have_titles_and_lines() {
    assert_eq!(ListType::Log.to_str(), "| Logs |");
    assert_eq!(ListType::Tag.to_str(), "| Tags |");
    assert_eq!(ListType::PastLog.to_str(), "| Past Logs |");
    assert_eq!(ListType::default(), ListType::Log);
    assert_eq!(ListType::TYPES, [ListType::Log, ListType::Tag, ListType::PastLog]);
    for i in 0..3 {
        assert_eq!(ListType::at(i), ListType::TYPES[i]);
    }
    let lines = render_tab_list();
    assert_eq!(lines.len(), 3);
    let expected = [("Logs", 0x83a598), ("Tags", 0xfb4934), ("Past Logs", 0x8ec07c)];
    for i in 0..3 {
        assert_eq!(lines[i].len(), 2);
        assert_eq!(lines[i][0].text, "\u{f02c} ");
        assert_eq!(lines[i][0].color, Some(expected[i].1));
        assert_eq!(lines[i][1].text, expected[i].0);
        assert_eq!(lines[i][1].color, None);
    }
    let span = ListType::PastLog.to_span();
    assert_eq!(span[1].text, "Past Logs");
}
