use blazingjj::highlight::StyledLine;
use blazingjj::highlight::StyledSpan;
use blazingjj::highlight::highlight_matches;
use blazingjj::highlight::search_match_style;
use blazingjj::style::TermColor as Color;
use blazingjj::style::TextStyle as Style;

fn line_from(text: &str) -> StyledLine {
    StyledLine { spans: vec![StyledSpan { content: text.to_owned(), style: Style::default() }] }
}

fn line_text(line: &StyledLine) -> String {
    line.spans.iter().map(|s| s.content.as_str()).collect()
}

fn is_highlighted(line: &StyledLine, idx: usize) -> bool {
    let mut seen = 0;
    for span in &line.spans {
        for _ in span.content.chars() {
            if seen == idx {
                return span.style.bg == Some(Color::Yellow);
            }
            seen += 1;
        }
    }
    false
}

#[test]
fn highlight_matches_marks_only_the_query() {
    let mut line = line_from("zeta apple cart");
    highlight_matches(&mut line, "apple");
    assert_eq!(line_text(&line), "zeta apple cart");
    for i in 0..15 {
        assert_eq!(is_highlighted(&line, i), (5..10).contains(&i), "char {i}");
    }
}

#[test]
fn highlight_matches_is_case_insensitive() {
    let mut line = line_from("Delta APPLE pie");
    highlight_matches(&mut line, "apple");
    for i in 0..15 {
        assert_eq!(is_highlighted(&line, i), (6..11).contains(&i), "char {i}");
    }
}

#[test]
fn highlight_matches_multiple_occurrences() {
    let mut line = line_from("aXaXa");
    highlight_matches(&mut line, "a");
    for i in 0..5 {
        assert_eq!(is_highlighted(&line, i), i % 2 == 0, "char {i}");
    }
}

#[test]
fn highlight_matches_no_match_leaves_line_untouched() {
    let mut line = line_from("nothing here");
    let before = line_text(&line);
    highlight_matches(&mut line, "zzz");
    assert_eq!(line_text(&line), before);
    for i in 0..12 {
        assert!(!is_highlighted(&line, i), "char {i}");
    }
}

#[test]
fn highlight_matches_preserves_existing_span_styles() {
    let mut line = StyledLine {
        spans: vec![
            StyledSpan { content: "foo".to_owned(), style: Style::default().fg(Color::Red) },
            StyledSpan { content: "bar".to_owned(), style: Style::default().fg(Color::Blue) },
        ],
    };
    highlight_matches(&mut line, "oba");
    assert_eq!(line_text(&line), "foobar");
    for i in 0..6 {
        assert_eq!(is_highlighted(&line, i), (2..5).contains(&i), "char {i}");
    }
    assert_eq!(line.spans.first().unwrap().style.fg, Some(Color::Red));
    assert_eq!(line.spans.last().unwrap().style.fg, Some(Color::Blue));
}

#[test]
fn highlight_matches_empty_query_is_noop() {
    let mut line = line_from("anything");
    let before = line_text(&line);
    highlight_matches(&mut line, "");
    assert_eq!(line_text(&line), before);
    for i in 0..8 {
        assert!(!is_highlighted(&line, i));
    }
}

#[test]
fn highlight_matches_marks_overlapping_occurrences() {
    let mut line = line_from("aaa");
    highlight_matches(&mut line, "aa");
    for i in 0..3 {
        assert!(is_highlighted(&line, i), "char {i}");
    }
    assert_eq!(line.spans.len(), 1);
}

#[test]
fn highlight_matches_when_lowercasing_grows_the_text() {
    let mut line = line_from("\u{130} apple");
    highlight_matches(&mut line, "apple");
    assert_eq!(line_text(&line), "\u{130} apple");
    for i in 0..7 {
        assert_eq!(is_highlighted(&line, i), (2..7).contains(&i), "char {i}");
    }
}

#[test]
fn highlight_matches_when_lowercasing_grows_the_text_inside_the_match() {
    let mut line = line_from("x\u{130}y");
    highlight_matches(&mut line, "i\u{307}");
    assert!(!is_highlighted(&line, 0));
    assert!(is_highlighted(&line, 1));
    assert!(!is_highlighted(&line, 2));
}

#[test]
fn highlight_matches_uses_black_on_yellow() {
    let mut line = StyledLine {
        spans: vec![StyledSpan { content: "foo".to_owned(), style: Style::default().fg(Color::Red) }],
    };
    highlight_matches(&mut line, "o");
    assert_eq!(line.spans.len(), 2);
    assert_eq!(line.spans[0].content, "f");
    assert_eq!(line.spans[0].style, Style::default().fg(Color::Red));
    assert_eq!(line.spans[1].content, "oo");
    assert_eq!(line.spans[1].style, Style::default().fg(Color::Black).bg(Color::Yellow));
}

#[test]
fn search_match_style_is_black_on_yellow() {
    let style = search_match_style();
    assert_eq!(style.fg, Some(Color::Black));
    assert_eq!(style.bg, Some(Color::Yellow));
    assert_eq!(style.underline_color, None);
    assert_eq!(style.add_modifier, 0);
    assert_eq!(style.sub_modifier, 0);
}

#[test]
fn highlight_matches_twice_changes_nothing() {
    let mut line = StyledLine {
        spans: vec![
            StyledSpan { content: "Foo".to_owned(), style: Style::default().fg(Color::Red) },
            StyledSpan { content: "bar foo".to_owned(), style: Style::default() },
        ],
    };
    highlight_matches(&mut line, "foo");
    let once: Vec<(String, Style)> = line.spans.iter().map(|s| (s.content.clone(), s.style)).collect();
    highlight_matches(&mut line, "foo");
    let twice: Vec<(String, Style)> = line.spans.iter().map(|s| (s.content.clone(), s.style)).collect();
    assert_eq!(once, twice);
    assert_eq!(once.len(), 3);
}

#[test]
fn patch_replaces_set_colors_and_swaps_modifiers() {
    let base = Style { fg: Some(Color::Red), bg: Some(Color::Blue), underline_color: None, add_modifier: 0b01, sub_modifier: 0b10 };
    let over = Style { fg: None, bg: Some(Color::Rgb(1, 2, 3)), underline_color: Some(Color::Indexed(7)), add_modifier: 0b10, sub_modifier: 0b01 };
    let p = base.patch(over);
    assert_eq!(p.fg, Some(Color::Red));
    assert_eq!(p.bg, Some(Color::Rgb(1, 2, 3)));
    assert_eq!(p.underline_color, Some(Color::Indexed(7)));
    assert_eq!(p.add_modifier, 0b10);
    assert_eq!(p.sub_modifier, 0b01);
    assert_eq!(p.patch(over), p);
}
