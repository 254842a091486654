use note::arguments::EnvArgs;
use note::layout::{get_bracket_locations, get_styled_notes, lay_out, lay_out_notes, widest_end};
use note::listing::{list, sort_by_priority, underline};
use note::note::Note;
use note::style::{parse_color, parse_style, style_string, Color, Style};
use note::util::read_to_notes;

fn notes(lines: &[&str]) -> Vec<Note> {
    let mut content = String::new();
    for line in lines {
        content.push_str(line);
        content.push('\n');
    }
    read_to_notes(&content, &[])
}

fn texts(notes: &[Note], show_id: bool) -> Vec<String> {
    get_styled_notes(notes, show_id).into_iter().map(|s| s.text).collect()
}

#[test]
fn tag_ends_are_found_at_the_start_only() {
    let ns = notes(&[
        "[work] report:2",
        "[home +] laundry",
        "plain",
        "x [a] late tag",
        "[a1] digit",
        "[] empty",
        "[open end",
        "[a] \u{e9}t\u{e9}",
        "[a\u{a0}b] wide blank",
        "[\u{e9}] not a letter here",
    ]);
    assert_eq!(
        get_bracket_locations(&ns),
        vec![Some(6), Some(8), None, None, None, None, None, Some(3), Some(6), None]
    );
}

#[test]
fn widest_end_is_the_greatest() {
    assert_eq!(widest_end(&[]), 0);
    assert_eq!(widest_end(&[None, None]), 0);
    assert_eq!(widest_end(&[Some(3), None, Some(8), Some(6)]), 8);
}

#[test]
fn tags_are_padded_to_one_width() {
    let ns = notes(&["[work] report:2", "[home +] laundry", "plain"]);
    assert_eq!(texts(&ns, false), vec!["[work]   report", "[home +] laundry", "plain"]);
}

#[test]
fn ids_stand_before_tag_or_text() {
    let ns = notes(&["[work] report:2", "[home +] laundry", "plain"]);
    assert_eq!(texts(&ns, true), vec!["1[work]   report", "2[home +] laundry", "3 plain"]);
}

#[test]
fn notes_without_tags_are_shown_as_they_are() {
    let ns = notes(&["one:2", "two"]);
    assert_eq!(texts(&ns, false), vec!["one", "two"]);
    assert_eq!(texts(&ns, true), vec!["1 one", "2 two"]);
    assert!(get_styled_notes(&[], true).is_empty());
}

#[test]
fn padding_counts_bytes() {
    let ns = notes(&["[a\u{a0}b] x", "[a] \u{e9}"]);
    assert_eq!(texts(&ns, false), vec!["[a\u{a0}b] x", "[a]    \u{e9}"]);
}

#[test]
fn lay_out_takes_the_end_it_is_given() {
    let mut n = Note::from("abcdef:1");
    n.id = 7;
    assert_eq!(lay_out(&n, 2, 5, false), "ab   cdef");
    assert_eq!(lay_out(&n, 2, 2, true), "7abcdef");
    assert_eq!(lay_out(&n, 0, 5, true), "7 abcdef");
    assert_eq!(lay_out(&n, 0, 5, false), "abcdef");
    assert_eq!(lay_out(&n, 6, 7, false), "abcdef ");
    let out = lay_out_notes(&[n], &[Some(3)], false);
    assert_eq!(out[0].text, "abcdef");
}

#[test]
fn settings_go_by_priority() {
    let ns = notes(&["a:5", "b:4", "c:3", "d:2", "e:1", "f:0", "g:9", "hh"]);
    let got: Vec<(EnvArgs, EnvArgs)> =
        get_styled_notes(&ns, false).into_iter().map(|s| (s.color, s.style)).collect();
    assert_eq!(
        got,
        vec![
            (EnvArgs::P5Color, EnvArgs::P5Style),
            (EnvArgs::P4Color, EnvArgs::P3Style),
            (EnvArgs::P3Color, EnvArgs::P3Style),
            (EnvArgs::P2Color, EnvArgs::P2Style),
            (EnvArgs::P1Color, EnvArgs::P1Style),
            (EnvArgs::P1Color, EnvArgs::P1Style),
            (EnvArgs::P1Color, EnvArgs::P1Style),
            (EnvArgs::P1Color, EnvArgs::P1Style),
        ]
    );
}

#[test]
fn sort_is_by_priority_and_keeps_ties_in_order() {
    let ns = notes(&["a:1", "b:3", "c:2", "d:3", "e:5", "f:1"]);
    let got: Vec<(usize, String)> = sort_by_priority(ns).into_iter().map(|n| (n.id, n.note)).collect();
    assert_eq!(
        got,
        vec![
            (5, "e".to_string()),
            (2, "b".to_string()),
            (4, "d".to_string()),
            (3, "c".to_string()),
            (1, "a".to_string()),
            (6, "f".to_string()),
        ]
    );
    assert!(sort_by_priority(Vec::new()).is_empty());
}

#[test]
fn list_orders_lays_out_and_limits() {
    let lines = ["[x] a:1", "b:3", "[long] c:2"];
    let plain: Vec<String> = list(notes(&lines), true, false, None).into_iter().map(|s| s.text).collect();
    assert_eq!(plain, vec!["1[x]    a", "2 b", "3[long] c"]);
    let sorted: Vec<String> = list(notes(&lines), false, true, Some(2)).into_iter().map(|s| s.text).collect();
    assert_eq!(sorted, vec!["b", "[long] c"]);
    assert!(list(notes(&lines), false, true, Some(0)).is_empty());
    assert_eq!(list(notes(&lines), false, false, Some(3)).len(), 3);
}

#[test]
fn underline_has_one_dash_per_byte() {
    assert_eq!(underline("NOTES:"), "------");
    assert_eq!(underline(""), "");
    assert_eq!(underline("\u{e9}t\u{e9}"), "-----");
}

#[test]
fn colors_and_styles_go_by_name() {
    assert_eq!(parse_color("black"), Some(Color::Black));
    assert_eq!(parse_color("blue"), Some(Color::Blue));
    assert_eq!(parse_color("cyan"), Some(Color::Cyan));
    assert_eq!(parse_color("green"), Some(Color::Green));
    assert_eq!(parse_color("magenta"), Some(Color::Magenta));
    assert_eq!(parse_color("red"), Some(Color::Red));
    assert_eq!(parse_color("white"), Some(Color::White));
    assert_eq!(parse_color("yellow"), Some(Color::Yellow));
    assert_eq!(parse_color("bright black"), Some(Color::BrightBlack));
    assert_eq!(parse_color("bright blue"), Some(Color::BrightBlue));
    assert_eq!(parse_color("bright cyan"), Some(Color::BrightCyan));
    assert_eq!(parse_color("bright green"), Some(Color::BrightGreen));
    assert_eq!(parse_color("bright magenta"), Some(Color::BrightMagenta));
    assert_eq!(parse_color("bright red"), Some(Color::BrightRed));
    assert_eq!(parse_color("bright white"), Some(Color::BrightWhite));
    assert_eq!(parse_color("bright yellow"), Some(Color::BrightYellow));
    assert_eq!(parse_color(""), None);
    assert_eq!(parse_color("Red"), None);
    assert_eq!(parse_color("brightred"), None);
    assert_eq!(parse_style("bold"), Some(Style::Bold));
    assert_eq!(parse_style("italic"), Some(Style::Italic));
    assert_eq!(parse_style("underline"), Some(Style::Underline));
    assert_eq!(parse_style("normal"), None);
}

#[test]
fn style_string_keeps_the_text() {
    let s = style_string("hello", "green", "bold");
    assert_eq!(s.text, "hello");
    assert_eq!(s.color, Some(Color::Green));
    assert_eq!(s.style, Some(Style::Bold));
    let plain = style_string("hello", "", "normal");
    assert_eq!(plain.text, "hello");
    assert_eq!(plain.color, None);
    assert_eq!(plain.style, None);
}
