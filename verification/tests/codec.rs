use note::note::Note;
use note::number::parse_usize;

fn chars(s: &str) -> Vec<char> {
    s.chars().collect()
}

fn text(v: &[char]) -> String {
    v.iter().collect()
}

#[test]
fn decode_reads_text_and_priority() {
    let n = Note::from("buy milk:3");
    assert_eq!(n.id, 0);
    assert_eq!(n.note, "buy milk");
    assert_eq!(n.priority, 3);
    assert!(n.in_use);
}

#[test]
fn decode_line_without_colon_is_all_text() {
    let n = Note::from("water the plants");
    assert_eq!(n.id, 0);
    assert_eq!(n.note, "water the plants");
    assert_eq!(n.priority, 1);
    assert!(n.in_use);
}

#[test]
fn decode_falls_back_when_priority_is_no_number() {
    let n = Note::from("remember:the:cake");
    assert_eq!(n.note, "remember:the");
    assert_eq!(n.priority, 1);
}

#[test]
fn decode_splits_at_last_colon_only() {
    let n = Note::from("meet at 10:30:5");
    assert_eq!(n.note, "meet at 10:30");
    assert_eq!(n.priority, 5);
}

#[test]
fn decode_accepts_priority_out_of_range() {
    assert_eq!(Note::from("x:0").priority, 0);
    assert_eq!(Note::from("x:42").priority, 42);
    assert_eq!(Note::from("x:007").priority, 7);
    assert_eq!(Note::from("x:+4").priority, 4);
}

#[test]
fn decode_rejects_malformed_numbers() {
    assert_eq!(Note::from("x:").priority, 1);
    assert_eq!(Note::from("x:").note, "x");
    assert_eq!(Note::from("x:-2").priority, 1);
    assert_eq!(Note::from("x:+").priority, 1);
    assert_eq!(Note::from("x: 2").priority, 1);
    assert_eq!(Note::from("x:2 ").priority, 1);
    assert_eq!(Note::from("x:3a").priority, 1);
    assert_eq!(Note::from("x:99999999999999999999999999").priority, 1);
}

#[test]
fn decode_keeps_text_beyond_ascii() {
    let n = Note::from("caf\u{e9} \u{2615}:2");
    assert_eq!(n.note, "caf\u{e9} \u{2615}");
    assert_eq!(n.priority, 2);
}

#[test]
fn decode_empty_text_before_colon() {
    let n = Note::from(":4");
    assert_eq!(n.note, "");
    assert_eq!(n.priority, 4);
}

#[test]
fn encode_writes_text_colon_priority() {
    assert_eq!(text(&Note::encode(&chars("buy milk"), 3)), "buy milk:3");
    assert_eq!(text(&Note::encode(&chars(""), 0)), ":0");
    assert_eq!(text(&Note::encode(&chars("a:b"), 120)), "a:b:120");
}

#[test]
fn encode_then_decode_round_trips() {
    for p in 1..=5usize {
        let line = Note::encode(&chars("call the bank"), p);
        let n = Note::decode(&line);
        assert_eq!(n.note, "call the bank");
        assert_eq!(n.priority, p);
    }
    let line = Note::encode(&chars("big"), usize::MAX);
    assert_eq!(Note::decode(&line).priority, usize::MAX);
}

#[test]
fn parse_usize_matches_std() {
    for s in ["0", "7", "+7", "10", "0010", "", "+", "-", "-1", "1_0", "12x", " 1", "18446744073709551615",
        "18446744073709551616", "99999999999999999999", "++1", "1+"] {
        assert_eq!(parse_usize(&chars(s)), s.parse::<usize>().ok(), "{}", s);
    }
}

#[test]
fn to_string_shows_id_and_text() {
    let mut n = Note::from("buy milk:3");
    n.id = 12;
    assert_eq!(n.to_string(), "12 buy milk");
}
