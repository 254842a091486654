use note::actions::{edit, stick, toss, Toss};
use note::arguments::{get_env_arg, EnvArgs};
use note::util::{append_note, edit_note, read_to_notes, write_notes};

fn words(ws: &[&str]) -> Vec<String> {
    ws.iter().map(|w| w.to_string()).collect()
}

fn summary(content: &str, unwanted: &[usize]) -> Vec<(usize, String, usize, bool)> {
    read_to_notes(content, unwanted).into_iter().map(|n| (n.id, n.note, n.priority, n.in_use)).collect()
}

#[test]
fn list_numbers_notes_from_one() {
    let got = summary("a note:2\nsecond\nthird one:5\n", &[]);
    assert_eq!(
        got,
        vec![
            (1, "a note".to_string(), 2, true),
            (2, "second".to_string(), 1, true),
            (3, "third one".to_string(), 5, true),
        ]
    );
}

#[test]
fn list_of_empty_store_is_empty() {
    assert!(read_to_notes("", &[]).is_empty());
    assert!(read_to_notes("\n", &[]).is_empty());
    assert!(read_to_notes("\n\n\r\n", &[]).is_empty());
}

#[test]
fn list_skips_blank_lines() {
    let with_blanks = "\nfirst:1\n\n\nsecond:2\nx\n\r\nthird:3\n\n";
    let without = "first:1\nsecond:2\nthird:3\n";
    assert_eq!(summary(with_blanks, &[]), summary(without, &[]));
    assert_eq!(summary(with_blanks, &[]).len(), 3);
}

#[test]
fn list_skips_blank_last_line() {
    assert_eq!(summary("first:1\nx", &[]), summary("first:1\n", &[]));
    assert_eq!(summary("first:1\n\r", &[]), summary("first:1\n", &[]));
    assert_eq!(summary("first:1\nx\r\n", &[]), summary("first:1\n", &[]));
    assert_eq!(summary("first:1\nx\r", &[]).len(), 2);
}

#[test]
fn list_counts_bytes_when_skipping() {
    let got = summary("\u{e9}\nab\n", &[]);
    assert_eq!(got, vec![(1, "\u{e9}".to_string(), 1, true), (2, "ab".to_string(), 1, true)]);
}

#[test]
fn list_reads_last_line_without_line_feed() {
    let got = summary("one:2\ntwo:3", &[]);
    assert_eq!(got, vec![(1, "one".to_string(), 2, true), (2, "two".to_string(), 3, true)]);
}

#[test]
fn list_drops_carriage_return_before_line_feed() {
    let got = summary("one:2\r\ntwo:3\r\n", &[]);
    assert_eq!(got, vec![(1, "one".to_string(), 2, true), (2, "two".to_string(), 3, true)]);
    let same: Vec<String> = "one:2\r\ntwo:3\r".lines().map(|l| l.to_string()).collect();
    let ours = edit_note("one:2\r\ntwo:3\r", 0, &[], 1, true);
    assert_eq!(ours, same);
}

#[test]
fn list_flags_unwanted_ids() {
    let got = summary("a:1\nb:2\nc:3\n", &[2, 7]);
    assert_eq!(
        got,
        vec![(1, "a".to_string(), 1, true), (2, "b".to_string(), 2, false), (3, "c".to_string(), 3, true)]
    );
}

#[test]
fn append_then_list() {
    let mut store = String::new();
    store.push_str(&append_note("buy milk:3"));
    assert_eq!(store, "buy milk:3\n");
    assert_eq!(summary(&store, &[]), vec![(1, "buy milk".to_string(), 3, true)]);
}

#[test]
fn stick_joins_words_and_priority() {
    assert_eq!(stick(&words(&["buy", "milk"]), 3), "buy milk:3");
    assert_eq!(stick(&words(&["solo"]), 1), "solo:1");
    assert_eq!(stick(&[], 5), ":5");
}

#[test]
fn edit_without_priority_keeps_prior_priority() {
    assert_eq!(edit("call mom:4\n", 1, &words(&["email", "mom"]), 1, false), "email mom:4\n");
    assert_eq!(edit_note("call mom:4\n", 1, &words(&["email", "mom"]), 1, false), vec!["email mom:4".to_string()]);
}

#[test]
fn edit_with_priority_and_words_replaces_both() {
    let got = edit_note("a:1\ncall mom:4\nc:3\n", 2, &words(&["email", "mom"]), 2, true);
    assert_eq!(got, vec!["a:1".to_string(), "email mom:2".to_string(), "c:3".to_string()]);
}

#[test]
fn edit_with_priority_and_no_words_keeps_text() {
    let got = edit_note("a:1\ncall mom:4\nc:3\n", 2, &[], 5, true);
    assert_eq!(got, vec!["a:1".to_string(), "call mom:5".to_string(), "c:3".to_string()]);
}

#[test]
fn edit_without_priority_on_line_without_one_writes_default() {
    let got = edit_note("plain\n", 1, &words(&["new"]), 4, false);
    assert_eq!(got, vec!["new:1".to_string()]);
}

#[test]
fn edit_of_unknown_id_changes_nothing_but_blank_lines() {
    let got = edit("a:1\n\nplain\nc:x\n", 9, &words(&["zzz"]), 2, true);
    assert_eq!(got, "a:1\nplain\nc:x\n");
    assert_eq!(edit("a:1\n", 0, &words(&["zzz"]), 2, true), "a:1\n");
}

#[test]
fn edit_of_empty_store_writes_one_line_feed() {
    assert_eq!(edit("", 1, &words(&["zzz"]), 2, true), "\n");
}

#[test]
fn write_joins_lines_with_line_feeds() {
    assert_eq!(write_notes(&words(&["a:1", "b:2"])), "a:1\nb:2\n");
    assert_eq!(write_notes(&words(&["a:1"])), "a:1\n");
    assert_eq!(write_notes(&[]), "\n");
}

#[test]
fn toss_one_of_three_renumbers_the_rest() {
    let store = "a:1\nb:2\nc:3\n";
    match toss(store, &[2], false) {
        Toss::Rewrite { removed, kept } => {
            assert_eq!(removed, vec!["b".to_string()]);
            assert_eq!(kept, vec!["a:1".to_string(), "c:3".to_string()]);
            let after = write_notes(&kept);
            assert_eq!(
                summary(&after, &[]),
                vec![(1, "a".to_string(), 1, true), (2, "c".to_string(), 3, true)]
            );
        }
        Toss::Clear => panic!("store was cleared"),
    }
}

#[test]
fn toss_keeps_lines_as_they_are() {
    match toss("plain\nwith:colon:x\nlast:2", &[3, 3], false) {
        Toss::Rewrite { removed, kept } => {
            assert_eq!(removed, vec!["last".to_string()]);
            assert_eq!(kept, vec!["plain".to_string(), "with:colon:x".to_string()]);
        }
        Toss::Clear => panic!("store was cleared"),
    }
}

#[test]
fn toss_of_unknown_id_removes_nothing() {
    match toss("a:1\nb:2\n", &[5], false) {
        Toss::Rewrite { removed, kept } => {
            assert!(removed.is_empty());
            assert_eq!(kept, vec!["a:1".to_string(), "b:2".to_string()]);
        }
        Toss::Clear => panic!("store was cleared"),
    }
}

#[test]
fn toss_all_clears_the_store() {
    assert!(matches!(toss("a:1\nb:2\n", &[], true), Toss::Clear));
    assert!(matches!(toss("a:1\nb:2\n", &[1], true), Toss::Clear));
    assert!(read_to_notes("", &[]).is_empty());
}

#[test]
fn toss_on_store_without_notes_clears_it() {
    assert!(matches!(toss("", &[1], false), Toss::Clear));
    assert!(matches!(toss("\n\n", &[], false), Toss::Clear));
}

#[test]
fn env_arg_prefers_what_was_found() {
    assert_eq!(get_env_arg(EnvArgs::P5Color, Some("cyan".to_string())), "cyan");
    assert_eq!(get_env_arg(EnvArgs::P5Color, None), "red");
    assert_eq!(get_env_arg(EnvArgs::Message, None), "NOTES:");
    assert_eq!(get_env_arg(EnvArgs::P1Style, None), "normal");
    assert_eq!(EnvArgs::EmptyMessageStyle.key(), "NOTE_EMPTY_MESSAGE_STYLE");
    assert_eq!(EnvArgs::P4Color.default_value(), "yellow");
}

#[test]
fn flag_is_found_under_either_name() {
    let args: Vec<String> = ["note", "edit", "2", "--priority", "3"].iter().map(|a| a.to_string()).collect();
    assert!(note::arguments::is_arg_set(&args, "-p", "--priority"));
    let short: Vec<String> = ["note", "edit", "2", "-p", "3"].iter().map(|a| a.to_string()).collect();
    assert!(note::arguments::is_arg_set(&short, "-p", "--priority"));
    let none: Vec<String> = ["note", "edit", "2", "-pp", "priority"].iter().map(|a| a.to_string()).collect();
    assert!(!note::arguments::is_arg_set(&none, "-p", "--priority"));
    assert!(!note::arguments::is_arg_set(&[], "-p", "--priority"));
}
