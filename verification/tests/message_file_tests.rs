use srb2_relay::message_file::{get_last_match, get_lines_num, read_range, split_lines};

#[test]
fn line_counts() {
    assert_eq!(get_lines_num(Some("a\nb\n")), 2);
    assert_eq!(get_lines_num(Some("a\nb")), 2);
    assert_eq!(get_lines_num(Some("")), 0);
    assert_eq!(get_lines_num(Some("\n")), 1);
    assert_eq!(get_lines_num(Some("\n\n")), 2);
    assert_eq!(get_lines_num(Some("a\r\nb")), 2);
    // an unreadable file counts as the one line `-`
    assert_eq!(get_lines_num(None), 1);
}

#[test]
fn line_counts_match_std() {
    for t in ["", "x", "x\n", "\nx", "a\r\n\r\nb\r", "\r", "\n\r\n"] {
        assert_eq!(get_lines_num(Some(t)), t.lines().count(), "input {:?}", t);
    }
}

#[test]
fn lines_drop_endings() {
    assert_eq!(split_lines("a\r\nb\nc\r"), vec!["a", "b", "c\r"]);
    assert_eq!(split_lines("\n"), vec![""]);
}

#[test]
fn range_of_lines() {
    let t = "a\nb\nc\n";
    assert_eq!(read_range(t, 1, 2), "b\n");
    assert_eq!(read_range(t, 0, 10), "a\nb\nc\n");
    assert_eq!(read_range(t, 2, 1), "");
    assert_eq!(read_range(t, 2, 2), "");
    assert_eq!(read_range(t, 5, 9), "");
    assert_eq!(read_range("", 0, 3), "");
}

#[test]
fn range_stops_past_limit() {
    let long = "x".repeat(600);
    let t = format!("{long}\n{long}\n{long}\n");
    let r = read_range(&t, 0, 3);
    assert_eq!(r, format!("{long}\n{long}\n"));
    assert_eq!(r.len(), 1202);
    // exactly 1000 bytes collected does not stop collecting
    let l999 = "y".repeat(999);
    let t = format!("{l999}\nz\nw\n");
    assert_eq!(read_range(&t, 0, 3), format!("{l999}\nz\n"));
}

#[test]
fn last_matching_line() {
    let t = "kick a\nban\nkick b\nok\n";
    assert_eq!(get_last_match(t, "kick"), Some("kick b".to_string()));
    assert_eq!(get_last_match(t, "ban"), Some("ban".to_string()));
    assert_eq!(get_last_match(t, "nope"), None);
    assert_eq!(get_last_match("", "x"), None);
}

#[test]
fn longer_ranges_extend_shorter_ones() {
    let t = "a\nbb\nccc\ndddd\n";
    for e1 in 0..6 {
        for e2 in e1..6 {
            let r1 = read_range(t, 1, e1);
            let r2 = read_range(t, 1, e2);
            assert!(r2.starts_with(&r1), "{} {}", e1, e2);
        }
    }
    // a cut read is a prefix of a longer one too
    let long = "x".repeat(700);
    let t = format!("{long}\n{long}\n{long}\n");
    assert!(read_range(&t, 0, 3).starts_with(&read_range(&t, 0, 1)));
}

#[test]
fn ranges_split_at_any_line() {
    let t = "a\nbb\nccc\ndddd\n";
    for a in 0..5 {
        for b in a..6 {
            for c in b..7 {
                assert_eq!(read_range(t, a, b) + &read_range(t, b, c), read_range(t, a, c));
            }
        }
    }
}

#[test]
fn appended_lines_are_counted() {
    let c = "old\nlines\n";
    let s = "one\n\ntwo\n";
    let joined = format!("{c}{s}");
    assert_eq!(get_lines_num(Some(&joined)), get_lines_num(Some(c)) + 3);
    assert_eq!(get_lines_num(Some(&format!("{s}"))), 3);
}
