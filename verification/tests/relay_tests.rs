use srb2_relay::relay::{replace_emojis, RelayAction, RelayCursor, RelayEvent};

#[test]
fn emoji_codes_become_markup() {
    let es = vec![("smile".to_string(), 42u64)];
    assert_eq!(replace_emojis("hi :smile: :x:", &es), "hi <:smile:42> :x:");
    assert_eq!(replace_emojis("no emoji", &es), "no emoji");
    let two = vec![("a".to_string(), 1u64), ("b".to_string(), 20u64)];
    assert_eq!(replace_emojis(":a::b:", &two), "<:a:1><:b:20>");
}

#[test]
fn markdown_symbols_are_escaped() {
    let none: Vec<(String, u64)> = vec![];
    assert_eq!(replace_emojis("*hi*", &none), r"\*hi\*");
    assert_eq!(replace_emojis(r"a\b_c`d~e|f", &none), r"a\\b\_c\`d\~e\|f");
    assert_eq!(replace_emojis("plain: text.", &none), "plain: text.");
}

#[test]
fn emoji_markup_is_not_escaped() {
    let es = vec![("party_parrot".to_string(), 9u64)];
    assert_eq!(replace_emojis(":party_parrot: _x_", &es), r"<:party_parrot:9> \_x\_");
    assert_eq!(replace_emojis("*:party_parrot:*", &es), r"\*<:party_parrot:9>\*");
}

#[test]
fn relay_loop_decisions() {
    let mut c = RelayCursor::new();
    assert_eq!(c.seek_start, 0);
    assert!(matches!(c.step(RelayEvent::Polled { line_count: 0 }), RelayAction::Sleep));
    match c.step(RelayEvent::Polled { line_count: 3 }) {
        RelayAction::ReadRange { start, end } => assert_eq!((start, end), (0, 3)),
        _ => panic!("expected a read"),
    }
    assert!(matches!(c.step(RelayEvent::RangeRead { end: 3, text: None }), RelayAction::PollAgain));
    assert!(matches!(
        c.step(RelayEvent::RangeRead { end: 3, text: Some("\n".to_string()) }),
        RelayAction::PollAgain
    ));
    match c.step(RelayEvent::RangeRead { end: 3, text: Some("hi\n".to_string()) }) {
        RelayAction::FetchEmojis { end, text } => assert_eq!((end, text.as_str()), (3, "hi\n")),
        _ => panic!("expected an emoji fetch"),
    }
    match c.step(RelayEvent::EmojisFetched {
        end: 3,
        text: "hi :w: *\n".to_string(),
        emojis: vec![("w".to_string(), 5)],
    }) {
        RelayAction::Send { end, message } => assert_eq!((end, message.as_str()), (3, "hi <:w:5> \\*\n")),
        _ => panic!("expected a send"),
    }
    assert_eq!(c.seek_start, 0);
    assert!(matches!(c.step(RelayEvent::Sent { end: 3 }), RelayAction::Sleep));
    assert_eq!(c.seek_start, 3);
}

#[test]
fn sent_lines_are_not_sent_again() {
    let mut c = RelayCursor::new();
    c.step(RelayEvent::Sent { end: 7 });
    assert!(matches!(c.step(RelayEvent::Polled { line_count: 7 }), RelayAction::Sleep));
    match c.step(RelayEvent::Polled { line_count: 9 }) {
        RelayAction::ReadRange { start, end } => assert_eq!((start, end), (7, 9)),
        _ => panic!("expected a read"),
    }
}

#[test]
fn a_send_is_followed_by_a_wait() {
    let mut c = RelayCursor::new();
    c.step(RelayEvent::Polled { line_count: 1 });
    c.step(RelayEvent::RangeRead { end: 1, text: Some("hey\n".to_string()) });
    let act = c.step(RelayEvent::EmojisFetched { end: 1, text: "hey\n".to_string(), emojis: vec![] });
    assert!(matches!(act, RelayAction::Send { .. }));
    assert!(matches!(c.step(RelayEvent::Sent { end: 1 }), RelayAction::Sleep));
}
