use srb2_relay::sanitize::{discord_to_srb2, preferred_name, relay_line, split_words, keep_printable};

fn srb2(content: &str, mentions: &[(u64, &str)]) -> String {
    let ms: Vec<(u64, String)> = mentions.iter().map(|(id, n)| (*id, n.to_string())).collect();
    discord_to_srb2(content, &ms)
}

#[test]
fn plain_message_passes_unchanged() {
    assert_eq!(srb2("hello world", &[]), "hello world");
}

#[test]
fn non_printable_characters_are_dropped() {
    assert_eq!(srb2("h\u{e9}llo\tworld\n", &[]), "hlloworld");
    assert_eq!(srb2("a\u{7f}b~ c", &[]), "ab~ c");
}

#[test]
fn line_breaks_never_reach_the_escape() {
    // the printable filter already removed the line break
    assert_eq!(srb2("one\ntwo", &[]), "onetwo");
}

#[test]
fn links_become_placeholders() {
    assert_eq!(srb2("see https://x.com now", &[]), "see [LINK] now");
    assert_eq!(srb2("http://a and http://a", &[]), "[LINK] and [LINK]");
    assert_eq!(srb2("xhttps://y.z", &[]), "[LINK]");
}

#[test]
fn link_replacement_is_sequential() {
    // the first link is replaced inside the second word, which then no longer matches
    assert_eq!(srb2("http://a http://ahttp://b", &[]), "[LINK] [LINK]http://b");
}

#[test]
fn mentions_become_names() {
    assert_eq!(srb2("hi <@123>!", &[(123, "Bob")]), "hi Bob!");
    assert_eq!(srb2("<@1> <@22> <@1>", &[(1, "A"), (22, "B")]), "A B A");
}

#[test]
fn mention_names_keep_only_printable_characters() {
    assert_eq!(srb2("<@7>", &[(7, "Zo\u{eb}")]), "Zo");
    assert_eq!(srb2("hi <@5>", &[(5, "\u{e9}")]), "hi ");
    assert!(srb2("<@1> \u{263a} <@2>", &[(1, "A\u{1F600}b"), (2, "\t~")]).chars().all(|c| (' '..='~').contains(&c)));
}

#[test]
fn preferred_name_order() {
    assert_eq!(preferred_name(Some("nick".into()), Some("global".into()), "acct".into()), "nick");
    assert_eq!(preferred_name(None, Some("global".into()), "acct".into()), "global");
    assert_eq!(preferred_name(None, None, "acct".into()), "acct");
}

#[test]
fn relay_line_formats_and_skips_short_content() {
    assert_eq!(relay_line("Bob", "hi"), Some("<Bob> hi".to_string()));
    assert_eq!(relay_line("Bob", "a"), None);
    assert_eq!(relay_line("Bob", ""), None);
    // one character of two bytes is long enough
    assert_eq!(relay_line("Bob", "\u{e9}"), Some("<Bob> \u{e9}".to_string()));
}

#[test]
fn words_split_on_spaces() {
    let t: Vec<char> = "  a bc  d ".chars().collect();
    let ws = split_words(&t);
    let ws: Vec<String> = ws.into_iter().map(|w| w.into_iter().collect()).collect();
    assert_eq!(ws, vec!["a", "bc", "d"]);
}

#[test]
fn keep_printable_keeps_order() {
    let t: Vec<char> = "\u{1}a\u{7e}\u{20}\u{1f}z".chars().collect();
    let r: String = keep_printable(&t).into_iter().collect();
    assert_eq!(r, "a~ z");
}
