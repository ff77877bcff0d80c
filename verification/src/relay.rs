//! Relaying new lines of SRB2's message file to Discord: emoji markup, and the polling
//! loop's decisions as a state machine driven by the caller.
use vstd::prelude::*;
use crate::message_file::{joined, lemma_joined_concat, lemma_read_uncut, range_read, read_fits};
use crate::number::{decimal, u64_to_decimal};
use crate::text::{
    append_chars, byte_len, chars_of, contains, lemma_replaced_absent, lemma_replaced_concat,
    lemma_replaced_keeps_last, occurs_at, replace_all, replaced,
    string_of, utf8_len,
};

verus! {

/// How a server emoji is written in game chat: `:name:`.
pub open spec fn emoji_code(name: Seq<char>) -> Seq<char> {
    seq![':'] + name + seq![':']
}

/// How Discord renders a server emoji: `<:name:id>`.
pub open spec fn emoji_markup(name: Seq<char>, id: u64) -> Seq<char> {
    seq!['<', ':'] + name + seq![':'] + decimal(id as nat) + seq!['>']
}

/// A character that Discord's markdown gives a meaning to: `\`, `*`, `_`, `` ` ``, `~` and `|`.
pub open spec fn is_markdown_symbol(c: char) -> bool {
    c == '\\' || c == '*' || c == '_' || c == '`' || c == '~' || c == '|'
}

/// The character `c` as Discord shows it literally: a markdown symbol gets a backslash in front.
pub open spec fn escaped_char(c: char) -> Seq<char> {
    if is_markdown_symbol(c) {
        seq!['\\', c]
    } else {
        seq![c]
    }
}

/// `s` with a backslash put in front of every markdown symbol.
pub open spec fn escape_markdown(s: Seq<char>) -> Seq<char>
    decreases s.len(),
{
    if s.len() == 0 {
        seq![]
    } else {
        escape_markdown(s.drop_last()) + escaped_char(s.last())
    }
}

/// The escaped text `t` after replacing, in turn for each server emoji of `es`, its code
/// (escaped as the text was) by its markup, which is not escaped.
pub open spec fn with_emojis(t: Seq<char>, es: Seq<(Seq<char>, u64)>) -> Seq<char>
    decreases es.len(),
{
    if es.len() == 0 {
        t
    } else {
        replaced(
            with_emojis(t, es.drop_last()),
            escape_markdown(emoji_code(es.last().0)),
            emoji_markup(es.last().0, es.last().1),
        )
    }
}

/// What Discord receives for the text `content` of SRB2's chat, with the server emojis `es`:
/// every markdown symbol escaped, then each emoji's `:name:` replaced by its markup.
pub open spec fn discord_markup(content: Seq<char>, es: Seq<(Seq<char>, u64)>) -> Seq<char> {
    with_emojis(escape_markdown(content), es)
}

/// `s` with a backslash in front of every markdown symbol.
pub fn escape_markdown_chars(s: &Vec<char>) -> (r: Vec<char>)
    ensures
        r@ == escape_markdown(s@),
{
    let mut r: Vec<char> = Vec::new();
    for i in 0..s.len()
        invariant
            r@ == escape_markdown(s@.take(i as int)),
    {
        let c = s[i];
        assert(s@.take(i + 1).drop_last() =~= s@.take(i as int));
        if c == '\\' || c == '*' || c == '_' || c == '`' || c == '~' || c == '|' {
            r.push('\\');
        }
        r.push(c);
        assert(r@ =~= escape_markdown(s@.take(i + 1)));
    }
    assert(s@.take(s.len() as int) =~= s@);
    r
}

/// Escaping never shortens a text.
proof fn lemma_escape_len(s: Seq<char>)
    ensures
        escape_markdown(s).len() >= s.len(),
    decreases s.len(),
{
    if s.len() > 0 {
        lemma_escape_len(s.drop_last());
    }
}

/// Escaping text without a colon gives text without a colon.
proof fn lemma_escape_no_colon(s: Seq<char>)
    requires
        forall|i: int| 0 <= i < s.len() ==> s[i] != ':',
    ensures
        forall|i: int| 0 <= i < escape_markdown(s).len() ==> escape_markdown(s)[i] != ':',
    decreases s.len(),
{
    if s.len() > 0 {
        let init = s.drop_last();
        assert forall|i: int| 0 <= i < init.len() implies init[i] != ':' by {
            assert(init[i] == s[i]);
        }
        lemma_escape_no_colon(init);
        let e = escape_markdown(s);
        let a = escape_markdown(init);
        let b = escaped_char(s.last());
        assert(e == a + b);
        assert forall|i: int| 0 <= i < e.len() implies e[i] != ':' by {
            if i < a.len() {
                assert(e[i] == a[i]);
            } else {
                assert(e[i] == b[i - a.len()]);
            }
        }
    }
}

/// `content` with a backslash in front of every markdown symbol (`\`, `*`, `_`, `` ` ``,
/// `~`, `|`), then every `:name:` of a server emoji (`emojis` pairs each name with its id)
/// replaced by the emoji's markup `<:name:id>`, emoji after emoji; the markup itself is not
/// escaped.
pub fn replace_emojis(content: &str, emojis: &Vec<(String, u64)>) -> (r: String)
    ensures
        r@ == discord_markup(content@, emojis.deep_view()),
{
    let mut out = escape_markdown_chars(&chars_of(content));
    assert(emojis.deep_view().take(0) =~= Seq::<(Seq<char>, u64)>::empty());
    for j in 0..emojis.len()
        invariant
            out@ == with_emojis(escape_markdown(content@), emojis.deep_view().take(j as int)),
    {
        let name = chars_of(emojis[j].0.as_str());
        let mut code = vec![':'];
        append_chars(&mut code, &name);
        code.push(':');
        let escaped_code = escape_markdown_chars(&code);
        let mut markup = vec!['<', ':'];
        append_chars(&mut markup, &name);
        markup.push(':');
        let digits = u64_to_decimal(emojis[j].1);
        append_chars(&mut markup, &digits);
        markup.push('>');
        proof {
            assert(emojis.deep_view()[j as int] == (emojis@[j as int].0@, emojis@[j as int].1));
            assert(code@ =~= emoji_code(name@));
            lemma_escape_len(code@);
            assert(markup@ =~= emoji_markup(name@, emojis@[j as int].1));
            assert(emojis.deep_view().take(j + 1).drop_last() =~= emojis.deep_view().take(j as int));
        }
        out = replace_all(&out, &escaped_code, &markup);
    }
    assert(emojis.deep_view().take(emojis.len() as int) =~= emojis.deep_view());
    string_of(&out)
}

/// Text without a colon holds no emoji code: Discord receives it with its markdown symbols
/// escaped and nothing else changed.
pub proof fn law_text_without_colon_only_escaped(t: Seq<char>, es: Seq<(Seq<char>, u64)>)
    requires
        forall|i: int| 0 <= i < t.len() ==> t[i] != ':',
    ensures
        discord_markup(t, es) == escape_markdown(t),
    decreases es.len(),
{
    if es.len() > 0 {
        law_text_without_colon_only_escaped(t, es.drop_last());
        let e = escape_markdown(t);
        lemma_escape_no_colon(t);
        let code = escape_markdown(emoji_code(es.last().0));
        let raw = emoji_code(es.last().0);
        assert(raw.last() == ':');
        assert(code == escape_markdown(raw.drop_last()) + escaped_char(':'));
        assert(code[code.len() - 1] == ':');
        assert(!contains(e, code)) by {
            if contains(e, code) {
                let i = choose|i: int| occurs_at(e, code, i);
                assert(e.subrange(i, i + code.len())[code.len() - 1] == e[i + code.len() - 1]);
            }
        }
        lemma_replaced_absent(e, code, emoji_markup(es.last().0, es.last().1));
    }
}

/// Where the relay loop stands: the number of lines of the message file already relayed.
pub struct RelayCursor {
    pub seek_start: usize,
}

/// What the caller of the relay loop reports back.
pub enum RelayEvent {
    /// The message file now has `line_count` lines.
    Polled { line_count: usize },
    /// Lines up to `end` were read: their text, or `None` when the file could not be read.
    RangeRead { end: usize, text: Option<String> },
    /// The server's emojis (name and id) were fetched for the text read up to `end`.
    EmojisFetched { end: usize, text: String, emojis: Vec<(String, u64)> },
    /// The message for the lines up to `end` was handed to Discord (whether or not it arrived).
    Sent { end: usize },
}

/// What the relay loop asks its caller to do next.
pub enum RelayAction {
    /// Wait for the refresh period, then poll the line count.
    Sleep,
    /// Read lines `start + 1` to `end` of the message file.
    ReadRange { start: usize, end: usize },
    /// Poll the line count again at once.
    PollAgain,
    /// Fetch the server's emojis for `text`, read up to line `end`.
    FetchEmojis { end: usize, text: String },
    /// Send `message` to the Discord channel; it covers lines up to `end`.
    Send { end: usize, message: String },
}

/// The number of relayed lines after `ev`: it moves only when a message was sent.
pub open spec fn next_seek(seek: usize, ev: RelayEvent) -> usize {
    match ev {
        RelayEvent::Sent { end } => end,
        _ => seek,
    }
}

/// `act` is the action the relay loop takes on `ev` when `seek` lines were relayed.
pub open spec fn relay_action(seek: usize, ev: RelayEvent, act: RelayAction) -> bool {
    match ev {
        RelayEvent::Polled { line_count } => if line_count == seek {
            act is Sleep
        } else {
            act == (RelayAction::ReadRange { start: seek, end: line_count })
        },
        RelayEvent::RangeRead { end, text } => match text {
            Some(t) => if byte_len(t@) <= 1 {
                act is PollAgain
            } else {
                act matches RelayAction::FetchEmojis { end: e, text: m } && e == end && m@ == t@
            },
            None => act is PollAgain,
        },
        RelayEvent::EmojisFetched { end, text, emojis } => act matches RelayAction::Send {
            end: e,
            message: m,
        } && e == end && m@ == discord_markup(text@, emojis.deep_view()),
        RelayEvent::Sent { end } => act is Sleep,
    }
}

impl RelayCursor {
    /// A relay that has relayed nothing yet.
    pub fn new() -> (r: RelayCursor)
        ensures
            r.seek_start == 0,
    {
        RelayCursor { seek_start: 0 }
    }

    /// One decision of the relay loop: the action for `ev`, moving the cursor after a send.
    pub fn step(&mut self, ev: RelayEvent) -> (act: RelayAction)
        ensures
            final(self).seek_start == next_seek(old(self).seek_start, ev),
            relay_action(old(self).seek_start, ev, act),
    {
        match ev {
            RelayEvent::Polled { line_count } => {
                if line_count == self.seek_start {
                    RelayAction::Sleep
                } else {
                    RelayAction::ReadRange { start: self.seek_start, end: line_count }
                }
            },
            RelayEvent::RangeRead { end, text } => match text {
                Some(t) => {
                    if utf8_len(t.as_str()) <= 1 {
                        RelayAction::PollAgain
                    } else {
                        RelayAction::FetchEmojis { end, text: t }
                    }
                },
                None => RelayAction::PollAgain,
            },
            RelayEvent::EmojisFetched { end, text, emojis } => {
                let message = replace_emojis(text.as_str(), &emojis);
                RelayAction::Send { end, message }
            },
            RelayEvent::Sent { end } => {
                self.seek_start = end;
                RelayAction::Sleep
            },
        }
    }
}

/// Lines are relayed once: right after the message for lines up to `end` was sent, a poll
/// that finds `end` lines asks for nothing but a wait.
pub proof fn law_sent_lines_not_relayed_again(seek: usize, end: usize, act: RelayAction)
    requires
        relay_action(
            next_seek(seek, RelayEvent::Sent { end }),
            RelayEvent::Polled { line_count: end },
            act,
        ),
    ensures
        act is Sleep,
{
}

/// The relay only moves forward over the file when a message was sent: no other event
/// changes the number of relayed lines.
pub proof fn law_cursor_moves_only_on_send(seek: usize, ev: RelayEvent)
    requires
        !(ev is Sent),
    ensures
        next_seek(seek, ev) == seek,
{
}

/// A poll that finds new lines asks to read exactly the lines not yet relayed.
pub proof fn law_poll_reads_unrelayed_lines(seek: usize, line_count: usize, act: RelayAction)
    requires
        line_count != seek,
        relay_action(seek, RelayEvent::Polled { line_count }, act),
    ensures
        act == (RelayAction::ReadRange { start: seek, end: line_count }),
{
}


/// What the caller of the relay loop answers to `act` when the message file holds the
/// lines `ls` (a file that only grows may be taken as its final lines: a read of lines up
/// to a count that a poll found sees the same lines then as at the end).
pub open spec fn answers(ls: Seq<Seq<char>>, act: RelayAction, ev: RelayEvent) -> bool {
    match act {
        RelayAction::Sleep => match ev {
            RelayEvent::Polled { line_count } => line_count <= ls.len(),
            _ => false,
        },
        RelayAction::PollAgain => match ev {
            RelayEvent::Polled { line_count } => line_count <= ls.len(),
            _ => false,
        },
        RelayAction::ReadRange { start, end } => match ev {
            RelayEvent::RangeRead { end: e, text } => e == end && match text {
                Some(t) => range_read(ls, start as int, end as int, t@),
                None => true,
            },
            _ => false,
        },
        RelayAction::FetchEmojis { end, text } => match ev {
            RelayEvent::EmojisFetched { end: e, text: t, emojis } => e == end && t@ == text@,
            _ => false,
        },
        RelayAction::Send { end, message } => match ev {
            RelayEvent::Sent { end: e } => e == end,
            _ => false,
        },
    }
}

/// A run of the relay loop over the message file `ls`: the events `evs` it was told, the
/// actions `acts` it asked for, and the relayed line counts `seeks` before and after each
/// step. It starts from nothing relayed with a poll, and the caller answers each action.
pub open spec fn relay_run(
    ls: Seq<Seq<char>>,
    evs: Seq<RelayEvent>,
    acts: Seq<RelayAction>,
    seeks: Seq<usize>,
) -> bool {
    &&& acts.len() == evs.len()
    &&& seeks.len() == evs.len() + 1
    &&& seeks[0] == 0
    &&& evs.len() > 0 ==> match evs[0] {
        RelayEvent::Polled { line_count } => line_count <= ls.len(),
        _ => false,
    }
    &&& forall|i: int|
        0 <= i < evs.len() ==> seeks[i + 1] == next_seek(seeks[i], #[trigger] evs[i])
            && relay_action(seeks[i], evs[i], acts[i])
    &&& forall|i: int| 0 <= i < evs.len() - 1 ==> answers(ls, #[trigger] acts[i], evs[i + 1])
}

/// The text handed over to Discord during the events `evs`: the text of each emoji fetch
/// that a send followed, in order.
pub open spec fn relayed_text(evs: Seq<RelayEvent>) -> Seq<char>
    decreases evs.len(),
{
    if evs.len() < 2 {
        seq![]
    } else {
        relayed_text(evs.drop_last()) + match evs[evs.len() - 2] {
            RelayEvent::EmojisFetched { end, text, emojis } => if evs.last() is Sent {
                text@
            } else {
                seq![]
            },
            _ => seq![],
        }
    }
}

/// No read that the run asks for is cut short at the 1000-byte limit.
pub open spec fn reads_fit(ls: Seq<Seq<char>>, acts: Seq<RelayAction>) -> bool {
    forall|i: int|
        0 <= i < acts.len() ==> match #[trigger] acts[i] {
            RelayAction::ReadRange { start, end } => read_fits(ls, start as int, end as int),
            _ => true,
        }
}

/// When reads are not cut short, the text the step just taken leaves pending is all the
/// lines after the `seek` relayed ones, up to the count it was read to.
pub open spec fn pending_text(ls: Seq<Seq<char>>, act: RelayAction, ev: RelayEvent, seek: usize) -> bool {
    match act {
        RelayAction::FetchEmojis { end, text } => text@ == joined(ls, seek as int, end as int),
        RelayAction::Send { end, message } => match ev {
            RelayEvent::EmojisFetched { end: e, text, emojis } => text@ == joined(ls, seek as int, end as int),
            _ => false,
        },
        _ => true,
    }
}

/// What the step just taken leaves pending, with `seek` lines relayed.
pub open spec fn pending(ls: Seq<Seq<char>>, act: RelayAction, ev: RelayEvent, seek: usize) -> bool {
    match act {
        RelayAction::ReadRange { start, end } => start == seek && end <= ls.len(),
        RelayAction::FetchEmojis { end, text } => range_read(ls, seek as int, end as int, text@) && seek
            < end <= ls.len(),
        RelayAction::Send { end, message } => match ev {
            RelayEvent::EmojisFetched { end: e, text, emojis } => e == end && range_read(
                ls,
                seek as int,
                end as int,
                text@,
            ) && seek < end <= ls.len(),
            _ => false,
        },
        _ => true,
    }
}

/// What holds after the first `k` steps of a run.
pub open spec fn run_invariant(
    ls: Seq<Seq<char>>,
    evs: Seq<RelayEvent>,
    acts: Seq<RelayAction>,
    seeks: Seq<usize>,
    k: int,
) -> bool {
    &&& forall|i: int| 0 <= i < k ==> seeks[i] <= #[trigger] seeks[i + 1]
    &&& forall|i: int| 0 <= i < k ==> (#[trigger] evs[i] is Sent ==> seeks[i] < seeks[i + 1])
    &&& forall|i: int| 0 <= i <= k ==> #[trigger] seeks[i] <= ls.len()
    &&& forall|i: int|
        0 <= i < k ==> match #[trigger] evs[i] {
            RelayEvent::EmojisFetched { end, text, emojis } => range_read(ls, seeks[i] as int, end as int, text@)
                && seeks[i] < end,
            _ => true,
        }
    &&& k > 0 ==> pending(ls, acts[k - 1], evs[k - 1], seeks[k])
}

/// What holds of the text after the first `k` steps of a run whose reads are not cut short.
pub open spec fn text_invariant(
    ls: Seq<Seq<char>>,
    evs: Seq<RelayEvent>,
    acts: Seq<RelayAction>,
    seeks: Seq<usize>,
    k: int,
) -> bool {
    &&& k > 0 ==> pending_text(ls, acts[k - 1], evs[k - 1], seeks[k])
    &&& relayed_text(evs.take(k)) == joined(ls, 0, seeks[k] as int)
}

/// A read of more than one byte starts before the lines it reads end.
proof fn lemma_read_not_empty(ls: Seq<Seq<char>>, s: int, e: int, t: Seq<char>)
    requires
        range_read(ls, s, e, t),
        byte_len(t) > 1,
        e <= ls.len(),
    ensures
        s < e,
{
    if s >= e {
        assert(t == Seq::<char>::empty());
        assert(byte_len(Seq::<char>::empty()) == 0);
    }
}

/// The run invariant holds after every number of steps.
proof fn lemma_run_invariant(
    ls: Seq<Seq<char>>,
    evs: Seq<RelayEvent>,
    acts: Seq<RelayAction>,
    seeks: Seq<usize>,
    k: int,
)
    requires
        relay_run(ls, evs, acts, seeks),
        0 <= k <= evs.len(),
    ensures
        run_invariant(ls, evs, acts, seeks, k),
    decreases k,
{
    if k > 0 {
        let j = k - 1;
        lemma_run_invariant(ls, evs, acts, seeks, j);
        let ev = evs[j];
        let act = acts[j];
        let seek = seeks[j];
        assert(seeks[j + 1] == next_seek(seek, ev) && relay_action(seek, ev, act));
        if j > 0 {
            assert(answers(ls, acts[j - 1], evs[j]));
        }
        match ev {
            RelayEvent::RangeRead { end, text } => {
                assert(j > 0);
                match text {
                    Some(t) => {
                        if byte_len(t@) > 1 {
                            lemma_read_not_empty(ls, seek as int, end as int, t@);
                        }
                    },
                    None => {
                    },
                }
            },
            _ => {
            },
        }
    }
}

/// The text invariant holds after every number of steps of a run whose reads are not cut short.
proof fn lemma_text_invariant(
    ls: Seq<Seq<char>>,
    evs: Seq<RelayEvent>,
    acts: Seq<RelayAction>,
    seeks: Seq<usize>,
    k: int,
)
    requires
        relay_run(ls, evs, acts, seeks),
        reads_fit(ls, acts),
        0 <= k <= evs.len(),
    ensures
        text_invariant(ls, evs, acts, seeks, k),
    decreases k,
{
    if k == 0 {
        assert(evs.take(0) =~= Seq::<RelayEvent>::empty());
    } else {
        let j = k - 1;
        lemma_text_invariant(ls, evs, acts, seeks, j);
        lemma_run_invariant(ls, evs, acts, seeks, j);
        let ev = evs[j];
        let act = acts[j];
        let seek = seeks[j];
        assert(seeks[j + 1] == next_seek(seek, ev) && relay_action(seek, ev, act));
        if j > 0 {
            assert(answers(ls, acts[j - 1], evs[j]));
        }
        assert(evs.take(k).drop_last() =~= evs.take(j));
        if k >= 2 {
            assert(evs.take(k)[k - 2] == evs[j - 1]);
        }
        match ev {
            RelayEvent::RangeRead { end, text } => {
                assert(j > 0);
                match text {
                    Some(t) => {
                        if byte_len(t@) > 1 {
                            lemma_read_not_empty(ls, seek as int, end as int, t@);
                            assert(acts[j - 1] matches RelayAction::ReadRange { start, end: e }
                                && start == seek && e == end);
                            lemma_read_uncut(ls, seek as int, end as int, t@);
                        }
                    },
                    None => {
                    },
                }
            },
            RelayEvent::Sent { end } => {
                assert(j > 0);
                match evs[j - 1] {
                    RelayEvent::EmojisFetched { end: e, text, emojis } => {
                        lemma_joined_concat(ls, 0, seek as int, end as int);
                    },
                    _ => {
                    },
                }
            },
            _ => {
            },
        }
    }
}

/// Each line of the message file is relayed at most once and in the file's order, and,
/// when no read of the run is cut short at the 1000-byte limit, all of it: over any run of the relay
/// loop the relayed line count only grows, and grows at each send; the text of each send is
/// what a read from the relayed count collects; the text handed to Discord is the file's
/// lines up to the relayed count; and a run that ends waiting on a poll that found the
/// file's last line has handed over the whole file.
pub proof fn law_relay_run(
    ls: Seq<Seq<char>>,
    evs: Seq<RelayEvent>,
    acts: Seq<RelayAction>,
    seeks: Seq<usize>,
)
    requires
        relay_run(ls, evs, acts, seeks),
    ensures
        forall|i: int| 0 <= i < evs.len() ==> seeks[i] <= #[trigger] seeks[i + 1],
        forall|i: int| 0 <= i < evs.len() ==> (#[trigger] evs[i] is Sent ==> seeks[i] < seeks[i + 1]),
        forall|i: int|
            0 <= i < evs.len() ==> match #[trigger] evs[i] {
                RelayEvent::EmojisFetched { end, text, emojis } => range_read(ls, seeks[i] as int, end as int, text@)
                    && seeks[i] < end,
                _ => true,
            },
        reads_fit(ls, acts) ==> relayed_text(evs) == joined(ls, 0, seeks.last() as int),
        (evs.len() > 0 && acts.last() is Sleep && match evs.last() {
            RelayEvent::Polled { line_count } => line_count == ls.len(),
            _ => false,
        } && reads_fit(ls, acts)) ==> relayed_text(evs) == joined(ls, 0, ls.len() as int),
{
    lemma_run_invariant(ls, evs, acts, seeks, evs.len() as int);
    if reads_fit(ls, acts) {
        lemma_text_invariant(ls, evs, acts, seeks, evs.len() as int);
    }
    assert(evs.take(evs.len() as int) =~= evs);
    if evs.len() > 0 {
        let j = evs.len() - 1;
        assert(seeks[j + 1] == next_seek(seeks[j], evs[j]) && relay_action(seeks[j], evs[j], acts[j]));
    }
}


/// The relay waits between any two sends: the action right after a send is a wait.
pub proof fn law_wait_between_sends(
    ls: Seq<Seq<char>>,
    evs: Seq<RelayEvent>,
    acts: Seq<RelayAction>,
    seeks: Seq<usize>,
    i: int,
    j: int,
)
    requires
        relay_run(ls, evs, acts, seeks),
        0 <= i < j < acts.len(),
        acts[i] is Send,
        acts[j] is Send,
    ensures
        i + 1 < j,
        acts[i + 1] is Sleep,
{
    assert(answers(ls, acts[i], evs[i + 1]));
    assert(seeks[i + 2] == next_seek(seeks[i + 1], evs[i + 1]) && relay_action(
        seeks[i + 1],
        evs[i + 1],
        acts[i + 1],
    ));
}


/// Escaping two texts put together escapes each.
proof fn lemma_escape_concat(x: Seq<char>, y: Seq<char>)
    ensures
        escape_markdown(x + y) == escape_markdown(x) + escape_markdown(y),
    decreases y.len(),
{
    if y.len() == 0 {
        assert(x + y =~= x);
        assert(escape_markdown(x) + escape_markdown(y) =~= escape_markdown(x));
    } else {
        lemma_escape_concat(x, y.drop_last());
        assert((x + y).drop_last() =~= x + y.drop_last());
        assert((x + y).last() == y.last());
        assert(escape_markdown(x) + escape_markdown(y) =~= (escape_markdown(x) + escape_markdown(
            y.drop_last(),
        )) + escaped_char(y.last()));
    }
}

/// Escaping adds no character other than backslashes.
proof fn lemma_escape_adds_only_backslashes(s: Seq<char>, c: char)
    requires
        c != '\\',
        !s.contains(c),
    ensures
        !escape_markdown(s).contains(c),
    decreases s.len(),
{
    if s.len() > 0 {
        let init = s.drop_last();
        assert(!init.contains(c)) by {
            if init.contains(c) {
                let i = choose|i: int| 0 <= i < init.len() && init[i] == c;
                assert(s[i] == c);
            }
        }
        lemma_escape_adds_only_backslashes(init, c);
        let a = escape_markdown(init);
        let b = escaped_char(s.last());
        assert(s[s.len() - 1] != c);
        assert(escape_markdown(s) == a + b);
        assert(!(a + b).contains(c)) by {
            if (a + b).contains(c) {
                let i = choose|i: int| 0 <= i < (a + b).len() && (a + b)[i] == c;
                if i < a.len() {
                    assert(a[i] == c);
                } else {
                    assert(b[i - a.len()] == c);
                }
            }
        }
    }
}

/// An emoji code escaped holds no space when the emoji's name holds none.
proof fn lemma_code_has_no_space(name: Seq<char>)
    requires
        !name.contains(' '),
    ensures
        !escape_markdown(emoji_code(name)).contains(' '),
        escape_markdown(emoji_code(name)).len() > 0,
{
    let code = emoji_code(name);
    assert(!code.contains(' ')) by {
        if code.contains(' ') {
            let i = choose|i: int| 0 <= i < code.len() && code[i] == ' ';
            if 1 <= i < code.len() - 1 {
                assert(name[i - 1] == ' ');
            }
        }
    }
    lemma_escape_adds_only_backslashes(code, ' ');
    lemma_escape_len(code);
}

/// Emoji markup of two escaped texts put together, the first ending with a space, is the
/// markup of each.
proof fn lemma_with_emojis_concat(x: Seq<char>, y: Seq<char>, es: Seq<(Seq<char>, u64)>)
    requires
        x.len() > 0,
        x.last() == ' ',
        forall|k: int| 0 <= k < es.len() ==> !(#[trigger] es[k]).0.contains(' '),
    ensures
        with_emojis(x + y, es) == with_emojis(x, es) + with_emojis(y, es),
        with_emojis(x, es).len() > 0,
        with_emojis(x, es).last() == ' ',
    decreases es.len(),
{
    if es.len() > 0 {
        let init = es.drop_last();
        assert forall|k: int| 0 <= k < init.len() implies !(#[trigger] init[k]).0.contains(' ') by {
            assert(init[k] == es[k]);
        }
        lemma_with_emojis_concat(x, y, init);
        let a = with_emojis(x, init);
        let b = with_emojis(y, init);
        let (name, id) = es.last();
        assert(!es[es.len() - 1].0.contains(' '));
        lemma_code_has_no_space(name);
        let code = escape_markdown(emoji_code(name));
        let markup = emoji_markup(name, id);
        lemma_replaced_concat(a, b, code, markup);
        lemma_replaced_keeps_last(a, code, markup);
    }
}

/// Every emoji code is replaced, not only the first: the Discord text of two pieces of chat
/// joined after a space is the Discord text of each piece, when no emoji name holds a space.
pub proof fn law_discord_markup_splits_at_space(x: Seq<char>, y: Seq<char>, es: Seq<(Seq<char>, u64)>)
    requires
        x.len() > 0,
        x.last() == ' ',
        forall|k: int| 0 <= k < es.len() ==> !(#[trigger] es[k]).0.contains(' '),
    ensures
        discord_markup(x + y, es) == discord_markup(x, es) + discord_markup(y, es),
{
    lemma_escape_concat(x, y);
    let ex = escape_markdown(x);
    assert(ex == escape_markdown(x.drop_last()) + escaped_char(' '));
    assert(ex.last() == ' ');
    lemma_with_emojis_concat(ex, escape_markdown(y), es);
}

} // verus!
