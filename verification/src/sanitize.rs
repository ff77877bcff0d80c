//! Turning a Discord chat message into a line the SRB2 game server can show.
use vstd::prelude::*;
use crate::number::{decimal, u64_to_decimal};
use crate::text::{
    byte_len, push_char, utf8_len, all_chars, lemma_replaced_absent, lemma_replaced_concat, lemma_replaced_all_chars, append_chars, chars_of, contains, contains_chars, occurs_at, replace_all, replaced, string_of,
};

verus! {

/// A character SRB2's chat can print: ASCII from space (0x20) to tilde (0x7E).
pub open spec fn is_printable(c: char) -> bool {
    ' ' <= c && c <= '~'
}

/// The printable characters of `s`, in their order.
pub open spec fn printable_part(s: Seq<char>) -> Seq<char> {
    s.filter(|c: char| is_printable(c))
}

/// Every character of `s` is printable.
pub open spec fn all_printable(s: Seq<char>) -> bool {
    forall|i: int| 0 <= i < s.len() ==> is_printable(#[trigger] s[i])
}

/// The text `\n` that stands for a line break in SRB2's message file.
pub open spec fn escaped_newline() -> Seq<char> {
    seq!['\\', 'n']
}

/// `"https://"`.
pub open spec fn https_marker() -> Seq<char> {
    seq!['h', 't', 't', 'p', 's', ':', '/', '/']
}

/// `"http://"`.
pub open spec fn http_marker() -> Seq<char> {
    seq!['h', 't', 't', 'p', ':', '/', '/']
}

/// `"[LINK]"`, what a link becomes.
pub open spec fn link_placeholder() -> Seq<char> {
    seq!['[', 'L', 'I', 'N', 'K', ']']
}

/// A word is a link when it holds `https://` or `http://`.
pub open spec fn is_link(w: Seq<char>) -> bool {
    contains(w, https_marker()) || contains(w, http_marker())
}

/// The words of `t` read after the partial word `cur`: maximal runs of characters other than a space.
/// On printable text these are exactly the words that `str::split_whitespace` yields.
pub open spec fn words_after(t: Seq<char>, cur: Seq<char>) -> Seq<Seq<char>>
    decreases t.len(),
{
    if t.len() == 0 {
        if cur.len() > 0 { seq![cur] } else { seq![] }
    } else if t[0] == ' ' {
        (if cur.len() > 0 { seq![cur] } else { seq![] }) + words_after(t.drop_first(), seq![])
    } else {
        words_after(t.drop_first(), cur.push(t[0]))
    }
}

/// The words of `t`, in order.
pub open spec fn words(t: Seq<char>) -> Seq<Seq<char>> {
    words_after(t, seq![])
}

/// The words of `t` that are links, in order.
pub open spec fn link_words(t: Seq<char>) -> Seq<Seq<char>> {
    words(t).filter(|w: Seq<char>| is_link(w))
}

/// `t` after replacing, in turn, each pattern of `pats` by `to`.
pub open spec fn replace_each(t: Seq<char>, pats: Seq<Seq<char>>, to: Seq<char>) -> Seq<char>
    decreases pats.len(),
{
    if pats.len() == 0 {
        t
    } else {
        replaced(replace_each(t, pats.drop_last(), to), pats.last(), to)
    }
}

/// How Discord writes a mention of the user `id` in a message: `<@id>`.
pub open spec fn mention_tag(id: u64) -> Seq<char> {
    seq!['<', '@'] + decimal(id as nat) + seq!['>']
}

/// `t` after replacing, in turn, each mention tag by the printable part of the mentioned
/// user's name.
pub open spec fn replace_mentions(t: Seq<char>, ms: Seq<(u64, Seq<char>)>) -> Seq<char>
    decreases ms.len(),
{
    if ms.len() == 0 {
        t
    } else {
        replaced(replace_mentions(t, ms.drop_last()), mention_tag(ms.last().0), printable_part(ms.last().1))
    }
}

/// The printable part of a message with line breaks escaped.
pub open spec fn cleaned(content: Seq<char>) -> Seq<char> {
    replaced(printable_part(content), seq!['\n'], escaped_newline())
}

/// The cleaned message with every link word replaced by `[LINK]`.
pub open spec fn without_links(content: Seq<char>) -> Seq<char> {
    replace_each(cleaned(content), link_words(cleaned(content)), link_placeholder())
}

/// The text that SRB2 receives for a Discord message `content` whose mentions,
/// in order, are the users `ms` (each an id with the name shown for it).
pub open spec fn srb2_text(content: Seq<char>, ms: Seq<(u64, Seq<char>)>) -> Seq<char> {
    replace_mentions(without_links(content), ms)
}

/// The printable characters of `s`, in order.
pub fn keep_printable(s: &Vec<char>) -> (r: Vec<char>)
    ensures
        r@ == printable_part(s@),
        all_printable(r@),
{
    let mut r: Vec<char> = Vec::new();
    for i in 0..s.len()
        invariant
            r@ == s@.take(i as int).filter(|c: char| is_printable(c)),
    {
        let c = s[i];
        proof {
            reveal_with_fuel(Seq::<_>::filter, 1);
            assert(s@.take(i + 1).drop_last() =~= s@.take(i as int));
        }
        if ' ' <= c && c <= '~' {
            r.push(c);
        }
    }
    assert(s@.take(s.len() as int) =~= s@);
    proof {
        broadcast use vstd::seq_lib::group_filter_ensures;
    }
    r
}


/// The deep view of a character vector is its view.
pub proof fn lemma_chars_deep_view(v: &Vec<char>)
    ensures
        v.deep_view() == v@,
{
    assert(v.deep_view() =~= v@);
}

/// The words of `t`: maximal runs of characters other than a space.
pub fn split_words(t: &Vec<char>) -> (r: Vec<Vec<char>>)
    ensures
        r.deep_view() == words(t@),
{
    let mut out: Vec<Vec<char>> = Vec::new();
    let mut cur: Vec<char> = Vec::new();
    let n = t.len();
    assert(t@.skip(0) =~= t@);
    assert(out.deep_view() + words_after(t@.skip(0), cur@) =~= words(t@));
    for i in 0..n
        invariant
            n == t.len(),
            out.deep_view() + words_after(t@.skip(i as int), cur@) == words(t@),
    {
        let c = t[i];
        let ghost rest = t@.skip(i as int);
        assert(rest[0] == c);
        assert(rest.drop_first() =~= t@.skip(i + 1));
        if c == ' ' {
            if cur.len() > 0 {
                let ghost before = out.deep_view();
                proof { lemma_chars_deep_view(&cur); }
                out.push(cur);
                assert(out.deep_view() =~= before.push(cur@));
                assert(out.deep_view() + words_after(t@.skip(i + 1), Seq::<char>::empty()) =~= before + (seq![cur@] + words_after(t@.skip(i + 1), Seq::<char>::empty())));
            } else {
                assert(out.deep_view() + words_after(t@.skip(i + 1), Seq::<char>::empty()) =~= out.deep_view() + (Seq::<Seq<char>>::empty() + words_after(t@.skip(i + 1), Seq::<char>::empty())));
            }
            cur = Vec::new();
        } else {
            cur.push(c);
        }
    }
    assert(t@.skip(n as int) =~= Seq::<char>::empty());
    if cur.len() > 0 {
        let ghost before = out.deep_view();
        proof { lemma_chars_deep_view(&cur); }
        out.push(cur);
        assert(out.deep_view() =~= before + seq![cur@]);
    } else {
        assert(out.deep_view() =~= out.deep_view() + Seq::<Seq<char>>::empty());
    }
    out
}


/// The characters of `"https://"`.
fn https_chars() -> (r: Vec<char>)
    ensures
        r@ == https_marker(),
{
    let r = vec!['h', 't', 't', 'p', 's', ':', '/', '/'];
    assert(r@ =~= https_marker());
    r
}

/// The characters of `"http://"`.
fn http_chars() -> (r: Vec<char>)
    ensures
        r@ == http_marker(),
{
    let r = vec!['h', 't', 't', 'p', ':', '/', '/'];
    assert(r@ =~= http_marker());
    r
}

/// The characters of `"[LINK]"`.
fn placeholder_chars() -> (r: Vec<char>)
    ensures
        r@ == link_placeholder(),
{
    let r = vec!['[', 'L', 'I', 'N', 'K', ']'];
    assert(r@ =~= link_placeholder());
    r
}

/// A link is never empty: it holds at least a `http://` marker.
proof fn lemma_link_not_empty(w: Seq<char>)
    requires
        is_link(w),
    ensures
        w.len() >= 7,
{
    if contains(w, https_marker()) {
        let i = choose|i: int| occurs_at(w, https_marker(), i);
    } else {
        let i = choose|i: int| occurs_at(w, http_marker(), i);
    }
}

/// The words of `ws` that are links, in order.
pub fn keep_links(ws: &Vec<Vec<char>>) -> (r: Vec<Vec<char>>)
    ensures
        r.deep_view() == ws.deep_view().filter(|w: Seq<char>| is_link(w)),
{
    let https = https_chars();
    let http = http_chars();
    let mut r: Vec<Vec<char>> = Vec::new();
    for j in 0..ws.len()
        invariant
            https@ == https_marker(),
            http@ == http_marker(),
            r.deep_view() == ws.deep_view().take(j as int).filter(|w: Seq<char>| is_link(w)),
    {
        let w = &ws[j];
        proof {
            reveal_with_fuel(Seq::<_>::filter, 1);
            assert(ws.deep_view().take(j + 1).drop_last() =~= ws.deep_view().take(j as int));
            lemma_chars_deep_view(w);
        }
        if contains_chars(w, &https) || contains_chars(w, &http) {
            let ghost before = r.deep_view();
            let copy = w.clone();
            assert(copy@ == w@);
            proof { lemma_chars_deep_view(&copy); }
            r.push(copy);
            assert(r.deep_view() =~= before.push(w@));
        }
    }
    assert(ws.deep_view().take(ws.len() as int) =~= ws.deep_view());
    r
}

/// `t` with each link of `links` replaced, in turn, by `[LINK]`.
pub fn replace_links(t: &Vec<char>, links: &Vec<Vec<char>>) -> (r: Vec<char>)
    requires
        forall|j: int| 0 <= j < links.len() ==> is_link(#[trigger] links.deep_view()[j]),
    ensures
        r@ == replace_each(t@, links.deep_view(), link_placeholder()),
{
    let ph = placeholder_chars();
    let mut out = t.clone();
    assert(links.deep_view().take(0) =~= Seq::<Seq<char>>::empty());
    for j in 0..links.len()
        invariant
            ph@ == link_placeholder(),
            forall|k: int| 0 <= k < links.len() ==> is_link(#[trigger] links.deep_view()[k]),
            out@ == replace_each(t@, links.deep_view().take(j as int), link_placeholder()),
    {
        proof {
            lemma_chars_deep_view(&links[j as int]);
            assert(is_link(links.deep_view()[j as int]));
            lemma_link_not_empty(links.deep_view()[j as int]);
            assert(links.deep_view().take(j + 1).drop_last() =~= links.deep_view().take(j as int));
            assert(links.deep_view().take(j + 1).last() == links@[j as int]@);
        }
        out = replace_all(&out, &links[j], &ph);
    }
    assert(links.deep_view().take(links.len() as int) =~= links.deep_view());
    out
}

/// The mention tag `<@id>` of user `id`.
pub fn mention_tag_chars(id: u64) -> (r: Vec<char>)
    ensures
        r@ == mention_tag(id),
{
    let mut r = vec!['<', '@'];
    let digits = u64_to_decimal(id);
    append_chars(&mut r, &digits);
    r.push('>');
    assert(r@ =~= mention_tag(id));
    r
}

/// `t` with each mention tag replaced, in turn, by the printable part of the mentioned user's name.
pub fn replace_mention_tags(t: &Vec<char>, mentions: &Vec<(u64, String)>) -> (r: Vec<char>)
    ensures
        r@ == replace_mentions(t@, mentions.deep_view()),
{
    let mut out = t.clone();
    assert(mentions.deep_view().take(0) =~= Seq::<(u64, Seq<char>)>::empty());
    for j in 0..mentions.len()
        invariant
            out@ == replace_mentions(t@, mentions.deep_view().take(j as int)),
    {
        let tag = mention_tag_chars(mentions[j].0);
        let name = keep_printable(&chars_of(mentions[j].1.as_str()));
        proof {
            assert(mentions.deep_view().take(j + 1).drop_last() =~= mentions.deep_view().take(j as int));
            assert(mentions.deep_view()[j as int] == (mentions@[j as int].0, mentions@[j as int].1@));
        }
        out = replace_all(&out, &tag, &name);
    }
    assert(mentions.deep_view().take(mentions.len() as int) =~= mentions.deep_view());
    out
}

/// The text SRB2 receives for a Discord message: only printable ASCII characters are kept,
/// line breaks are escaped, every word holding `https://` or `http://` becomes `[LINK]`,
/// and each mention `<@id>` becomes the printable part of the mentioned user's name
/// (`mentions`, in the message's order, pairs each mentioned id with the name shown for
/// it). The result holds only printable ASCII.
pub fn discord_to_srb2(content: &str, mentions: &Vec<(u64, String)>) -> (r: String)
    ensures
        r@ == srb2_text(content@, mentions.deep_view()),
        all_printable(r@),
{
    let chars = chars_of(content);
    let printable = keep_printable(&chars);
    let newline = vec!['\n'];
    let escaped = vec!['\\', 'n'];
    assert(newline@ =~= seq!['\n']);
    assert(escaped@ =~= escaped_newline());
    let clean = replace_all(&printable, &newline, &escaped);
    let ws = split_words(&clean);
    let links = keep_links(&ws);
    proof {
        broadcast use vstd::seq_lib::group_filter_ensures;
        assert forall|j: int| 0 <= j < links.len() implies is_link(#[trigger] links.deep_view()[j]) by {
            assert(links.deep_view() == link_words(clean@));
        }
    }
    let no_links = replace_links(&clean, &links);
    let named = replace_mention_tags(&no_links, mentions);
    proof {
        law_srb2_text_printable(content@, mentions.deep_view());
    }
    string_of(&named)
}


/// The printable part of any text is all printable.
proof fn lemma_printable_part_printable(s: Seq<char>)
    ensures
        all_printable(printable_part(s)),
{
    broadcast use vstd::seq_lib::group_filter_ensures;
    assert forall|i: int| 0 <= i < printable_part(s).len() implies is_printable(
        #[trigger] printable_part(s)[i],
    ) by {
        s.lemma_filter_pred(|c: char| is_printable(c), i);
    }
}

/// Printable text has no line break, so escaping line breaks leaves it unchanged.
proof fn lemma_escape_printable(s: Seq<char>)
    requires
        all_printable(s),
    ensures
        replaced(s, seq!['\n'], escaped_newline()) == s,
{
    assert(!contains(s, seq!['\n'])) by {
        if contains(s, seq!['\n']) {
            let i = choose|i: int| occurs_at(s, seq!['\n'], i);
            assert(s.subrange(i, i + 1)[0] == s[i]);
            assert(is_printable(s[i]));
        }
    }
    lemma_replaced_absent(s, seq!['\n'], escaped_newline());
}

/// A text that is all printable is its own printable part.
proof fn lemma_printable_part_of_printable(s: Seq<char>)
    requires
        all_printable(s),
    ensures
        printable_part(s) == s,
    decreases s.len(),
{
    reveal_with_fuel(Seq::<_>::filter, 1);
    if s.len() > 0 {
        let init = s.drop_last();
        assert(all_printable(init)) by {
            assert forall|i: int| 0 <= i < init.len() implies is_printable(#[trigger] init[i]) by {
                assert(init[i] == s[i]);
            }
        }
        lemma_printable_part_of_printable(init);
        assert(is_printable(s[s.len() - 1]));
        assert(init.push(s.last()) =~= s);
    }
}

/// Replacing patterns in turn by printable text keeps printable text printable.
proof fn lemma_replace_each_printable(t: Seq<char>, pats: Seq<Seq<char>>, to: Seq<char>)
    requires
        all_printable(t),
        all_printable(to),
    ensures
        all_printable(replace_each(t, pats, to)),
    decreases pats.len(),
{
    if pats.len() > 0 {
        lemma_replace_each_printable(t, pats.drop_last(), to);
        let f = |c: char| is_printable(c);
        let before = replace_each(t, pats.drop_last(), to);
        assert(all_chars(before, f));
        assert(all_chars(to, f));
        lemma_replaced_all_chars(before, pats.last(), to, f);
        assert(all_chars(replaced(before, pats.last(), to), f));
    }
}

/// Replacing mention tags by the printable part of names keeps printable text printable.
proof fn lemma_replace_mentions_printable(t: Seq<char>, ms: Seq<(u64, Seq<char>)>)
    requires
        all_printable(t),
    ensures
        all_printable(replace_mentions(t, ms)),
    decreases ms.len(),
{
    if ms.len() > 0 {
        let init = ms.drop_last();
        lemma_replace_mentions_printable(t, init);
        let f = |c: char| is_printable(c);
        let before = replace_mentions(t, init);
        let name = printable_part(ms.last().1);
        lemma_printable_part_printable(ms.last().1);
        assert(all_chars(before, f));
        assert(all_chars(name, f));
        lemma_replaced_all_chars(before, mention_tag(ms.last().0), name, f);
        assert(all_chars(replaced(before, mention_tag(ms.last().0), name), f));
    }
}

/// Escaping line breaks never changes anything: no line break survives the printable filter.
pub proof fn law_newline_escape_is_identity(content: Seq<char>)
    ensures
        cleaned(content) == printable_part(content),
{
    lemma_printable_part_printable(content);
    lemma_escape_printable(printable_part(content));
}

/// SRB2 receives only printable ASCII, whatever the message and the mentioned users' names.
pub proof fn law_srb2_text_printable(content: Seq<char>, ms: Seq<(u64, Seq<char>)>)
    ensures
        all_printable(srb2_text(content, ms)),
{
    law_newline_escape_is_identity(content);
    lemma_printable_part_printable(content);
    assert(all_printable(link_placeholder())) by {
        assert forall|i: int| 0 <= i < link_placeholder().len() implies is_printable(
            #[trigger] link_placeholder()[i],
        ) by {
        }
    }
    lemma_replace_each_printable(cleaned(content), link_words(cleaned(content)), link_placeholder());
    lemma_replace_mentions_printable(without_links(content), ms);
}

/// A message of printable text with no link and no mention reaches SRB2 unchanged.
pub proof fn law_plain_message_unchanged(content: Seq<char>)
    requires
        all_printable(content),
        forall|i: int| 0 <= i < words(content).len() ==> !is_link(#[trigger] words(content)[i]),
    ensures
        srb2_text(content, seq![]) == content,
{
    broadcast use vstd::seq_lib::group_filter_ensures;
    lemma_printable_part_of_printable(content);
    law_newline_escape_is_identity(content);
    let lw = link_words(content);
    if lw.len() > 0 {
        words(content).lemma_filter_pred(|w: Seq<char>| is_link(w), 0);
        assert(lw.contains(lw[0]));
        words(content).lemma_filter_contains_rev(|w: Seq<char>| is_link(w), lw[0]);
        let k = choose|k: int| 0 <= k < words(content).len() && words(content)[k] == lw[0];
        assert(!is_link(words(content)[k]));
    }
    assert(lw =~= Seq::<Seq<char>>::empty());
}


/// The name shown for a Discord user: the server nickname if there is one, else the
/// global display name if there is one, else the account name.
pub fn preferred_name(nick: Option<String>, global_name: Option<String>, account_name: String) -> (r: String)
    ensures
        r@ == match nick {
            Some(n) => n@,
            None => match global_name {
                Some(g) => g@,
                None => account_name@,
            },
        },
{
    match nick {
        Some(n) => n,
        None => match global_name {
            Some(g) => g,
            None => account_name,
        },
    }
}

/// The line written to SRB2's message file for a message: `<user> content`,
/// only when the content is longer than one byte.
pub fn relay_line(user_name: &str, content: &str) -> (r: Option<String>)
    ensures
        r is Some <==> byte_len(content@) > 1,
        r matches Some(line) ==> line@ == seq!['<'] + user_name@ + seq!['>', ' '] + content@,
{
    if utf8_len(content) > 1 {
        let mut line = String::new();
        push_char(&mut line, '<');
        line.append(user_name);
        push_char(&mut line, '>');
        push_char(&mut line, ' ');
        line.append(content);
        assert(line@ =~= seq!['<'] + user_name@ + seq!['>', ' '] + content@);
        Some(line)
    } else {
        None
    }
}


/// Every character between a space (0x20) and a tilde (0x7E) is kept, and only those: the
/// printable part of a text whose characters all lie in that range is the text itself, and
/// every character of any printable part lies in that range.
pub proof fn law_ascii_range_kept(s: Seq<char>)
    ensures
        (forall|i: int| 0 <= i < s.len() ==> ' ' <= #[trigger] s[i] && s[i] <= '~') ==> printable_part(s) == s,
        forall|i: int| 0 <= i < printable_part(s).len() ==> ' ' <= #[trigger] printable_part(s)[i]
            && printable_part(s)[i] <= '~',
{
    if forall|i: int| 0 <= i < s.len() ==> ' ' <= #[trigger] s[i] && s[i] <= '~' {
        assert(all_printable(s));
        lemma_printable_part_of_printable(s);
    }
    lemma_printable_part_printable(s);
}

/// A message of printable ASCII (from space to tilde) with no link word and no mention
/// reaches SRB2 unchanged.
pub proof fn law_ascii_message_unchanged(content: Seq<char>)
    requires
        forall|i: int| 0 <= i < content.len() ==> ' ' <= #[trigger] content[i] && content[i] <= '~',
        forall|i: int| 0 <= i < words(content).len() ==> !is_link(#[trigger] words(content)[i]),
    ensures
        srb2_text(content, seq![]) == content,
{
    assert(all_printable(content));
    law_plain_message_unchanged(content);
}

/// Links are replaced in turn, each on the text the earlier ones left: replacing one more
/// link replaces it in the result of replacing the others.
pub proof fn law_links_replaced_in_turn(t: Seq<char>, pats: Seq<Seq<char>>, p: Seq<char>, to: Seq<char>)
    ensures
        replace_each(t, pats.push(p), to) == replaced(replace_each(t, pats, to), p, to),
{
    assert(pats.push(p).drop_last() =~= pats);
}

/// A word without a space read after the partial word `cur` extends it.
proof fn lemma_words_word(w: Seq<char>, rest: Seq<char>, cur: Seq<char>)
    requires
        !w.contains(' '),
    ensures
        words_after(w + rest, cur) == words_after(rest, cur + w),
    decreases w.len(),
{
    if w.len() == 0 {
        assert(w + rest =~= rest);
        assert(cur + w =~= cur);
    } else {
        assert((w + rest)[0] == w[0]);
        assert(w[0] != ' ');
        assert((w + rest).drop_first() =~= w.drop_first() + rest);
        assert(!w.drop_first().contains(' ')) by {
            if w.drop_first().contains(' ') {
                let i = choose|i: int| 0 <= i < w.drop_first().len() && w.drop_first()[i] == ' ';
                assert(w[i + 1] == ' ');
            }
        }
        lemma_words_word(w.drop_first(), rest, cur.push(w[0]));
        assert(cur.push(w[0]) + w.drop_first() =~= cur + w);
    }
}

/// A text that holds no space and is no longer than `x`, which ends with a space, does not
/// occur in `x`.
proof fn lemma_not_in_spaced(x: Seq<char>, p: Seq<char>)
    requires
        x.len() > 0,
        x.last() == ' ',
        !p.contains(' '),
        p.len() >= x.len(),
    ensures
        !contains(x, p),
{
    if contains(x, p) {
        let i = choose|i: int| occurs_at(x, p, i);
        assert(x.subrange(i, i + p.len())[x.len() - 1 - i] == x.last());
        assert(p[x.len() - 1 - i] == ' ');
    }
}

/// The words of two space-free words joined by a space are those two words.
proof fn lemma_two_words(w1: Seq<char>, w2: Seq<char>)
    requires
        !w1.contains(' '),
        !w2.contains(' '),
        w1.len() > 0,
        w2.len() > 0,
    ensures
        words(w1 + seq![' '] + w2) == seq![w1, w2],
{
    let sp = seq![' '];
    let content = w1 + sp + w2;
    lemma_words_word(w1, sp + w2, seq![]);
    assert(w1 + (sp + w2) =~= content);
    assert(Seq::<char>::empty() + w1 =~= w1);
    assert((sp + w2)[0] == ' ');
    assert((sp + w2).drop_first() =~= w2);
    assert(words_after(sp + w2, w1) == seq![w1] + words_after(w2, seq![]));
    lemma_words_word(w2, Seq::<char>::empty(), seq![]);
    assert(w2 + Seq::<char>::empty() =~= w2);
    assert(Seq::<char>::empty() + w2 =~= w2);
    assert(words_after(Seq::<char>::empty(), w2) == seq![w2]);
    assert(words(content) =~= seq![w1, w2]);
}

/// Both of two link words are links.
proof fn lemma_two_link_words(w1: Seq<char>, w2: Seq<char>)
    requires
        is_link(w1),
        is_link(w2),
    ensures
        seq![w1, w2].filter(|w: Seq<char>| is_link(w)) == seq![w1, w2],
{
    reveal_with_fuel(Seq::<_>::filter, 3);
    assert(seq![w1, w2].drop_last() =~= seq![w1]);
    assert(seq![w1].drop_last() =~= Seq::<Seq<char>>::empty());
    assert(seq![w1, w2].filter(|w: Seq<char>| is_link(w)) =~= seq![w1, w2]);
}

/// Replacing the first of two link words.
proof fn lemma_first_link(w1: Seq<char>, w2: Seq<char>)
    requires
        !w1.contains(' '),
        w1.len() >= 7,
        !contains(w2, w1),
    ensures
        replaced(w1 + seq![' '] + w2, w1, link_placeholder()) == link_placeholder() + seq![' '] + w2,
{
    let sp = seq![' '];
    let l = link_placeholder();
    let x1 = w1 + sp;
    assert(x1 + w2 =~= w1 + sp + w2);
    assert(!w1.contains(x1.last()));
    lemma_replaced_concat(x1, w2, w1, l);
    assert(occurs_at(x1, w1, 0)) by {
        assert(x1.subrange(0, w1.len() as int) =~= w1);
    }
    assert(x1.skip(w1.len() as int) =~= sp);
    lemma_not_in_spaced(sp, w1);
    lemma_replaced_absent(sp, w1, l);
    assert(replaced(x1, w1, l) == l + replaced(sp, w1, l));
    lemma_replaced_absent(w2, w1, l);
    assert(replaced(x1, w1, l) + replaced(w2, w1, l) =~= l + sp + w2);
}

/// Replacing the second of two link words once the first is replaced.
proof fn lemma_second_link(w2: Seq<char>)
    requires
        !w2.contains(' '),
        w2.len() >= 7,
    ensures
        replaced(link_placeholder() + seq![' '] + w2, w2, link_placeholder()) == link_placeholder()
            + seq![' '] + link_placeholder(),
{
    let sp = seq![' '];
    let l = link_placeholder();
    let x2 = l + sp;
    assert(x2.len() == 7);
    assert(x2.last() == ' ');
    lemma_replaced_concat(x2, w2, w2, l);
    lemma_not_in_spaced(x2, w2);
    lemma_replaced_absent(x2, w2, l);
    assert(occurs_at(w2, w2, 0)) by {
        assert(w2.subrange(0, w2.len() as int) =~= w2);
    }
    assert(w2.skip(w2.len() as int) =~= Seq::<char>::empty());
    assert(replaced(w2, w2, l) == l + replaced(Seq::<char>::empty(), w2, l));
    assert(replaced(w2, w2, l) =~= l);
}

/// A word of characters from `!` to `~` holds no space and is all printable.
proof fn lemma_visible_word(w: Seq<char>)
    requires
        forall|i: int| 0 <= i < w.len() ==> '!' <= #[trigger] w[i] && w[i] <= '~',
    ensures
        !w.contains(' '),
        all_printable(w),
{
    assert(!w.contains(' ')) by {
        if w.contains(' ') {
            let i = choose|i: int| 0 <= i < w.len() && w[i] == ' ';
        }
    }
}

/// A message of two link words separated by a space becomes `[LINK] [LINK]`: each link
/// word is replaced, not only the first (the second word may not hold the first).
pub proof fn law_two_links_replaced(w1: Seq<char>, w2: Seq<char>)
    requires
        forall|i: int| 0 <= i < w1.len() ==> '!' <= #[trigger] w1[i] && w1[i] <= '~',
        forall|i: int| 0 <= i < w2.len() ==> '!' <= #[trigger] w2[i] && w2[i] <= '~',
        is_link(w1),
        is_link(w2),
        !contains(w2, w1),
    ensures
        srb2_text(w1 + seq![' '] + w2, seq![]) == link_placeholder() + seq![' '] + link_placeholder(),
{
    let sp = seq![' '];
    let content = w1 + sp + w2;
    let l = link_placeholder();
    lemma_link_not_empty(w1);
    lemma_link_not_empty(w2);
    lemma_visible_word(w1);
    lemma_visible_word(w2);
    assert(cleaned(content) == content) by {
        assert(all_printable(content)) by {
            assert forall|i: int| 0 <= i < content.len() implies is_printable(#[trigger] content[i]) by {
                if i < w1.len() {
                    assert(content[i] == w1[i]);
                } else if i == w1.len() {
                    assert(content[i] == ' ');
                } else {
                    assert(content[i] == w2[i - w1.len() - 1]);
                }
            }
        }
        lemma_printable_part_of_printable(content);
        law_newline_escape_is_identity(content);
    }
    assert(link_words(content) == seq![w1, w2]) by {
        lemma_two_words(w1, w2);
        lemma_two_link_words(w1, w2);
    }
    assert(replace_each(content, seq![w1, w2], l) == l + sp + l) by {
        lemma_first_link(w1, w2);
        lemma_second_link(w2);
        assert(seq![w1, w2].drop_last() =~= seq![w1]);
        assert(seq![w1].drop_last() =~= Seq::<Seq<char>>::empty());
        assert(seq![w1].last() == w1);
        assert(seq![w1, w2].last() == w2);
        assert(replace_each(content, Seq::<Seq<char>>::empty(), l) == content);
        assert(replace_each(content, seq![w1], l) == replaced(
            replace_each(content, seq![w1].drop_last(), l),
            seq![w1].last(),
            l,
        ));
        assert(replace_each(content, seq![w1], l) == replaced(content, w1, l));
        assert(replace_each(content, seq![w1, w2], l) == replaced(replace_each(content, seq![w1], l), w2, l));
    }
    assert(without_links(content) == l + sp + l);
    assert(srb2_text(content, seq![]) == without_links(content));
}

} // verus!
