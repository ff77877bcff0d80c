//! Reading SRB2's message file: its lines, how many there are, and the range of new lines to relay.
use vstd::prelude::*;
use crate::text::{
    byte_len, chars_of, contains, contains_chars, lemma_byte_len_concat, push_char, string_of, utf8_len,
};

verus! {

/// `cur` without one carriage return at its end.
pub open spec fn strip_cr(cur: Seq<char>) -> Seq<char> {
    if cur.len() > 0 && cur.last() == '\r' { cur.drop_last() } else { cur }
}

/// The lines of `t` read after the partial line `cur`: a line ends at `\n` (a `\r` just
/// before it is dropped); a last line without `\n` counts when it is not empty.
pub open spec fn lines_after(t: Seq<char>, cur: Seq<char>) -> Seq<Seq<char>>
    decreases t.len(),
{
    if t.len() == 0 {
        if cur.len() > 0 { seq![cur] } else { seq![] }
    } else if t[0] == '\n' {
        seq![strip_cr(cur)] + lines_after(t.drop_first(), seq![])
    } else {
        lines_after(t.drop_first(), cur.push(t[0]))
    }
}

/// The lines of `t`, as `str::lines` and `BufRead::lines` yield them.
pub open spec fn lines_of(t: Seq<char>) -> Seq<Seq<char>> {
    lines_after(t, seq![])
}

/// The lines of `text`, without their line endings.
pub fn split_lines(text: &str) -> (r: Vec<String>)
    ensures
        r.deep_view() == lines_of(text@),
{
    let t = chars_of(text);
    let n = t.len();
    let mut out: Vec<String> = Vec::new();
    let mut cur: Vec<char> = Vec::new();
    assert(t@.skip(0) =~= t@);
    assert(out.deep_view() + lines_after(t@.skip(0), cur@) =~= lines_of(t@));
    for i in 0..n
        invariant
            n == t.len(),
            out.deep_view() + lines_after(t@.skip(i as int), cur@) == lines_of(t@),
    {
        let c = t[i];
        let ghost rest = t@.skip(i as int);
        assert(rest[0] == c);
        assert(rest.drop_first() =~= t@.skip(i + 1));
        if c == '\n' {
            if cur.len() > 0 && cur[cur.len() - 1] == '\r' {
                cur.pop();
            }
            let line = string_of(&cur);
            let ghost before = out.deep_view();
            out.push(line);
            assert(out.deep_view() =~= before.push(line@));
            assert(out.deep_view() + lines_after(t@.skip(i + 1), Seq::<char>::empty()) =~= before
                + (seq![line@] + lines_after(t@.skip(i + 1), Seq::<char>::empty())));
            cur = Vec::new();
        } else {
            cur.push(c);
        }
    }
    assert(t@.skip(n as int) =~= Seq::<char>::empty());
    if cur.len() > 0 {
        let line = string_of(&cur);
        let ghost before = out.deep_view();
        out.push(line);
        assert(out.deep_view() =~= before + seq![line@]);
    } else {
        assert(out.deep_view() =~= out.deep_view() + Seq::<Seq<char>>::empty());
    }
    out
}

/// The number of lines of the message file, as `str::lines().count()` gives it; when the file
/// could not be read (`None`), the count of the text `-`, which is one line.
pub fn get_lines_num(contents: Option<&str>) -> (r: usize)
    ensures
        r == lines_of(
            match contents {
                Some(t) => t@,
                None => seq!['-'],
            },
        ).len(),
{
    match contents {
        Some(t) => split_lines(t).len(),
        None => {
            let dash = String::from_str("-");
            proof {
                reveal_strlit("-");
                assert(dash@ =~= seq!['-']);
            }
            split_lines(dash.as_str()).len()
        },
    }
}


/// The lines `ls[a..b]`, each followed by `\n`.
pub open spec fn joined(ls: Seq<Seq<char>>, a: int, b: int) -> Seq<char>
    decreases b - a,
{
    if b <= a {
        seq![]
    } else {
        joined(ls, a, b - 1) + ls[b - 1] + seq!['\n']
    }
}

/// The limit, in bytes, past which no further line is collected.
pub open spec fn collect_limit() -> nat {
    1000
}

/// `r` is what reading lines `start + 1` to `end` (counted from 1) of `ls` collects: those
/// lines that exist, each followed by `\n`, except that collecting stops before a line as
/// soon as what was collected exceeds 1000 bytes.
pub open spec fn range_read(ls: Seq<Seq<char>>, start: int, end: int, r: Seq<char>) -> bool {
    let stop = if end < ls.len() { end } else { ls.len() as int };
    if start >= stop {
        r == Seq::<char>::empty()
    } else {
        exists|m: int|
            start <= m <= stop && r == joined(ls, start, m) && (m == stop || byte_len(r) > collect_limit())
                && forall|j: int| start <= j < m ==> byte_len(#[trigger] joined(ls, start, j)) <= collect_limit()
    }
}

/// The lines `start + 1` to `end` (counted from 1) of `text`, each followed by `\n`;
/// collecting stops early once more than 1000 bytes have been collected.
pub fn read_range(text: &str, start: usize, end: usize) -> (r: String)
    ensures
        range_read(lines_of(text@), start as int, end as int, r@),
{
    let lines = split_lines(text);
    let ghost ls = lines.deep_view();
    let n = lines.len();
    let mut result = String::new();
    let mut k: usize = 0;
    while k < n
        invariant
            n == lines.len(),
            ls == lines.deep_view(),
            ls == lines_of(text@),
            k <= n,
            k <= start ==> result@ == Seq::<char>::empty(),
            k > start ==> result@ == joined(ls, start as int, k as int) && k <= end,
            forall|j: int| start <= j < k ==> byte_len(#[trigger] joined(ls, start as int, j)) <= collect_limit(),
        ensures
            range_read(ls, start as int, end as int, result@),
        decreases n - k,
    {
        if utf8_len(result.as_str()) > 1000 {
            proof {
                let m = k as int;
                assert(start < k);
                assert(start <= m <= if end < ls.len() { end as int } else { ls.len() as int });
                assert(result@ == joined(ls, start as int, m) && byte_len(result@) > collect_limit());
            }
            break;
        }
        proof {
            if k >= start {
                if k == start {
                    assert(joined(ls, start as int, k as int) =~= Seq::<char>::empty());
                }
                assert(byte_len(joined(ls, start as int, k as int)) <= collect_limit());
            }
        }
        let line_number = k + 1;
        if line_number > start && line_number <= end {
            proof {
                if k == start {
                    assert(joined(ls, start as int, k as int) =~= Seq::<char>::empty());
                }
                assert(lines@[k as int]@ == ls[k as int]);
            }
            result.append(lines[k].as_str());
            push_char(&mut result, '\n');
            assert(result@ =~= joined(ls, start as int, k + 1));
        } else if line_number > end {
            proof {
                if k > start {
                    assert(k == end);
                    let m = k as int;
                    assert(start <= m);
                    assert(result@ == joined(ls, start as int, m));
                }
            }
            break;
        }
        k = k + 1;
    }
    result
}

/// The last line of `ls` that holds `target`, if any.
pub open spec fn last_match(ls: Seq<Seq<char>>, target: Seq<char>) -> Option<Seq<char>>
    decreases ls.len(),
{
    if ls.len() == 0 {
        None
    } else if contains(ls.last(), target) {
        Some(ls.last())
    } else {
        last_match(ls.drop_last(), target)
    }
}

/// The last line of `text` that holds `target`, or `None` when no line does.
pub fn get_last_match(text: &str, target: &str) -> (r: Option<String>)
    ensures
        r matches Some(line) ==> last_match(lines_of(text@), target@) == Some(line@),
        r is None ==> last_match(lines_of(text@), target@) is None,
{
    let lines = split_lines(text);
    let pattern = chars_of(target);
    let ghost ls = lines.deep_view();
    let mut k = lines.len();
    assert(ls.take(k as int) =~= ls);
    while k > 0
        invariant
            ls == lines.deep_view(),
            ls == lines_of(text@),
            k <= lines.len(),
            last_match(ls.take(k as int), target@) == last_match(ls, target@),
            pattern@ == target@,
        decreases k,
    {
        let line = chars_of(lines[k - 1].as_str());
        assert(ls.take(k as int).drop_last() =~= ls.take(k - 1));
        assert(ls.take(k as int).last() == lines@[k - 1]@);
        if contains_chars(&line, &pattern) {
            let found = lines[k - 1].clone();
            assert(last_match(ls.take(k as int), target@) == Some(found@));
            return Some(found);
        }
        k = k - 1;
    }
    assert(ls.take(0) =~= Seq::<Seq<char>>::empty());
    None
}


/// The number of line breaks in `s`.
pub open spec fn newline_count(s: Seq<char>) -> nat
    decreases s.len(),
{
    if s.len() == 0 {
        0
    } else {
        (if s[0] == '\n' { 1nat } else { 0nat }) + newline_count(s.drop_first())
    }
}

/// Line breaks of two texts put together are those of each.
proof fn lemma_newline_count_concat(x: Seq<char>, y: Seq<char>)
    ensures
        newline_count(x + y) == newline_count(x) + newline_count(y),
    decreases x.len(),
{
    if x.len() == 0 {
        assert(x + y =~= y);
    } else {
        lemma_newline_count_concat(x.drop_first(), y);
        assert((x + y).drop_first() =~= x.drop_first() + y);
        assert((x + y)[0] == x[0]);
    }
}

/// A text that ends with a line break has one line per line break.
proof fn lemma_lines_of_ended_text(t: Seq<char>, cur: Seq<char>)
    requires
        t.len() > 0,
        t.last() == '\n',
    ensures
        lines_after(t, cur).len() == newline_count(t),
    decreases t.len(),
{
    let rest = t.drop_first();
    if rest.len() == 0 {
        assert(t[0] == '\n');
        assert(newline_count(rest) == 0);
        assert(lines_after(rest, seq![]).len() == 0);
        assert(lines_after(t, cur) == seq![strip_cr(cur)] + lines_after(rest, seq![]));
    } else {
        assert(rest.last() == '\n');
        if t[0] == '\n' {
            lemma_lines_of_ended_text(rest, seq![]);
            assert(lines_after(t, cur) == seq![strip_cr(cur)] + lines_after(rest, seq![]));
        } else {
            lemma_lines_of_ended_text(rest, cur.push(t[0]));
            assert(lines_after(t, cur) == lines_after(rest, cur.push(t[0])));
        }
    }
}

/// Appending to a message file that is empty or ends with a line break some text that ends
/// with a line break adds one line per line break of that text to its line count.
pub proof fn law_appended_lines_counted(c: Seq<char>, s: Seq<char>)
    requires
        c.len() == 0 || c.last() == '\n',
        s.len() > 0,
        s.last() == '\n',
    ensures
        lines_of(c + s).len() == lines_of(c).len() + newline_count(s),
{
    let t = c + s;
    assert(t.last() == s.last());
    lemma_lines_of_ended_text(t, seq![]);
    lemma_newline_count_concat(c, s);
    if c.len() == 0 {
        assert(newline_count(c) == 0);
    } else {
        lemma_lines_of_ended_text(c, seq![]);
    }
}

/// Lines `a..b` then lines `b..c` are lines `a..c`.
pub proof fn lemma_joined_concat(ls: Seq<Seq<char>>, a: int, b: int, c: int)
    requires
        a <= b <= c,
    ensures
        joined(ls, a, b) + joined(ls, b, c) == joined(ls, a, c),
    decreases c - b,
{
    if b == c {
        assert(joined(ls, a, b) + joined(ls, b, c) =~= joined(ls, a, c));
    } else {
        lemma_joined_concat(ls, a, b, c - 1);
        assert(joined(ls, a, b) + joined(ls, b, c) =~= joined(ls, a, c));
    }
}

/// The line count at which a read of lines up to `end` stops: `end`, or the file's length.
pub open spec fn read_stop(ls: Seq<Seq<char>>, end: int) -> int {
    if end < ls.len() { end } else { ls.len() as int }
}

/// Reading lines `s + 1` to `e` is never cut short: no collected run of these lines that
/// leaves out the last one exceeds the 1000-byte limit.
pub open spec fn read_fits(ls: Seq<Seq<char>>, s: int, e: int) -> bool {
    forall|j: int| s <= j < e && j < ls.len() ==> byte_len(#[trigger] joined(ls, s, j)) <= collect_limit()
}

/// A read that is not cut short collects all the lines it asks for that exist.
pub proof fn lemma_read_uncut(ls: Seq<Seq<char>>, s: int, e: int, r: Seq<char>)
    requires
        range_read(ls, s, e, r),
        read_fits(ls, s, e),
    ensures
        r == (if s < read_stop(ls, e) { joined(ls, s, read_stop(ls, e)) } else { Seq::<char>::empty() }),
{
    let stop = read_stop(ls, e);
    if s < stop {
        let m = choose|m: int|
            s <= m <= stop && r == joined(ls, s, m) && (m == stop || byte_len(r) > collect_limit())
                && forall|j: int| s <= j < m ==> byte_len(#[trigger] joined(ls, s, j)) <= collect_limit();
        if m < stop {
            assert(byte_len(joined(ls, s, m)) <= collect_limit());
        }
    }
}

/// Reading further never changes what a shorter read collected: the read of lines up to
/// `e1` is a prefix of the read of lines up to any `e2 >= e1`.
pub proof fn law_read_range_grows_with_end(
    ls: Seq<Seq<char>>,
    s: int,
    e1: int,
    e2: int,
    r1: Seq<char>,
    r2: Seq<char>,
)
    requires
        0 <= s,
        e1 <= e2,
        range_read(ls, s, e1, r1),
        range_read(ls, s, e2, r2),
    ensures
        r1.len() <= r2.len(),
        r2.take(r1.len() as int) == r1,
{
    let stop1 = read_stop(ls, e1);
    let stop2 = read_stop(ls, e2);
    if s >= stop1 {
        assert(r2.take(0) =~= r1);
    } else {
        let m1 = choose|m: int|
            s <= m <= stop1 && r1 == joined(ls, s, m) && (m == stop1 || byte_len(r1) > collect_limit())
                && forall|j: int| s <= j < m ==> byte_len(#[trigger] joined(ls, s, j)) <= collect_limit();
        let m2 = choose|m: int|
            s <= m <= stop2 && r2 == joined(ls, s, m) && (m == stop2 || byte_len(r2) > collect_limit())
                && forall|j: int| s <= j < m ==> byte_len(#[trigger] joined(ls, s, j)) <= collect_limit();
        if m2 < m1 {
            assert(byte_len(joined(ls, s, m2)) <= collect_limit());
        }
        lemma_joined_concat(ls, s, m1, m2);
        assert((r1 + joined(ls, m1, m2)).take(r1.len() as int) =~= r1);
    }
}

/// A read that is not cut short splits at any line: reading lines up to `b`, then lines
/// from `b` to `c`, collects what reading lines up to `c` collects.
pub proof fn law_read_range_splits(
    ls: Seq<Seq<char>>,
    a: int,
    b: int,
    c: int,
    r_ab: Seq<char>,
    r_bc: Seq<char>,
    r_ac: Seq<char>,
)
    requires
        0 <= a <= b <= c,
        read_fits(ls, a, c),
        range_read(ls, a, b, r_ab),
        range_read(ls, b, c, r_bc),
        range_read(ls, a, c, r_ac),
    ensures
        r_ab + r_bc == r_ac,
{
    assert(read_fits(ls, a, b));
    assert forall|j: int| b <= j < c && j < ls.len() implies byte_len(#[trigger] joined(ls, b, j))
        <= collect_limit() by {
        lemma_joined_concat(ls, a, b, j);
        lemma_byte_len_concat(joined(ls, a, b), joined(ls, b, j));
        assert(byte_len(joined(ls, a, j)) <= collect_limit());
    }
    assert(read_fits(ls, b, c));
    lemma_read_uncut(ls, a, b, r_ab);
    lemma_read_uncut(ls, b, c, r_bc);
    lemma_read_uncut(ls, a, c, r_ac);
    let sb = read_stop(ls, b);
    let sc = read_stop(ls, c);
    if a < sc {
        if b < sc {
            if a < b {
                lemma_joined_concat(ls, a, b, sc);
            } else {
                assert(r_ab + r_bc =~= r_bc);
            }
        } else {
            assert(sb == sc);
            assert(r_ab + r_bc =~= r_ab);
        }
    } else {
        assert(r_ab + r_bc =~= Seq::<char>::empty());
    }
}

} // verus!
