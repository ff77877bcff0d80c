//! Character-sequence primitives shared by the relay logic.
use vstd::prelude::*;
use vstd::utf8::encode_utf8;

verus! {

/// Appends one character to a string.
/// Trusted: `String::push` appends `c` at the end of the string, as std documents.
#[verifier::external_body]
pub(crate) fn push_char(s: &mut String, c: char)
    ensures
        final(s)@ == old(s)@.push(c),
{
    s.push(c);
}

/// The characters of `s`, in order.
pub fn chars_of(s: &str) -> (r: Vec<char>)
    ensures
        r@ == s@,
{
    let mut r: Vec<char> = Vec::new();
    for c in it: s.chars()
        invariant
            r@ == it.seq().take(it.index() as int),
    {
        r.push(c);
    }
    r
}

/// A string made of the characters of `v`, in order.
pub fn string_of(v: &Vec<char>) -> (r: String)
    ensures
        r@ == v@,
{
    let mut r = String::new();
    for i in 0..v.len()
        invariant
            r@ == v@.take(i as int),
    {
        push_char(&mut r, v[i]);
        assert(v@.take(i + 1) =~= v@.take(i as int).push(v@[i as int]));
    }
    assert(v@.take(v.len() as int) =~= v@);
    r
}


/// The number of bytes of the UTF-8 encoding of `s`, which `str::len` returns.
pub open spec fn byte_len(s: Seq<char>) -> nat {
    encode_utf8(s).len()
}

/// The UTF-8 bytes of two texts put together are those of the first, then those of the second.
pub proof fn lemma_byte_len_concat(x: Seq<char>, y: Seq<char>)
    ensures
        byte_len(x + y) == byte_len(x) + byte_len(y),
    decreases x.len(),
{
    if x.len() == 0 {
        assert(x + y =~= y);
    } else {
        lemma_byte_len_concat(x.drop_first(), y);
        assert((x + y).drop_first() =~= x.drop_first() + y);
        assert((x + y)[0] == x[0]);
    }
}

/// The number of UTF-8 bytes of `s`, as `str::len` gives it.
pub fn utf8_len(s: &str) -> (r: usize)
    ensures
        r == byte_len(s@),
{
    let b = s.as_bytes();
    b.len()
}

/// `p` occurs in `s` starting at index `i`.
pub open spec fn occurs_at(s: Seq<char>, p: Seq<char>, i: int) -> bool {
    0 <= i && i + p.len() <= s.len() && s.subrange(i, i + p.len()) == p
}

/// `p` occurs somewhere in `s` (the empty pattern occurs everywhere).
pub open spec fn contains(s: Seq<char>, p: Seq<char>) -> bool {
    exists|i: int| occurs_at(s, p, i)
}

/// `s` with every occurrence of the non-empty pattern `from` replaced by `to`,
/// matches taken from left to right without overlap.
pub open spec fn replaced(s: Seq<char>, from: Seq<char>, to: Seq<char>) -> Seq<char>
    decreases s.len(),
{
    if from.len() == 0 || s.len() == 0 {
        s
    } else if occurs_at(s, from, 0) {
        to + replaced(s.skip(from.len() as int), from, to)
    } else {
        seq![s[0]] + replaced(s.drop_first(), from, to)
    }
}

/// Whether `p` occurs in `s` at index `i`.
pub(crate) fn matches_at(s: &Vec<char>, p: &Vec<char>, i: usize) -> (r: bool)
    requires
        i <= s.len(),
    ensures
        r == occurs_at(s@, p@, i as int),
{
    if p.len() > s.len() - i {
        return false;
    }
    let mut k: usize = 0;
    while k < p.len()
        invariant
            i + p.len() <= s.len(),
            k <= p.len(),
            forall|j: int| 0 <= j < k ==> s@[i + j] == p@[j],
        decreases p.len() - k,
    {
        if s[i + k] != p[k] {
            assert(s@.subrange(i as int, i + p.len())[k as int] != p@[k as int]);
            return false;
        }
        k = k + 1;
    }
    assert(s@.subrange(i as int, i + p.len()) =~= p@);
    true
}

/// Whether `p` occurs somewhere in `s`.
pub(crate) fn contains_chars(s: &Vec<char>, p: &Vec<char>) -> (r: bool)
    ensures
        r == contains(s@, p@),
{
    if p.len() > s.len() {
        return false;
    }
    let last = s.len() - p.len();
    let mut i: usize = 0;
    loop
        invariant
            last == s.len() - p.len(),
            p.len() <= s.len(),
            i <= last,
            forall|j: int| 0 <= j < i ==> !occurs_at(s@, p@, j),
        ensures
            forall|j: int| 0 <= j <= last ==> !occurs_at(s@, p@, j),
        decreases last - i,
    {
        if matches_at(s, p, i) {
            return true;
        }
        if i == last {
            break;
        }
        i = i + 1;
    }
    assert forall|j: int| !occurs_at(s@, p@, j) by {
        if 0 <= j <= last {
        }
    }
    false
}

/// Whether `a` and `b` hold the same characters.
pub(crate) fn chars_equal(a: &Vec<char>, b: &Vec<char>) -> (r: bool)
    ensures
        r == (a@ == b@),
{
    if a.len() != b.len() {
        return false;
    }
    for i in 0..a.len()
        invariant
            a.len() == b.len(),
            forall|j: int| 0 <= j < i ==> a@[j] == b@[j],
    {
        if a[i] != b[i] {
            return false;
        }
    }
    assert(a@ =~= b@);
    true
}

/// Appends the characters of `src` to `dst`.
pub(crate) fn append_chars(dst: &mut Vec<char>, src: &Vec<char>)
    ensures
        final(dst)@ == old(dst)@ + src@,
{
    let ghost start = dst@;
    for i in 0..src.len()
        invariant
            dst@ == start + src@.take(i as int),
    {
        dst.push(src[i]);
        assert(src@.take(i + 1) =~= src@.take(i as int).push(src@[i as int]));
    }
    assert(src@.take(src.len() as int) =~= src@);
}

/// `s` with every occurrence of `from` replaced by `to`, as `str::replace` does.
pub(crate) fn replace_all(s: &Vec<char>, from: &Vec<char>, to: &Vec<char>) -> (r: Vec<char>)
    requires
        from.len() > 0,
    ensures
        r@ == replaced(s@, from@, to@),
{
    let n = s.len();
    let mut out: Vec<char> = Vec::new();
    let mut i: usize = 0;
    assert(s@.skip(0) =~= s@);
    while i < n
        invariant
            n == s.len(),
            from.len() > 0,
            i <= n,
            out@ + replaced(s@.skip(i as int), from@, to@) == replaced(s@, from@, to@),
        decreases n - i,
    {
        let ghost rest = s@.skip(i as int);
        assert(rest[0] == s@[i as int]);
        if matches_at(s, from, i) {
            assert(rest.subrange(0, from@.len() as int) =~= s@.subrange(i as int, i + from@.len()));
            assert(occurs_at(rest, from@, 0));
            assert(rest.skip(from@.len() as int) =~= s@.skip(i + from@.len()));
            append_chars(&mut out, to);
            i = i + from.len();
        } else {
            assert(!occurs_at(rest, from@, 0)) by {
                if occurs_at(rest, from@, 0) {
                    assert(rest.subrange(0, from@.len() as int) =~= s@.subrange(i as int, i + from@.len()));
                }
            }
            assert(rest.drop_first() =~= s@.skip(i + 1));
            out.push(s[i]);
            i = i + 1;
        }
        assert(out@ + replaced(s@.skip(i as int), from@, to@) =~= replaced(s@, from@, to@));
    }
    assert(s@.skip(n as int) =~= Seq::<char>::empty());
    assert(out@ + Seq::<char>::empty() =~= out@);
    out
}


/// Every character of `s` satisfies `f`.
pub open spec fn all_chars(s: Seq<char>, f: spec_fn(char) -> bool) -> bool {
    forall|i: int| 0 <= i < s.len() ==> f(#[trigger] s[i])
}

/// Replacing a pattern that does not occur leaves the text unchanged.
pub proof fn lemma_replaced_absent(s: Seq<char>, from: Seq<char>, to: Seq<char>)
    requires
        !contains(s, from),
    ensures
        replaced(s, from, to) == s,
    decreases s.len(),
{
    if from.len() == 0 || s.len() == 0 {
    } else {
        assert(!occurs_at(s, from, 0));
        let rest = s.drop_first();
        assert(!contains(rest, from)) by {
            if contains(rest, from) {
                let i = choose|i: int| occurs_at(rest, from, i);
                assert(s.subrange(i + 1, i + 1 + from.len()) =~= rest.subrange(i, i + from.len()));
                assert(occurs_at(s, from, i + 1));
            }
        }
        lemma_replaced_absent(rest, from, to);
        assert(seq![s[0]] + rest =~= s);
    }
}

/// When every character of the text and of the replacement satisfies `f`, so does every
/// character of the result.
pub proof fn lemma_replaced_all_chars(
    s: Seq<char>,
    from: Seq<char>,
    to: Seq<char>,
    f: spec_fn(char) -> bool,
)
    requires
        all_chars(s, f),
        all_chars(to, f),
    ensures
        all_chars(replaced(s, from, to), f),
    decreases s.len(),
{
    if from.len() == 0 || s.len() == 0 {
    } else if occurs_at(s, from, 0) {
        let rest = s.skip(from.len() as int);
        assert(all_chars(rest, f)) by {
            assert forall|i: int| 0 <= i < rest.len() implies f(#[trigger] rest[i]) by {
                assert(rest[i] == s[i + from.len()]);
            }
        }
        lemma_replaced_all_chars(rest, from, to, f);
        let r = replaced(rest, from, to);
        assert forall|i: int| 0 <= i < (to + r).len() implies f(#[trigger] (to + r)[i]) by {
            if i < to.len() {
            } else {
                assert((to + r)[i] == r[i - to.len()]);
            }
        }
    } else {
        let rest = s.drop_first();
        assert(all_chars(rest, f)) by {
            assert forall|i: int| 0 <= i < rest.len() implies f(#[trigger] rest[i]) by {
                assert(rest[i] == s[i + 1]);
            }
        }
        lemma_replaced_all_chars(rest, from, to, f);
        let r = replaced(rest, from, to);
        assert forall|i: int| 0 <= i < (seq![s[0]] + r).len() implies f(#[trigger] (seq![s[0]] + r)[i]) by {
            if i == 0 {
            } else {
                assert((seq![s[0]] + r)[i] == r[i - 1]);
            }
        }
    }
}


/// A match of `p` at the start of `x + y` that cannot reach `x`'s last character lies in `x`.
proof fn lemma_match_in_left(x: Seq<char>, y: Seq<char>, p: Seq<char>)
    requires
        x.len() > 0,
        !p.contains(x.last()),
        occurs_at(x + y, p, 0),
    ensures
        p.len() < x.len(),
        occurs_at(x, p, 0),
{
    if p.len() >= x.len() {
        assert((x + y).subrange(0, p.len() as int)[x.len() - 1] == x.last());
        assert(p[x.len() - 1] == x.last());
    }
    assert(x.subrange(0, p.len() as int) =~= (x + y).subrange(0, p.len() as int));
}

/// Replacing in two texts put together replaces in each, when the first ends with a
/// character that the pattern does not hold: no match can run across the join.
pub proof fn lemma_replaced_concat(x: Seq<char>, y: Seq<char>, p: Seq<char>, to: Seq<char>)
    requires
        p.len() > 0,
        x.len() > 0,
        !p.contains(x.last()),
    ensures
        replaced(x + y, p, to) == replaced(x, p, to) + replaced(y, p, to),
    decreases x.len(),
{
    let t = x + y;
    if occurs_at(t, p, 0) {
        lemma_match_in_left(x, y, p);
        let xr = x.skip(p.len() as int);
        assert(t.skip(p.len() as int) =~= xr + y);
        assert(xr.last() == x.last());
        lemma_replaced_concat(xr, y, p, to);
        assert(to + (replaced(xr, p, to) + replaced(y, p, to)) =~= (to + replaced(xr, p, to)) + replaced(y, p, to));
    } else {
        assert(!occurs_at(x, p, 0)) by {
            if occurs_at(x, p, 0) {
                assert(t.subrange(0, p.len() as int) =~= x.subrange(0, p.len() as int));
            }
        }
        let xr = x.drop_first();
        assert(t.drop_first() =~= xr + y);
        assert(t[0] == x[0]);
        if xr.len() == 0 {
            assert(replaced(xr, p, to) =~= xr);
            assert(xr + y =~= y);
            assert(replaced(x, p, to) == seq![x[0]] + replaced(xr, p, to));
            assert(seq![x[0]] + xr =~= seq![x[0]]);
        } else {
            assert(xr.last() == x.last());
            lemma_replaced_concat(xr, y, p, to);
        }
        assert(seq![x[0]] + (replaced(xr, p, to) + replaced(y, p, to)) =~= (seq![x[0]] + replaced(xr, p, to))
            + replaced(y, p, to));
    }
}

/// Replacing keeps the last character of a text when the pattern does not hold it.
pub proof fn lemma_replaced_keeps_last(x: Seq<char>, p: Seq<char>, to: Seq<char>)
    requires
        p.len() > 0,
        x.len() > 0,
        !p.contains(x.last()),
    ensures
        replaced(x, p, to).len() > 0,
        replaced(x, p, to).last() == x.last(),
{
    let init = x.drop_last();
    let last = seq![x.last()];
    assert(init + last =~= x);
    lemma_replaced_keeps_last_from(init, last, p, to);
}

/// The end of a replacement whose text ends with a character the pattern does not hold.
proof fn lemma_replaced_keeps_last_from(init: Seq<char>, last: Seq<char>, p: Seq<char>, to: Seq<char>)
    requires
        p.len() > 0,
        last.len() == 1,
        !p.contains(last[0]),
    ensures
        replaced(init + last, p, to).len() > 0,
        replaced(init + last, p, to).last() == last[0],
    decreases init.len(),
{
    let t = init + last;
    if init.len() == 0 {
        assert(t =~= last);
        assert(!occurs_at(t, p, 0)) by {
            if occurs_at(t, p, 0) {
                assert(p[0] == last[0]);
            }
        }
        assert(t.drop_first() =~= Seq::<char>::empty());
        assert(replaced(t, p, to) == seq![t[0]] + replaced(t.drop_first(), p, to));
    } else if occurs_at(t, p, 0) {
        if p.len() >= t.len() {
            assert(t.subrange(0, p.len() as int)[t.len() - 1] == last[0]);
            assert(p[t.len() - 1] == last[0]);
        }
        let rest = t.skip(p.len() as int);
        if p.len() <= init.len() {
            assert(rest =~= init.skip(p.len() as int) + last);
            lemma_replaced_keeps_last_from(init.skip(p.len() as int), last, p, to);
        } else {
            assert(false);
        }
    } else {
        assert(t.drop_first() =~= init.drop_first() + last);
        lemma_replaced_keeps_last_from(init.drop_first(), last, p, to);
    }
}

} // verus!
