use vstd::prelude::*;
use vstd::string::*;
use vstd::utf8::*;

verus! {

/// The characters that count as white space: those with the Unicode
/// property `White_Space`.
pub open spec fn is_whitespace(c: char) -> bool {
    let n = c as u32;
    ||| 0x09 <= n <= 0x0D
    ||| n == 0x20
    ||| n == 0x85
    ||| n == 0xA0
    ||| n == 0x1680
    ||| 0x2000 <= n <= 0x200A
    ||| n == 0x2028
    ||| n == 0x2029
    ||| n == 0x202F
    ||| n == 0x205F
    ||| n == 0x3000
}

/// `s` without its leading white space.
pub open spec fn trim_start(s: Seq<char>) -> Seq<char>
    decreases s.len(),
{
    if s.len() > 0 && is_whitespace(s[0]) {
        trim_start(s.drop_first())
    } else {
        s
    }
}

/// `s` without its trailing white space.
pub open spec fn trim_end(s: Seq<char>) -> Seq<char>
    decreases s.len(),
{
    if s.len() > 0 && is_whitespace(s.last()) {
        trim_end(s.drop_last())
    } else {
        s
    }
}

/// `s` without its leading and trailing white space.
pub open spec fn trim(s: Seq<char>) -> Seq<char> {
    trim_end(trim_start(s))
}

/// Whether `c` counts as white space.
fn is_whitespace_char(c: char) -> (b: bool)
    ensures
        b == is_whitespace(c),
{
    let n: u32 = c as u32;
    (0x09 <= n && n <= 0x0D) || n == 0x20 || n == 0x85 || n == 0xA0 || n == 0x1680 || (0x2000 <= n
        && n <= 0x200A) || n == 0x2028 || n == 0x2029 || n == 0x202F || n == 0x205F || n == 0x3000
}

/// If everything before `a` is white space and `s[a]`, where there is one, is
/// not, then trimming the start leaves `s` from `a` on.
pub proof fn lemma_trim_start(s: Seq<char>, a: int)
    requires
        0 <= a <= s.len(),
        forall|j: int| 0 <= j < a ==> is_whitespace(s[j]),
        a < s.len() ==> !is_whitespace(s[a]),
    ensures
        trim_start(s) == s.subrange(a, s.len() as int),
    decreases a,
{
    if a == 0 {
        assert(s.subrange(0, s.len() as int) =~= s);
    } else {
        let t = s.drop_first();
        assert forall|j: int| 0 <= j < a - 1 implies is_whitespace(t[j]) by {
            assert(t[j] == s[j + 1]);
        }
        lemma_trim_start(t, a - 1);
        assert(t.subrange(a - 1, t.len() as int) =~= s.subrange(a, s.len() as int));
    }
}

/// If everything from `b` on is white space and `s[b - 1]`, where there is one,
/// is not, then trimming the end leaves `s` up to `b`.
pub proof fn lemma_trim_end(s: Seq<char>, b: int)
    requires
        0 <= b <= s.len(),
        forall|j: int| b <= j < s.len() ==> is_whitespace(s[j]),
        0 < b ==> !is_whitespace(s[b - 1]),
    ensures
        trim_end(s) == s.subrange(0, b),
    decreases s.len() - b,
{
    if b == s.len() {
        assert(s.subrange(0, b) =~= s);
    } else {
        let t = s.drop_last();
        lemma_trim_end(t, b);
        assert(t.subrange(0, b) =~= s.subrange(0, b));
    }
}

/// What trimming the start leaves is the end of `s`, and does not begin with
/// white space.
pub proof fn lemma_trim_start_is_suffix(s: Seq<char>)
    ensures
        trim_start(s).len() <= s.len(),
        trim_start(s) == s.skip(s.len() - trim_start(s).len()),
        trim_start(s).len() > 0 ==> !is_whitespace(trim_start(s)[0]),
    decreases s.len(),
{
    if s.len() > 0 && is_whitespace(s[0]) {
        let t = s.drop_first();
        lemma_trim_start_is_suffix(t);
        assert(t.skip(t.len() - trim_start(t).len()) =~= s.skip(s.len() - trim_start(s).len()));
    } else {
        assert(s.skip(0) =~= s);
    }
}

/// What trimming the end leaves is the beginning of `s`, and does not end
/// with white space.
pub proof fn lemma_trim_end_is_prefix(s: Seq<char>)
    ensures
        trim_end(s).len() <= s.len(),
        trim_end(s) == s.take(trim_end(s).len() as int),
        trim_end(s).len() > 0 ==> !is_whitespace(trim_end(s).last()),
    decreases s.len(),
{
    if s.len() > 0 && is_whitespace(s.last()) {
        let t = s.drop_last();
        lemma_trim_end_is_prefix(t);
        assert(t.take(trim_end(t).len() as int) =~= s.take(trim_end(s).len() as int));
    } else {
        assert(s.take(s.len() as int) =~= s);
    }
}

/// A trimmed text neither begins nor ends with white space, and every
/// character of it is one of `s`.
pub proof fn lemma_trim_ends(s: Seq<char>)
    ensures
        trim(s).len() <= s.len(),
        trim(s).len() > 0 ==> !is_whitespace(trim(s)[0]) && !is_whitespace(trim(s).last()),
        forall|i: int| 0 <= i < trim(s).len() ==> s.contains(#[trigger] trim(s)[i]),
{
    let inner = trim_start(s);
    lemma_trim_start_is_suffix(s);
    lemma_trim_end_is_prefix(inner);
    let k = s.len() - inner.len();
    assert forall|i: int| 0 <= i < trim(s).len() implies s.contains(#[trigger] trim(s)[i]) by {
        assert(trim(s)[i] == inner[i]);
        assert(inner[i] == s[i + k]);
    }
    if trim(s).len() > 0 {
        assert(trim(s)[0] == inner[0]);
    }
}

/// Trimming a trimmed text changes nothing.
pub proof fn lemma_trim_is_idempotent(s: Seq<char>)
    ensures
        trim(trim(s)) == trim(s),
{
    let t = trim(s);
    lemma_trim_ends(s);
    lemma_trim_start(t, 0);
    assert(t.subrange(0, t.len() as int) =~= t);
    lemma_trim_end(t, t.len() as int);
}

/// The slice of `s` between its first and its last character that is not
/// white space; the empty slice where there is none.
pub fn trim_str(s: &str) -> (t: &str)
    ensures
        t@ == trim(s@),
{
    let n: usize = s.unicode_len();
    let mut start: usize = 0;
    let mut end: usize = 0;
    let mut i: usize = 0;
    for c in it: s.chars()
        invariant
            n == s@.len(),
            it.seq() == s@,
            i == it.index(),
            start <= end <= i,
            forall|j: int| 0 <= j < start ==> is_whitespace(s@[j]),
            forall|j: int| end <= j < i ==> is_whitespace(s@[j]),
            start < end ==> !is_whitespace(s@[start as int]) && !is_whitespace(s@[end - 1]),
            start == end ==> start == i,
    {
        if is_whitespace_char(c) {
            if start == end {
                start = i + 1;
                end = i + 1;
            }
        } else {
            if start == end {
                start = i;
            }
            end = i + 1;
        }
        i = i + 1;
    }
    proof {
        let mid = s@.subrange(start as int, n as int);
        lemma_trim_start(s@, start as int);
        assert forall|j: int| end - start <= j < mid.len() implies is_whitespace(mid[j]) by {
            assert(mid[j] == s@[j + start]);
        }
        lemma_trim_end(mid, end - start);
        assert(mid.subrange(0, end - start) =~= s@.subrange(start as int, end as int));
    }
    s.substring_char(start, end)
}

/// `s` without any occurrence of `c`.
pub open spec fn without_char(s: Seq<char>, c: char) -> Seq<char>
    decreases s.len(),
{
    if s.len() == 0 {
        s
    } else if s[0] == c {
        without_char(s.drop_first(), c)
    } else {
        seq![s[0]] + without_char(s.drop_first(), c)
    }
}

/// `s` without any occurrence of the two characters `a`, `b` in a row. The
/// occurrences are found from left to right, and what is left is not searched
/// again.
pub open spec fn without_pair(s: Seq<char>, a: char, b: char) -> Seq<char>
    decreases s.len(),
{
    if s.len() >= 2 && s[0] == a && s[1] == b {
        without_pair(s.skip(2), a, b)
    } else if s.len() > 0 {
        seq![s[0]] + without_pair(s.drop_first(), a, b)
    } else {
        s
    }
}

/// `s` with `to` in the place of every `from`.
pub open spec fn replace_char(s: Seq<char>, from: char, to: char) -> Seq<char> {
    Seq::new(s.len(), |i: int| if s[i] == from { to } else { s[i] })
}

/// Removing a character from two texts in a row is removing it from each.
pub proof fn lemma_without_char_concat(a: Seq<char>, b: Seq<char>, c: char)
    ensures
        without_char(a + b, c) == without_char(a, c) + without_char(b, c),
    decreases a.len(),
{
    if a.len() == 0 {
        assert(a + b =~= b);
        assert(without_char(a, c) + without_char(b, c) =~= without_char(b, c));
    } else {
        lemma_without_char_concat(a.drop_first(), b, c);
        assert((a + b).drop_first() =~= a.drop_first() + b);
        assert(without_char(a + b, c) =~= without_char(a, c) + without_char(b, c));
    }
}

/// What is left when a character is removed holds that character nowhere,
/// and holds nothing that the text did not hold.
pub proof fn lemma_without_char_content(s: Seq<char>, c: char)
    ensures
        without_char(s, c).len() <= s.len(),
        forall|i: int|
            0 <= i < without_char(s, c).len() ==> #[trigger] without_char(s, c)[i] != c
                && s.contains(without_char(s, c)[i]),
    decreases s.len(),
{
    if s.len() > 0 {
        let t = s.drop_first();
        let rest = without_char(t, c);
        lemma_without_char_content(t, c);
        assert forall|i: int| 0 <= i < without_char(s, c).len() implies #[trigger] without_char(
            s,
            c,
        )[i] != c && s.contains(without_char(s, c)[i]) by {
            let e = without_char(s, c)[i];
            if s[0] != c && i == 0 {
                assert(e == s[0]);
            } else {
                let j = if s[0] == c {
                    i
                } else {
                    i - 1
                };
                assert(e == rest[j]);
                assert(t.contains(rest[j]));
                let k = choose|k: int| 0 <= k < t.len() && t[k] == e;
                assert(s[k + 1] == e);
            }
        }
    }
}

/// Removing a pair from two texts in a row is removing it from each, unless
/// the first ends with the pair's first character and the second begins with
/// its second one.
pub proof fn lemma_without_pair_concat(a: Seq<char>, b: Seq<char>, x: char, y: char)
    requires
        !(a.len() > 0 && a.last() == x && b.len() > 0 && b[0] == y),
    ensures
        without_pair(a + b, x, y) == without_pair(a, x, y) + without_pair(b, x, y),
    decreases a.len(),
{
    if a.len() == 0 {
        assert(a + b =~= b);
        assert(without_pair(a, x, y) + without_pair(b, x, y) =~= without_pair(b, x, y));
    } else if a.len() >= 2 && a[0] == x && a[1] == y {
        lemma_without_pair_concat(a.skip(2), b, x, y);
        assert((a + b).skip(2) =~= a.skip(2) + b);
    } else {
        lemma_without_pair_concat(a.drop_first(), b, x, y);
        assert((a + b).drop_first() =~= a.drop_first() + b);
        assert(without_pair(a + b, x, y) =~= without_pair(a, x, y) + without_pair(b, x, y));
    }
}

/// What is left when a pair is removed holds nothing that the text did not
/// hold.
pub proof fn lemma_without_pair_content(s: Seq<char>, x: char, y: char)
    ensures
        without_pair(s, x, y).len() <= s.len(),
        forall|i: int|
            0 <= i < without_pair(s, x, y).len() ==> s.contains(#[trigger] without_pair(s, x, y)[i]),
    decreases s.len(),
{
    if s.len() >= 2 && s[0] == x && s[1] == y {
        let t = s.skip(2);
        lemma_without_pair_content(t, x, y);
        assert forall|i: int| 0 <= i < without_pair(s, x, y).len() implies s.contains(
            #[trigger] without_pair(s, x, y)[i],
        ) by {
            let e = without_pair(s, x, y)[i];
            assert(t.contains(e));
            let k = choose|k: int| 0 <= k < t.len() && t[k] == e;
            assert(s[k + 2] == e);
        }
    } else if s.len() > 0 {
        let t = s.drop_first();
        let rest = without_pair(t, x, y);
        lemma_without_pair_content(t, x, y);
        assert forall|i: int| 0 <= i < without_pair(s, x, y).len() implies s.contains(
            #[trigger] without_pair(s, x, y)[i],
        ) by {
            let e = without_pair(s, x, y)[i];
            if i == 0 {
                assert(e == s[0]);
            } else {
                assert(e == rest[i - 1]);
                assert(t.contains(rest[i - 1]));
                let k = choose|k: int| 0 <= k < t.len() && t[k] == e;
                assert(s[k + 1] == e);
            }
        }
    }
}

/// The character of `s` at index `i`.
pub(crate) fn ascii_at(s: &str, i: usize) -> (c: char)
    requires
        is_ascii_chars(s@),
        i < s@.len(),
    ensures
        c == s@[i as int],
{
    s.get_ascii(i) as char
}

/// Appends the character of `s` at index `i` to `out`.
pub(crate) fn push_char_of(out: &mut String, s: &str, i: usize)
    requires
        is_ascii_chars(s@),
        i < s@.len(),
        i < usize::MAX,
    ensures
        final(out)@ == old(out)@.push(s@[i as int]),
{
    let piece = s.substring_ascii(i, i + 1);
    out.append(piece);
    proof {
        assert(piece@ =~= seq![s@[i as int]]);
        assert(final(out)@ =~= old(out)@.push(s@[i as int]));
    }
}

/// A copy of `s` without the character `c`.
pub(crate) fn remove_char(s: &str, c: char) -> (out: String)
    requires
        is_ascii_chars(s@),
    ensures
        out@ == without_char(s@, c),
        is_ascii_chars(out@),
{
    let n: usize = s.unicode_len();
    let mut out = String::new();
    let mut i: usize = 0;
    proof {
        assert(s@.skip(0) =~= s@);
        assert(out@ + without_char(s@, c) =~= without_char(s@, c));
    }
    while i < n
        invariant
            n == s@.len(),
            is_ascii_chars(s@),
            i <= n,
            is_ascii_chars(out@),
            out@ + without_char(s@.skip(i as int), c) == without_char(s@, c),
        decreases n - i,
    {
        let ghost before = out@;
        let ghost rest = s@.skip(i as int);
        if ascii_at(s, i) != c {
            push_char_of(&mut out, s, i);
        }
        proof {
            assert(rest.drop_first() =~= s@.skip(i + 1));
            assert(out@ + without_char(s@.skip(i + 1), c) =~= before + without_char(rest, c));
        }
        i = i + 1;
    }
    proof {
        assert(out@ + without_char(s@.skip(n as int), c) =~= out@);
    }
    out
}

/// A copy of `s` without the pairs `a`, `b`, found from left to right.
pub(crate) fn remove_pair(s: &str, a: char, b: char) -> (out: String)
    requires
        is_ascii_chars(s@),
    ensures
        out@ == without_pair(s@, a, b),
        is_ascii_chars(out@),
{
    let n: usize = s.unicode_len();
    let mut out = String::new();
    let mut i: usize = 0;
    proof {
        assert(s@.skip(0) =~= s@);
        assert(out@ + without_pair(s@, a, b) =~= without_pair(s@, a, b));
    }
    while i < n
        invariant
            n == s@.len(),
            is_ascii_chars(s@),
            i <= n,
            is_ascii_chars(out@),
            out@ + without_pair(s@.skip(i as int), a, b) == without_pair(s@, a, b),
        decreases n - i,
    {
        let ghost before = out@;
        let ghost rest = s@.skip(i as int);
        if n - i >= 2 && ascii_at(s, i) == a && ascii_at(s, i + 1) == b {
            proof {
                assert(rest.skip(2) =~= s@.skip(i + 2));
            }
            i = i + 2;
        } else {
            push_char_of(&mut out, s, i);
            proof {
                assert(rest.drop_first() =~= s@.skip(i + 1));
                assert(out@ + without_pair(s@.skip(i + 1), a, b) =~= before + without_pair(
                    rest,
                    a,
                    b,
                ));
            }
            i = i + 1;
        }
    }
    proof {
        assert(out@ + without_pair(s@.skip(n as int), a, b) =~= out@);
    }
    out
}

/// A copy of `s` with the one character of `to` in the place of every `from`.
pub(crate) fn replace_each(s: &str, from: char, to: &str) -> (out: String)
    requires
        is_ascii_chars(s@),
        is_ascii_chars(to@),
        to@.len() == 1,
    ensures
        out@ == replace_char(s@, from, to@[0]),
        is_ascii_chars(out@),
{
    let n: usize = s.unicode_len();
    let mut out = String::new();
    let mut i: usize = 0;
    while i < n
        invariant
            n == s@.len(),
            is_ascii_chars(s@),
            is_ascii_chars(to@),
            to@.len() == 1,
            i <= n,
            is_ascii_chars(out@),
            out@ == replace_char(s@, from, to@[0]).take(i as int),
        decreases n - i,
    {
        let ghost before = out@;
        if ascii_at(s, i) == from {
            out.append(to);
        } else {
            push_char_of(&mut out, s, i);
        }
        proof {
            let whole = replace_char(s@, from, to@[0]);
            assert(out@ =~= before.push(whole[i as int]));
            assert(whole.take(i + 1) =~= whole.take(i as int).push(whole[i as int]));
        }
        i = i + 1;
    }
    proof {
        let whole = replace_char(s@, from, to@[0]);
        assert(whole.take(n as int) =~= whole);
    }
    out
}

} // verus!
