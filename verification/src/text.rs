//! Characters, strings and the line structure of a text.
use vstd::prelude::*;

verus! {

/// `String::push`: appends one character to a string. Claims that the
/// string's characters gain that one character at the end.
#[verifier::external_body]
pub(crate) fn push_char(s: &mut String, c: char)
    ensures
        final(s)@ == old(s)@.push(c),
{
    s.push(c);
}

/// The characters of a string slice, in order.
pub fn chars_of(s: &str) -> (v: Vec<char>)
    ensures
        v@ == s@,
{
    let mut v: Vec<char> = Vec::new();
    for c in it: s.chars()
        invariant
            v@ == it.seq().take(it.index() as int),
            it.seq() == s@,
    {
        v.push(c);
    }
    v
}

/// A string made of the characters `v[from..to]`.
pub fn string_of(v: &Vec<char>, from: usize, to: usize) -> (s: String)
    requires
        from <= to <= v.len(),
    ensures
        s@ == v@.subrange(from as int, to as int),
{
    let mut s = String::new();
    let mut i = from;
    while i < to
        invariant
            from <= i <= to <= v.len(),
            s@ == v@.subrange(from as int, i as int),
        decreases to - i,
    {
        push_char(&mut s, v[i]);
        i += 1;
    }
    s
}


/// The pieces of `s` obtained by cutting after every `'\n'`; the last piece
/// is the (possibly unterminated) tail. An empty text has no pieces.
pub open spec fn segments(s: Seq<char>) -> Seq<Seq<char>>
    decreases s.len(),
{
    if s.len() == 0 {
        Seq::empty()
    } else {
        let prev = segments(s.drop_last());
        if prev.len() == 0 || prev.last().last() == '\n' {
            prev.push(seq![s.last()])
        } else {
            prev.drop_last().push(prev.last().push(s.last()))
        }
    }
}

/// The concatenation of a sequence of pieces.
pub open spec fn flatten(segs: Seq<Seq<char>>) -> Seq<char>
    decreases segs.len(),
{
    if segs.len() == 0 {
        Seq::empty()
    } else {
        flatten(segs.drop_last()) + segs.last()
    }
}

/// A piece without its line terminator (`"\r\n"` or `"\n"`).
pub open spec fn strip_ending(seg: Seq<char>) -> Seq<char> {
    if seg.len() >= 2 && seg[seg.len() - 2] == '\r' && seg[seg.len() - 1] == '\n' {
        seg.take(seg.len() - 2)
    } else if seg.len() >= 1 && seg[seg.len() - 1] == '\n' {
        seg.take(seg.len() - 1)
    } else {
        seg
    }
}

/// The line terminator that ends a piece: `"\r\n"`, `"\n"` or nothing.
pub open spec fn ending_of(seg: Seq<char>) -> Seq<char> {
    seg.skip(strip_ending(seg).len() as int)
}

/// The lines of a text, without terminators.
pub open spec fn lines(s: Seq<char>) -> Seq<Seq<char>> {
    segments(s).map_values(|seg: Seq<char>| strip_ending(seg))
}

/// Every piece is non-empty, holds a `'\n'` only as its last character, and
/// every piece but the last ends with `'\n'`; the pieces put together give
/// back the text.
pub open spec fn is_line_split(s: Seq<char>, segs: Seq<Seq<char>>) -> bool {
    &&& flatten(segs) == s
    &&& forall|k: int| 0 <= k < segs.len() ==> #[trigger] segs[k].len() > 0
    &&& forall|k: int, j: int|
        0 <= k < segs.len() && 0 <= j < segs[k].len() - 1 ==> #[trigger] segs[k][j] != '\n'
    &&& forall|k: int| 0 <= k < segs.len() - 1 ==> #[trigger] segs[k].last() == '\n'
}

/// `segments` cuts a text exactly after its line feeds.
pub proof fn lemma_segments_split(s: Seq<char>)
    ensures
        is_line_split(s, segments(s)),
    decreases s.len(),
{
    if s.len() == 0 {
        assert(s =~= Seq::<char>::empty());
    } else {
        let p = s.drop_last();
        lemma_segments_split(p);
        let prev = segments(p);
        let segs = segments(s);
        if prev.len() == 0 || prev.last().last() == '\n' {
            assert(segs.drop_last() =~= prev);
            assert(flatten(segs) =~= flatten(prev) + seq![s.last()]);
            assert(s =~= p + seq![s.last()]);
            assert forall|k: int, j: int|
                0 <= k < segs.len() && 0 <= j < segs[k].len() - 1 implies #[trigger] segs[k][j]
                != '\n' by {
                if k < prev.len() {
                    assert(segs[k] == prev[k]);
                }
            }
            assert forall|k: int| 0 <= k < segs.len() - 1 implies #[trigger] segs[k].last()
                == '\n' by {
                assert(segs[k] == prev[k]);
            }
        } else {
            let lastp = prev.last();
            let q = prev.drop_last();
            assert(segs.drop_last() =~= q);
            assert(prev =~= q.push(lastp));
            assert(flatten(prev) == flatten(q) + lastp);
            assert(flatten(segs) == flatten(q) + lastp.push(s.last()));
            assert(s =~= p + seq![s.last()]);
            assert(flatten(segs) =~= s);
            assert forall|k: int, j: int|
                0 <= k < segs.len() && 0 <= j < segs[k].len() - 1 implies #[trigger] segs[k][j]
                != '\n' by {
                if k < segs.len() - 1 {
                    assert(segs[k] == prev[k]);
                } else {
                    assert(segs[k] == lastp.push(s.last()));
                    if j < lastp.len() - 1 {
                        assert(prev[prev.len() - 1] == lastp);
                    }
                }
            }
            assert forall|k: int| 0 <= k < segs.len() - 1 implies #[trigger] segs[k].last()
                == '\n' by {
                assert(segs[k] == prev[k]);
            }
        }
    }
}

/// The ranges `[start, end)` of the pieces of `v` (see `segments`), in order.
pub fn segment_ranges(v: &Vec<char>) -> (r: Vec<(usize, usize)>)
    ensures
        r.len() == segments(v@).len(),
        forall|k: int|
            0 <= k < r.len() ==> {
                &&& (#[trigger] r[k]).0 <= r[k].1 <= v.len()
                &&& v@.subrange(r[k].0 as int, r[k].1 as int) == segments(v@)[k]
            },
{
    let mut r: Vec<(usize, usize)> = Vec::new();
    let mut i: usize = 0;
    while i < v.len()
        invariant
            i <= v.len(),
            r.len() == segments(v@.take(i as int)).len(),
            r.len() > 0 ==> r[r.len() - 1].1 == i,
            forall|k: int|
                0 <= k < r.len() ==> {
                    &&& (#[trigger] r[k]).0 < r[k].1 <= i
                    &&& v@.subrange(r[k].0 as int, r[k].1 as int) == segments(
                        v@.take(i as int),
                    )[k]
                },
        decreases v.len() - i,
    {
        let ghost t = v@.take(i as int);
        let ghost t1 = v@.take(i + 1);
        assert(t1.drop_last() =~= t);
        assert(t1.last() == v@[i as int]);
        let n = r.len();
        if n == 0 || v[r[n - 1].1 - 1] == '\n' {
            proof {
                if n > 0 {
                    let seg = segments(t)[n - 1];
                    assert(seg =~= v@.subrange(r[n - 1].0 as int, r[n - 1].1 as int));
                    assert(seg.last() == v@[r[n - 1].1 - 1]);
                }
            }
            r.push((i, i + 1));
            proof {
                assert forall|k: int| 0 <= k < r.len() implies {
                    &&& (#[trigger] r[k]).0 < r[k].1 <= i + 1
                    &&& v@.subrange(r[k].0 as int, r[k].1 as int) == segments(t1)[k]
                } by {
                    if k == n {
                        assert(v@.subrange(i as int, i + 1) =~= seq![t1.last()]);
                    }
                }
            }
        } else {
            let (a, b) = r[n - 1];
            proof {
                let seg = segments(t)[n - 1];
                assert(seg =~= v@.subrange(a as int, b as int));
                assert(seg.last() == v@[b - 1]);
            }
            r.set(n - 1, (a, i + 1));
            proof {
                assert forall|k: int| 0 <= k < r.len() implies {
                    &&& (#[trigger] r[k]).0 < r[k].1 <= i + 1
                    &&& v@.subrange(r[k].0 as int, r[k].1 as int) == segments(t1)[k]
                } by {
                    if k == n - 1 {
                        assert(v@.subrange(a as int, i + 1) =~= v@.subrange(a as int, b as int).push(
                            v@[i as int],
                        ));
                    }
                }
            }
        }
        i += 1;
    }
    assert(v@.take(v.len() as int) =~= v@);
    r
}


/// The end of the line held by the piece `v[start..end]`, that is the
/// position of its terminator.
pub fn line_end(v: &Vec<char>, start: usize, end: usize) -> (e: usize)
    requires
        start <= end <= v.len(),
    ensures
        start <= e <= end,
        v@.subrange(start as int, e as int) == strip_ending(v@.subrange(start as int, end as int)),
{
    let ghost seg = v@.subrange(start as int, end as int);
    if end - start >= 2 && v[end - 2] == '\r' && v[end - 1] == '\n' {
        assert(seg[seg.len() - 2] == v@[end - 2]);
        assert(v@.subrange(start as int, end - 2) =~= seg.take(seg.len() - 2));
        end - 2
    } else if end - start >= 1 && v[end - 1] == '\n' {
        assert(seg[seg.len() - 1] == v@[end - 1]);
        proof {
            if seg.len() >= 2 {
                assert(seg[seg.len() - 2] == v@[end - 2]);
            }
        }
        assert(v@.subrange(start as int, end - 1) =~= seg.take(seg.len() - 1));
        end - 1
    } else {
        proof {
            if seg.len() >= 1 {
                assert(seg[seg.len() - 1] == v@[end - 1]);
            }
        }
        end
    }
}

/// ASCII upper-case letters mapped to lower case; every other character kept.
pub open spec fn ascii_lower(c: char) -> char {
    if 'A' <= c <= 'Z' {
        ((c as u32) + 32) as char
    } else {
        c
    }
}

/// Equality of two texts when ASCII letters are compared without case.
pub open spec fn eq_ignore_ascii_case(a: Seq<char>, b: Seq<char>) -> bool {
    a.len() == b.len() && forall|i: int| 0 <= i < a.len() ==> ascii_lower(#[trigger] a[i])
        == ascii_lower(b[i])
}

fn ascii_lower_exec(c: char) -> (d: char)
    ensures
        d == ascii_lower(c),
{
    if 'A' <= c && c <= 'Z' {
        let b = (c as u32) as u8 + 32;
        b as char
    } else {
        c
    }
}

/// Whether two texts are equal when ASCII letters are compared without case.
pub fn eq_ignore_ascii_case_exec(a: &str, b: &str) -> (r: bool)
    ensures
        r == eq_ignore_ascii_case(a@, b@),
{
    let x = chars_of(a);
    let y = chars_of(b);
    if x.len() != y.len() {
        return false;
    }
    let mut i: usize = 0;
    while i < x.len()
        invariant
            x@ == a@,
            y@ == b@,
            x.len() == y.len(),
            i <= x.len(),
            forall|k: int| 0 <= k < i ==> ascii_lower(#[trigger] a@[k]) == ascii_lower(b@[k]),
        decreases x.len() - i,
    {
        if ascii_lower_exec(x[i]) != ascii_lower_exec(y[i]) {
            return false;
        }
        i += 1;
    }
    true
}


/// The text of the first `k + 1` pieces is that of the first `k` and piece `k`.
pub proof fn lemma_flatten_take(segs: Seq<Seq<char>>, k: int)
    requires
        0 <= k < segs.len(),
    ensures
        flatten(segs.take(k + 1)) == flatten(segs.take(k)) + segs[k],
{
    assert(segs.take(k + 1).drop_last() =~= segs.take(k));
}

/// Appends `v[from..to]` to a string.
pub fn push_chars(s: &mut String, v: &Vec<char>, from: usize, to: usize)
    requires
        from <= to <= v.len(),
    ensures
        final(s)@ == old(s)@ + v@.subrange(from as int, to as int),
{
    let ghost s0 = s@;
    let mut i = from;
    while i < to
        invariant
            from <= i <= to <= v.len(),
            s@ == s0 + v@.subrange(from as int, i as int),
        decreases to - i,
    {
        push_char(s, v[i]);
        assert(v@.subrange(from as int, i + 1) =~= v@.subrange(from as int, i as int).push(
            v@[i as int],
        ));
        i += 1;
    }
}


/// The decimal digit of a number below ten.
pub open spec fn digit(d: nat) -> char {
    ('0' as u32 + d) as char
}

/// The decimal notation of a number, without leading zeros.
pub open spec fn decimal(n: nat) -> Seq<char>
    decreases n,
{
    if n < 10 {
        seq![digit(n)]
    } else {
        decimal(n / 10).push(digit(n % 10))
    }
}

/// Appends the decimal notation of `n` to a string.
pub fn push_decimal(s: &mut String, n: u64)
    ensures
        final(s)@ == old(s)@ + decimal(n as nat),
    decreases n,
{
    if n >= 10 {
        push_decimal(s, n / 10);
    }
    let d = (n % 10) as u8;
    let c = (48u8 + d) as char;
    assert(c == digit((n % 10) as nat));
    push_char(s, c);
    proof {
        if n < 10 {
            assert(decimal(n as nat) == seq![digit(n as nat)]);
        }
    }
    assert(s@ =~= old(s)@ + decimal(n as nat)) by {
        if n >= 10 {
            assert(decimal(n as nat) == decimal((n / 10) as nat).push(digit((n % 10) as nat)));
        }
    }
}


/// A character with the Unicode `White_Space` property, which is what
/// `char::is_whitespace` tests.
pub open spec fn is_white_space(c: char) -> bool {
    let n = c as u32;
    (9 <= n <= 13) || n == 32 || n == 0x85 || n == 0xa0 || n == 0x1680 || (0x2000 <= n <= 0x200a)
        || n == 0x2028 || n == 0x2029 || n == 0x202f || n == 0x205f || n == 0x3000
}

fn is_white_space_exec(c: char) -> (b: bool)
    ensures
        b == is_white_space(c),
{
    let n = c as u32;
    (9 <= n && n <= 13) || n == 32 || n == 0x85 || n == 0xa0 || n == 0x1680 || (0x2000 <= n && n
        <= 0x200a) || n == 0x2028 || n == 0x2029 || n == 0x202f || n == 0x205f || n == 0x3000
}

/// `t` is `s` with its leading and trailing white space removed, as
/// `str::trim` does.
pub open spec fn is_trim_of(t: Seq<char>, s: Seq<char>) -> bool {
    exists|i: int, j: int|
        0 <= i <= j <= s.len() && t == s.subrange(i, j) && (forall|k: int|
            0 <= k < i ==> is_white_space(#[trigger] s[k])) && (forall|k: int|
            j <= k < s.len() ==> is_white_space(#[trigger] s[k])) && (i < j ==> !is_white_space(s[i])
            && !is_white_space(s[j - 1]))
}

/// The text without its leading and trailing white space.
pub fn trim_text(s: &str) -> (t: String)
    ensures
        is_trim_of(t@, s@),
{
    let v = chars_of(s);
    let mut i: usize = 0;
    while i < v.len() && is_white_space_exec(v[i])
        invariant
            i <= v.len(),
            forall|k: int| 0 <= k < i ==> is_white_space(#[trigger] v@[k]),
        decreases v.len() - i,
    {
        i += 1;
    }
    let mut j: usize = v.len();
    while j > i && is_white_space_exec(v[j - 1])
        invariant
            i <= j <= v.len(),
            forall|k: int| j <= k < v.len() ==> is_white_space(#[trigger] v@[k]),
        decreases j - i,
    {
        j -= 1;
    }
    let t = string_of(&v, i, j);
    assert(i < v.len() ==> !is_white_space(v@[i as int]));
    assert(is_trim_of(t@, s@)) by {
        if i < j {
            assert(!is_white_space(v@[i as int]));
        }
    }
    t
}

} // verus!
