//! Occurrences of a literal text, and replacing them.
use vstd::prelude::*;
use crate::text::{ending_of, flatten, lemma_segments_split, segments, strip_ending};

verus! {

/// `s` holds `p` at position `i`.
pub open spec fn occurs_at(s: Seq<char>, i: int, p: Seq<char>) -> bool {
    0 <= i && i + p.len() <= s.len() && s.subrange(i, i + p.len()) == p
}

/// `p` occurs somewhere in `s`.
pub open spec fn contains(s: Seq<char>, p: Seq<char>) -> bool {
    exists|i: int| occurs_at(s, i, p)
}

/// `s` with every occurrence of the non-empty `p` replaced by `r`, scanning
/// from the left and never reusing a replaced character.
pub open spec fn replace_all(s: Seq<char>, p: Seq<char>, r: Seq<char>) -> Seq<char>
    decreases s.len(),
{
    if s.len() == 0 || p.len() == 0 {
        s
    } else if p.len() <= s.len() && s.take(p.len() as int) == p {
        r + replace_all(s.skip(p.len() as int), p, r)
    } else {
        seq![s[0]] + replace_all(s.skip(1), p, r)
    }
}

/// The number of replacements `replace_all(s, p, _)` makes.
pub open spec fn count_occurrences(s: Seq<char>, p: Seq<char>) -> nat
    decreases s.len(),
{
    if s.len() == 0 || p.len() == 0 {
        0
    } else if p.len() <= s.len() && s.take(p.len() as int) == p {
        1 + count_occurrences(s.skip(p.len() as int), p)
    } else {
        count_occurrences(s.skip(1), p)
    }
}

/// Whether `p` occurs in `v` at position `i`.
pub fn occurs_at_exec(v: &Vec<char>, i: usize, end: usize, p: &Vec<char>) -> (b: bool)
    requires
        i <= end <= v.len(),
    ensures
        b == occurs_at(v@.subrange(0, end as int), i as int, p@),
{
    let ghost s = v@.subrange(0, end as int);
    if p.len() > end - i {
        return false;
    }
    let mut j: usize = 0;
    while j < p.len()
        invariant
            i + p.len() <= end <= v.len(),
            j <= p.len(),
            s == v@.subrange(0, end as int),
            forall|k: int| 0 <= k < j ==> v@[i + k] == p@[k],
        decreases p.len() - j,
    {
        if v[i + j] != p[j] {
            assert(s.subrange(i as int, i + p.len())[j as int] != p@[j as int]);
            return false;
        }
        j += 1;
    }
    assert(s.subrange(i as int, i + p.len()) =~= p@);
    true
}

/// Replaces every occurrence of `p` in `v[start..end]` by `r`, and counts them.
pub fn replace_range(v: &Vec<char>, start: usize, end: usize, p: &Vec<char>, r: &Vec<char>) -> (res:
    (Vec<char>, usize))
    requires
        start <= end <= v.len(),
        p.len() > 0,
    ensures
        res.0@ == replace_all(v@.subrange(start as int, end as int), p@, r@),
        res.1 == count_occurrences(v@.subrange(start as int, end as int), p@),
{
    let ghost s = v@.subrange(start as int, end as int);
    let mut out: Vec<char> = Vec::new();
    let mut count: usize = 0;
    let mut i = start;
    while i < end
        invariant
            start <= i <= end <= v.len(),
            p.len() > 0,
            s == v@.subrange(start as int, end as int),
            count <= i - start,
            replace_all(s, p@, r@) == out@ + replace_all(v@.subrange(i as int, end as int), p@, r@),
            count_occurrences(s, p@) == count + count_occurrences(
                v@.subrange(i as int, end as int),
                p@,
            ),
        decreases end - i,
    {
        let ghost t = v@.subrange(i as int, end as int);
        let hit = occurs_at_exec(v, i, end, p);
        if hit {
            proof {
                assert(v@.subrange(0, end as int).subrange(i as int, i + p.len()) =~= t.take(
                    p.len() as int,
                ));
                assert(t.skip(p.len() as int) =~= v@.subrange(i + p.len(), end as int));
            }
            let mut j: usize = 0;
            let ghost out0 = out@;
            while j < r.len()
                invariant
                    j <= r.len(),
                    out@ == out0 + r@.take(j as int),
                decreases r.len() - j,
            {
                out.push(r[j]);
                proof {
                    assert(r@.take(j + 1) =~= r@.take(j as int).push(r@[j as int]));
                }
                j += 1;
            }
            assert(r@.take(r.len() as int) =~= r@);
            assert(out@ + replace_all(v@.subrange(i + p.len(), end as int), p@, r@) =~= out0 + (
            r@ + replace_all(t.skip(p.len() as int), p@, r@)));
            i = i + p.len();
            count = count + 1;
        } else {
            proof {
                if p.len() <= t.len() {
                    assert(v@.subrange(0, end as int).subrange(i as int, i + p.len()) =~= t.take(
                        p.len() as int,
                    ));
                }
                assert(t.skip(1) =~= v@.subrange(i + 1, end as int));
                assert(t[0] == v@[i as int]);
            }
            let ghost out0 = out@;
            out.push(v[i]);
            assert(out@ + replace_all(v@.subrange(i + 1, end as int), p@, r@) =~= out0 + (seq![
                t[0],
            ] + replace_all(t.skip(1), p@, r@)));
            i = i + 1;
        }
    }
    proof {
        assert(v@.subrange(i as int, end as int).len() == 0);
        assert(out@ + replace_all(v@.subrange(i as int, end as int), p@, r@) =~= out@);
    }
    (out, count)
}


/// No character of `b` occurs in `p`.
pub open spec fn avoids(b: Seq<char>, p: Seq<char>) -> bool {
    forall|k: int| 0 <= k < b.len() ==> !p.contains(#[trigger] b[k])
}

proof fn lemma_replace_avoiding(b: Seq<char>, p: Seq<char>, r: Seq<char>)
    requires
        p.len() > 0,
        avoids(b, p),
    ensures
        replace_all(b, p, r) == b,
        count_occurrences(b, p) == 0,
    decreases b.len(),
{
    if b.len() > 0 {
        if p.len() <= b.len() && b.take(p.len() as int) == p {
            assert(p[0] == b[0]);
            assert(p.contains(b[0]));
        }
        let t = b.skip(1);
        assert forall|k: int| 0 <= k < t.len() implies !p.contains(#[trigger] t[k]) by {
            assert(t[k] == b[k + 1]);
        }
        lemma_replace_avoiding(t, p, r);
        assert(seq![b[0]] + t =~= b);
    }
}

/// A tail made of characters foreign to `p` is left as it is and cannot
/// take part in an occurrence.
proof fn lemma_replace_foreign_tail(a: Seq<char>, b: Seq<char>, p: Seq<char>, r: Seq<char>)
    requires
        p.len() > 0,
        avoids(b, p),
    ensures
        replace_all(a + b, p, r) == replace_all(a, p, r) + b,
        count_occurrences(a + b, p) == count_occurrences(a, p),
    decreases a.len(),
{
    if a.len() == 0 {
        assert(a + b =~= b);
        lemma_replace_avoiding(b, p, r);
        assert(replace_all(a, p, r) =~= a);
    } else {
        let s = a + b;
        let m = p.len() as int;
        if m <= s.len() && s.take(m) == p {
            if m > a.len() {
                assert(s[a.len() as int] == b[0]);
                assert(p[a.len() as int] == s.take(m)[a.len() as int]);
                assert(p.contains(b[0]));
            }
            assert(a.take(m) =~= s.take(m));
            assert(s.skip(m) =~= a.skip(m) + b);
            lemma_replace_foreign_tail(a.skip(m), b, p, r);
            assert(replace_all(s, p, r) =~= r + (replace_all(a.skip(m), p, r) + b));
        } else {
            if m <= a.len() {
                assert(a.take(m) =~= s.take(m));
            }
            assert(s.skip(1) =~= a.skip(1) + b);
            assert(s[0] == a[0]);
            lemma_replace_foreign_tail(a.skip(1), b, p, r);
            assert(replace_all(s, p, r) =~= seq![a[0]] + (replace_all(a.skip(1), p, r) + b));
        }
    }
}

/// A cut right after a character foreign to `p` splits the replacement.
proof fn lemma_replace_cut(a: Seq<char>, b: Seq<char>, p: Seq<char>, r: Seq<char>)
    requires
        p.len() > 0,
        a.len() > 0,
        !p.contains(a.last()),
    ensures
        replace_all(a + b, p, r) == replace_all(a, p, r) + replace_all(b, p, r),
        count_occurrences(a + b, p) == count_occurrences(a, p) + count_occurrences(b, p),
    decreases a.len(),
{
    let s = a + b;
    let m = p.len() as int;
    let n = a.len() as int;
    if m <= s.len() && s.take(m) == p {
        if m >= n {
            assert(s[n - 1] == a.last());
            assert(p[n - 1] == s.take(m)[n - 1]);
            assert(p.contains(a.last()));
        }
        assert(a.take(m) =~= s.take(m));
        assert(s.skip(m) =~= a.skip(m) + b);
        assert(a.skip(m).last() == a.last());
        lemma_replace_cut(a.skip(m), b, p, r);
        assert(replace_all(s, p, r) =~= r + (replace_all(a.skip(m), p, r) + replace_all(
            b,
            p,
            r,
        )));
    } else {
        if m <= n {
            assert(a.take(m) =~= s.take(m));
        }
        assert(s.skip(1) =~= a.skip(1) + b);
        assert(s[0] == a[0]);
        if n == 1 {
            assert(a.skip(1) + b =~= b);
            assert(replace_all(a.skip(1), p, r) =~= a.skip(1));
            assert(replace_all(a, p, r) =~= a);
            assert(seq![a[0]] =~= a);
        } else {
            assert(a.skip(1).last() == a.last());
            lemma_replace_cut(a.skip(1), b, p, r);
            assert(replace_all(s, p, r) =~= seq![a[0]] + (replace_all(a.skip(1), p, r)
                + replace_all(b, p, r)));
        }
    }
}

/// The text rebuilt from its pieces, each line replaced and its terminator
/// kept.
pub open spec fn replace_in_lines(segs: Seq<Seq<char>>, p: Seq<char>, r: Seq<char>) -> Seq<char>
    decreases segs.len(),
{
    if segs.len() == 0 {
        Seq::empty()
    } else {
        replace_in_lines(segs.drop_last(), p, r) + replace_all(strip_ending(segs.last()), p, r)
            + ending_of(segs.last())
    }
}

/// The number of occurrences summed over the lines of the pieces.
pub open spec fn count_in_lines(segs: Seq<Seq<char>>, p: Seq<char>) -> nat
    decreases segs.len(),
{
    if segs.len() == 0 {
        0
    } else {
        count_in_lines(segs.drop_last(), p) + count_occurrences(strip_ending(segs.last()), p)
    }
}

/// `p` holds no line feed and no carriage return.
pub open spec fn is_single_line(p: Seq<char>) -> bool {
    !p.contains('\n') && !p.contains('\r')
}

proof fn lemma_piece_split(seg: Seq<char>)
    ensures
        seg == strip_ending(seg) + ending_of(seg),
        forall|k: int|
            0 <= k < ending_of(seg).len() ==> #[trigger] ending_of(seg)[k] == '\n'
                || ending_of(seg)[k] == '\r',
{
    assert(seg =~= strip_ending(seg) + ending_of(seg));
}

proof fn lemma_replace_pieces(segs: Seq<Seq<char>>, p: Seq<char>, r: Seq<char>)
    requires
        p.len() > 0,
        is_single_line(p),
        forall|k: int| 0 <= k < segs.len() ==> #[trigger] segs[k].len() > 0,
        forall|k: int| 0 <= k < segs.len() - 1 ==> #[trigger] segs[k].last() == '\n',
    ensures
        replace_all(flatten(segs), p, r) == replace_in_lines(segs, p, r),
        count_occurrences(flatten(segs), p) == count_in_lines(segs, p),
    decreases segs.len(),
{
    if segs.len() == 0 {
        assert(replace_all(Seq::<char>::empty(), p, r) =~= Seq::<char>::empty());
    } else {
        let prev = segs.drop_last();
        let last = segs.last();
        assert forall|k: int| 0 <= k < prev.len() implies #[trigger] prev[k].len() > 0 by {
            assert(prev[k] == segs[k]);
        }
        assert forall|k: int| 0 <= k < prev.len() - 1 implies #[trigger] prev[k].last() == '\n' by {
            assert(prev[k] == segs[k]);
        }
        lemma_replace_pieces(prev, p, r);
        lemma_piece_split(last);
        assert(avoids(ending_of(last), p)) by {
            assert forall|k: int| 0 <= k < ending_of(last).len() implies !p.contains(
                #[trigger] ending_of(last)[k],
            ) by {
                assert(ending_of(last)[k] == '\n' || ending_of(last)[k] == '\r');
            }
        }
        lemma_replace_foreign_tail(strip_ending(last), ending_of(last), p, r);
        if prev.len() > 0 {
            let f = flatten(prev);
            assert(prev[prev.len() - 1] == segs[prev.len() - 1]);
            lemma_flatten_last(prev);
            assert(f.last() == '\n');
            lemma_replace_cut(f, last, p, r);
        } else {
            assert(flatten(prev) =~= Seq::<char>::empty());
            assert(flatten(prev) + last =~= last);
        }
        assert(flatten(segs) == flatten(prev) + last);
        assert(replace_in_lines(segs, p, r) =~= replace_in_lines(prev, p, r) + (replace_all(
            strip_ending(last),
            p,
            r,
        ) + ending_of(last)));
    }
}

proof fn lemma_flatten_last(segs: Seq<Seq<char>>)
    requires
        segs.len() > 0,
        segs.last().len() > 0,
    ensures
        flatten(segs).len() > 0,
        flatten(segs).last() == segs.last().last(),
{
}

/// Replacing line by line, with the terminators kept, is the same as
/// replacing in the whole text, as long as the searched text holds no line
/// break: no occurrence can straddle two lines.
pub proof fn lemma_line_replacement_is_text_replacement(s: Seq<char>, p: Seq<char>, r: Seq<char>)
    requires
        p.len() > 0,
        is_single_line(p),
    ensures
        replace_in_lines(segments(s), p, r) == replace_all(s, p, r),
        count_in_lines(segments(s), p) == count_occurrences(s, p),
{
    lemma_segments_split(s);
    lemma_replace_pieces(segments(s), p, r);
}


/// There are no more occurrences than characters.
pub proof fn lemma_count_bound(s: Seq<char>, p: Seq<char>)
    ensures
        count_occurrences(s, p) <= s.len(),
    decreases s.len(),
{
    if s.len() > 0 && p.len() > 0 {
        if p.len() <= s.len() && s.take(p.len() as int) == p {
            lemma_count_bound(s.skip(p.len() as int), p);
        } else {
            lemma_count_bound(s.skip(1), p);
        }
    }
}


/// A text holds an occurrence exactly when the scan counts one.
pub proof fn lemma_count_positive_iff_contains(s: Seq<char>, p: Seq<char>)
    requires
        p.len() > 0,
    ensures
        count_occurrences(s, p) > 0 <==> contains(s, p),
    decreases s.len(),
{
    if s.len() == 0 {
        assert forall|i: int| !occurs_at(s, i, p) by {}
    } else if p.len() <= s.len() && s.take(p.len() as int) == p {
        assert(s.subrange(0, p.len() as int) =~= s.take(p.len() as int));
        assert(occurs_at(s, 0, p));
    } else {
        let t = s.skip(1);
        lemma_count_positive_iff_contains(t, p);
        if contains(t, p) {
            let i = choose|i: int| occurs_at(t, i, p);
            assert(s.subrange(i + 1, i + 1 + p.len()) =~= t.subrange(i, i + p.len()));
            assert(occurs_at(s, i + 1, p));
        }
        if contains(s, p) {
            let i = choose|i: int| occurs_at(s, i, p);
            if i == 0 {
                assert(s.subrange(0, p.len() as int) =~= s.take(p.len() as int));
            } else {
                assert(s.subrange(i, i + p.len()) =~= t.subrange(i - 1, i - 1 + p.len()));
                assert(occurs_at(t, i - 1, p));
            }
        }
    }
}

/// Replacing a text by itself changes nothing.
pub proof fn lemma_replace_by_itself(s: Seq<char>, p: Seq<char>)
    ensures
        replace_all(s, p, p) == s,
    decreases s.len(),
{
    if s.len() > 0 && p.len() > 0 {
        if p.len() <= s.len() && s.take(p.len() as int) == p {
            lemma_replace_by_itself(s.skip(p.len() as int), p);
            assert(s =~= s.take(p.len() as int) + s.skip(p.len() as int));
        } else {
            lemma_replace_by_itself(s.skip(1), p);
            assert(s =~= seq![s[0]] + s.skip(1));
        }
    }
}


/// Replacing a text by itself, line by line, gives back the whole text.
pub proof fn lemma_replace_with_same_text(s: Seq<char>, p: Seq<char>)
    ensures
        replace_in_lines(segments(s), p, p) == s,
{
    lemma_segments_split(s);
    lemma_pieces_unchanged(segments(s), p);
}

proof fn lemma_pieces_unchanged(segs: Seq<Seq<char>>, p: Seq<char>)
    ensures
        replace_in_lines(segs, p, p) == flatten(segs),
    decreases segs.len(),
{
    if segs.len() > 0 {
        lemma_pieces_unchanged(segs.drop_last(), p);
        lemma_replace_by_itself(strip_ending(segs.last()), p);
        lemma_piece_split(segs.last());
        assert(replace_in_lines(segs, p, p) =~= flatten(segs.drop_last()) + (strip_ending(
            segs.last(),
        ) + ending_of(segs.last())));
    }
}


/// A line feed or a carriage return.
pub open spec fn is_line_break(c: char) -> bool {
    c == '\n' || c == '\r'
}

/// The line feeds and carriage returns of a text, in order.
pub open spec fn line_breaks(s: Seq<char>) -> Seq<char> {
    s.filter(|c: char| is_line_break(c))
}

proof fn lemma_no_line_breaks(s: Seq<char>)
    requires
        is_single_line(s),
    ensures
        line_breaks(s) == Seq::<char>::empty(),
    decreases s.len(),
{
    reveal(Seq::filter);
    if s.len() > 0 {
        let t = s.drop_last();
        assert(is_single_line(t)) by {
            if t.contains('\n') {
                let i = choose|i: int| 0 <= i < t.len() && t[i] == '\n';
                assert(s[i] == '\n');
            }
            if t.contains('\r') {
                let i = choose|i: int| 0 <= i < t.len() && t[i] == '\r';
                assert(s[i] == '\r');
            }
        }
        lemma_no_line_breaks(t);
        assert(s.last() == s[s.len() - 1]);
    }
}

proof fn lemma_replace_all_keeps_line_breaks(s: Seq<char>, p: Seq<char>, r: Seq<char>)
    requires
        is_single_line(p),
        is_single_line(r),
    ensures
        line_breaks(replace_all(s, p, r)) == line_breaks(s),
    decreases s.len(),
{
    let f = |c: char| is_line_break(c);
    if s.len() > 0 && p.len() > 0 {
        if p.len() <= s.len() && s.take(p.len() as int) == p {
            let rest = s.skip(p.len() as int);
            lemma_replace_all_keeps_line_breaks(rest, p, r);
            lemma_no_line_breaks(p);
            lemma_no_line_breaks(r);
            Seq::filter_distributes_over_add(r, replace_all(rest, p, r), f);
            assert(s =~= p + rest);
            Seq::filter_distributes_over_add(p, rest, f);
        } else {
            let rest = s.skip(1);
            lemma_replace_all_keeps_line_breaks(rest, p, r);
            Seq::filter_distributes_over_add(seq![s[0]], replace_all(rest, p, r), f);
            assert(s =~= seq![s[0]] + rest);
            Seq::filter_distributes_over_add(seq![s[0]], rest, f);
        }
    }
}

/// Replacing, line by line, a text that holds no line break by another that
/// holds none keeps every line feed and carriage return of the content, in
/// order: the line endings stay as they were.
pub proof fn lemma_replacement_keeps_line_endings(s: Seq<char>, p: Seq<char>, r: Seq<char>)
    requires
        p.len() > 0,
        is_single_line(p),
        is_single_line(r),
    ensures
        line_breaks(replace_in_lines(segments(s), p, r)) == line_breaks(s),
{
    lemma_line_replacement_is_text_replacement(s, p, r);
    lemma_replace_all_keeps_line_breaks(s, p, r);
}

} // verus!
