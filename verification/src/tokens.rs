//! Splitting an input buffer into whitespace-delimited tokens.

use vstd::prelude::*;

use crate::whitespace::{is_ascii_whitespace, is_ascii_ws};

verus! {

/// Position `i` lies inside the `k`-th range of `t`.
pub open spec fn in_span(t: Seq<(usize, usize)>, k: int, i: int) -> bool {
    0 <= k < t.len() && t[k].0 <= i < t[k].1
}

/// Every range is non-empty and ends at or before `bound`.
pub open spec fn spans_bounded(t: Seq<(usize, usize)>, bound: int) -> bool {
    forall|k: int| 0 <= k < t.len() ==> #[trigger] t[k].0 < t[k].1 <= bound
}

/// The ranges come in increasing order, with a gap between any two.
pub open spec fn spans_sorted(t: Seq<(usize, usize)>) -> bool {
    forall|k: int, l: int| 0 <= k < l < t.len() ==> #[trigger] t[k].1 < #[trigger] t[l].0
}

/// No range holds a whitespace byte.
pub open spec fn spans_solid(s: Seq<u8>, t: Seq<(usize, usize)>) -> bool {
    forall|k: int, i: int| #[trigger] in_span(t, k, i) ==> !is_ascii_ws(s[i])
}

/// Every range starts at the beginning of `s` or right after whitespace.
pub open spec fn spans_left_closed(s: Seq<u8>, t: Seq<(usize, usize)>) -> bool {
    forall|k: int| 0 <= k < t.len() ==> (#[trigger] t[k].0 == 0 || is_ascii_ws(s[t[k].0 - 1]))
}

/// Every range stops at the end of `s` or right before whitespace.
pub open spec fn spans_right_closed(s: Seq<u8>, t: Seq<(usize, usize)>) -> bool {
    forall|k: int|
        0 <= k < t.len() ==> (#[trigger] t[k].1 == s.len() || is_ascii_ws(s[t[k].1 as int]))
}

/// Every non-whitespace byte of `s` lies inside some range.
pub open spec fn spans_cover(s: Seq<u8>, t: Seq<(usize, usize)>) -> bool {
    forall|i: int|
        0 <= i < s.len() && !is_ascii_ws(#[trigger] s[i]) ==> exists|k: int| in_span(t, k, i)
}

/// `t` lists, in order, exactly the maximal runs of non-whitespace bytes of
/// `s`, each as a half-open range `(start, end)`.
pub open spec fn is_tokenization(s: Seq<u8>, t: Seq<(usize, usize)>) -> bool {
    &&& spans_bounded(t, s.len() as int)
    &&& spans_sorted(t)
    &&& spans_solid(s, t)
    &&& spans_left_closed(s, t)
    &&& spans_right_closed(s, t)
    &&& spans_cover(s, t)
}

/// The ranges of the whitespace-delimited tokens of `buf`, in order.
pub fn token_spans(buf: &[u8]) -> (t: Vec<(usize, usize)>)
    ensures
        is_tokenization(buf@, t@),
{
    let ghost s = buf@;
    let mut t: Vec<(usize, usize)> = Vec::new();
    let mut open: Option<usize> = None;
    let mut i: usize = 0;
    while i < buf.len()
        invariant
            s == buf@,
            i <= buf.len(),
            spans_bounded(t@, i as int),
            spans_sorted(t@),
            spans_solid(s, t@),
            spans_left_closed(s, t@),
            forall|k: int| 0 <= k < t@.len() ==> #[trigger] t@[k].1 < i && is_ascii_ws(s[t@[k].1 as int]),
            forall|j: int|
                0 <= j < i && !is_ascii_ws(#[trigger] s[j]) ==> (exists|k: int| in_span(t@, k, j)) || (
                open matches Some(st) && st <= j),
            open matches Some(st) ==> {
                &&& st < i
                &&& (st == 0 || is_ascii_ws(s[st - 1]))
                &&& forall|j: int| st <= j < i ==> !is_ascii_ws(#[trigger] s[j])
                &&& forall|k: int| 0 <= k < t@.len() ==> #[trigger] t@[k].1 < st
            },
            open is None ==> (i == 0 || is_ascii_ws(s[i - 1])),
        decreases buf.len() - i,
    {
        let b = buf[i];
        if is_ascii_whitespace(b) {
            if let Some(st) = open {
                let ghost old_t = t@;
                t.push((st, i));
                open = None;
                proof {
                    let n = t@.len() - 1;
                    assert(t@[n] == (st, i));
                    assert forall|k: int, j: int| #[trigger] in_span(t@, k, j) implies !is_ascii_ws(s[j]) by {
                        if k < n {
                            assert(in_span(old_t, k, j));
                        }
                    }
                    assert forall|j: int|
                        0 <= j < i + 1 && !is_ascii_ws(#[trigger] s[j]) implies exists|k: int| in_span(t@, k, j) by {
                        if j >= st {
                            assert(in_span(t@, n, j));
                        } else {
                            let k = choose|k: int| in_span(old_t, k, j);
                            assert(in_span(t@, k, j));
                        }
                    }
                }
            }
        } else if open.is_none() {
            open = Some(i);
        }
        i = i + 1;
    }
    if let Some(st) = open {
        let ghost old_t = t@;
        t.push((st, buf.len()));
        proof {
            let n = t@.len() - 1;
            assert forall|k: int, j: int| #[trigger] in_span(t@, k, j) implies !is_ascii_ws(s[j]) by {
                if k < n {
                    assert(in_span(old_t, k, j));
                }
            }
            assert forall|j: int|
                0 <= j < s.len() && !is_ascii_ws(#[trigger] s[j]) implies exists|k: int| in_span(t@, k, j) by {
                if j >= st {
                    assert(in_span(t@, n, j));
                } else {
                    let k = choose|k: int| in_span(old_t, k, j);
                    assert(in_span(t@, k, j));
                }
            }
        }
    }
    t
}

/// A range of one tokenization that starts where a range of another starts is
/// that same range.
proof fn lemma_matching_span(s: Seq<u8>, a: Seq<(usize, usize)>, b: Seq<(usize, usize)>, k: int) -> (m: int)
    requires
        is_tokenization(s, a),
        is_tokenization(s, b),
        0 <= k < a.len(),
    ensures
        0 <= m < b.len(),
        b[m] == a[k],
{
    let i = a[k].0 as int;
    assert(in_span(a, k, i));
    assert(!is_ascii_ws(s[i]));
    let m = choose|m: int| in_span(b, m, i);
    if b[m].0 < a[k].0 {
        assert(in_span(b, m, i - 1));
    }
    if a[k].1 < b[m].1 {
        assert(in_span(b, m, a[k].1 as int));
    }
    if b[m].1 < a[k].1 {
        assert(in_span(a, k, b[m].1 as int));
    }
    m
}

proof fn lemma_prefix_equal(s: Seq<u8>, a: Seq<(usize, usize)>, b: Seq<(usize, usize)>, k: int)
    requires
        is_tokenization(s, a),
        is_tokenization(s, b),
        0 <= k < a.len(),
        k < b.len(),
    ensures
        forall|j: int| 0 <= j <= k ==> a[j] == b[j],
    decreases k,
{
    if k > 0 {
        lemma_prefix_equal(s, a, b, k - 1);
    }
    let m = lemma_matching_span(s, a, b, k);
    if m < k {
        assert(a[m] == b[m]);
        assert(a[m].1 < a[k].0);
    } else if m > k {
        let m2 = lemma_matching_span(s, b, a, k);
        assert(b[k].1 < b[m].0);
        if m2 < k {
            assert(a[m2] == b[m2]);
            assert(b[m2].1 < b[k].0);
        } else if m2 > k {
            assert(a[k].1 < a[m2].0);
        }
    }
}

/// Law: a buffer has exactly one tokenization, so the contract of
/// `token_spans` determines its result.
pub proof fn lemma_tokenization_unique(s: Seq<u8>, a: Seq<(usize, usize)>, b: Seq<(usize, usize)>)
    requires
        is_tokenization(s, a),
        is_tokenization(s, b),
    ensures
        a == b,
{
    let n = if a.len() < b.len() { a.len() as int } else { b.len() as int };
    if n > 0 {
        lemma_prefix_equal(s, a, b, n - 1);
    }
    if a.len() > b.len() {
        let m = lemma_matching_span(s, a, b, n);
        assert(a[m] == b[m]);
        assert(a[m].1 < a[n].0);
    } else if b.len() > a.len() {
        let m = lemma_matching_span(s, b, a, n);
        assert(a[m] == b[m]);
        assert(b[m].1 < b[n].0);
    }
    assert(a =~= b);
}

/// Law: the tokens of a buffer depend only on where its whitespace lies. Two
/// buffers of the same length with whitespace at the same positions (of
/// whatever kind: space, tab, newline, carriage return, form feed) are split
/// into the same ranges.
pub proof fn lemma_tokens_follow_whitespace(
    s1: Seq<u8>,
    s2: Seq<u8>,
    t1: Seq<(usize, usize)>,
    t2: Seq<(usize, usize)>,
)
    requires
        s1.len() == s2.len(),
        forall|i: int| 0 <= i < s1.len() ==> #[trigger] is_ascii_ws(s1[i]) == #[trigger] is_ascii_ws(s2[i]),
        is_tokenization(s1, t1),
        is_tokenization(s2, t2),
    ensures
        t1 == t2,
{
    assert forall|k: int, i: int| #[trigger] in_span(t1, k, i) implies !is_ascii_ws(s2[i]) by {
        assert(!is_ascii_ws(s1[i]));
    }
    assert forall|k: int| 0 <= k < t1.len() implies (#[trigger] t1[k].0 == 0 || is_ascii_ws(s2[t1[k].0 - 1])) by {
        if t1[k].0 != 0 {
            assert(is_ascii_ws(s1[t1[k].0 - 1]));
        }
    }
    assert forall|k: int| 0 <= k < t1.len() implies (#[trigger] t1[k].1 == s2.len() || is_ascii_ws(s2[t1[k].1 as int])) by {
        if t1[k].1 != s2.len() {
            let e = t1[k].1 as int;
            assert(spans_bounded(t1, s1.len() as int));
            assert(t1[k].0 < t1[k].1 <= s1.len());
            assert(0 <= e < s1.len());
            assert(is_ascii_ws(s1[e]) == is_ascii_ws(s2[e]));
        }
    }
    assert forall|i: int| 0 <= i < s2.len() && !is_ascii_ws(#[trigger] s2[i]) implies exists|k: int| in_span(t1, k, i) by {
        assert(!is_ascii_ws(s1[i]));
    }
    lemma_tokenization_unique(s2, t1, t2);
}

/// Every byte of `w` is whitespace.
pub open spec fn all_ws(w: Seq<u8>) -> bool {
    forall|i: int| 0 <= i < w.len() ==> is_ascii_ws(#[trigger] w[i])
}

/// The ranges of `t`, each moved `off` positions to the right.
pub open spec fn shift_spans(t: Seq<(usize, usize)>, off: int) -> Seq<(usize, usize)> {
    t.map_values(|p: (usize, usize)| ((p.0 + off) as usize, (p.1 + off) as usize))
}

/// Law: tokens concatenate across whitespace. If `a` and `b` are split into
/// `ta` and `tb`, then `w1 ++ a ++ w ++ b ++ w2`, with `w1`, `w`, `w2` made of
/// whitespace and `w` not empty, is split into the ranges of `ta` followed by
/// those of `tb`, each moved to where its bytes now stand; surrounding
/// whitespace is ignored.
pub proof fn lemma_tokens_concatenate(
    w1: Seq<u8>,
    a: Seq<u8>,
    w: Seq<u8>,
    b: Seq<u8>,
    w2: Seq<u8>,
    ta: Seq<(usize, usize)>,
    tb: Seq<(usize, usize)>,
)
    requires
        is_tokenization(a, ta),
        is_tokenization(b, tb),
        all_ws(w1),
        all_ws(w),
        all_ws(w2),
        w.len() > 0,
        w1.len() + a.len() + w.len() + b.len() + w2.len() <= usize::MAX,
    ensures
        ({
            let s = w1 + a + w + b + w2;
            let joined = shift_spans(ta, w1.len() as int) + shift_spans(
                tb,
                (w1.len() + a.len() + w.len()) as int,
            );
            &&& is_tokenization(s, joined)
            &&& forall|t: Seq<(usize, usize)>| is_tokenization(s, t) ==> t == joined
        }),
{
    let s = w1 + a + w + b + w2;
    let oa = w1.len() as int;
    let ob = (w1.len() + a.len() + w.len()) as int;
    let sa = shift_spans(ta, oa);
    let sb = shift_spans(tb, ob);
    let joined = sa + sb;
    let na = ta.len() as int;
    assert(spans_bounded(ta, a.len() as int));
    assert(spans_bounded(tb, b.len() as int));
    assert forall|i: int| 0 <= i < a.len() implies #[trigger] s[oa + i] == a[i] by {}
    assert forall|i: int| 0 <= i < b.len() implies #[trigger] s[ob + i] == b[i] by {}
    assert forall|k: int| 0 <= k < na implies #[trigger] joined[k] == ((ta[k].0 + oa) as usize, (
    ta[k].1 + oa) as usize) by {
        assert(ta[k].0 < ta[k].1 <= a.len());
    }
    assert forall|l: int| 0 <= l < tb.len() implies #[trigger] joined[na + l] == ((tb[l].0 + ob) as usize, (
    tb[l].1 + ob) as usize) by {
        assert(tb[l].0 < tb[l].1 <= b.len());
    }
    // each range of `joined` is a shifted range of `ta` or of `tb`
    assert forall|k: int| 0 <= k < joined.len() implies #[trigger] joined[k].0 < joined[k].1 <= s.len()
        && (k < na ==> joined[k].1 <= oa + a.len()) && (k >= na ==> joined[k].0 >= ob) by {
        if k < na {
            assert(ta[k].0 < ta[k].1 <= a.len());
        } else {
            assert(joined[na + (k - na)] == joined[k]);
            assert(tb[k - na].0 < tb[k - na].1 <= b.len());
        }
    }
    assert forall|k: int, l: int| 0 <= k < l < joined.len() implies #[trigger] joined[k].1
        < #[trigger] joined[l].0 by {
        if l < na {
            assert(ta[k].1 < ta[l].0);
        } else if k < na {
            assert(joined[na + (l - na)] == joined[l]);
            assert(joined[k].1 == ta[k].1 + oa);
            assert(joined[k].1 <= oa + a.len());
            assert(joined[l].0 >= ob);
        } else {
            assert(joined[na + (l - na)] == joined[l]);
            assert(joined[na + (k - na)] == joined[k]);
            assert(tb[k - na].1 < tb[l - na].0);
        }
    }
    assert forall|k: int, i: int| #[trigger] in_span(joined, k, i) implies !is_ascii_ws(s[i]) by {
        if k < na {
            assert(in_span(ta, k, i - oa));
            assert(s[oa + (i - oa)] == a[i - oa]);
        } else {
            assert(joined[na + (k - na)] == joined[k]);
            assert(in_span(tb, k - na, i - ob));
            assert(s[ob + (i - ob)] == b[i - ob]);
        }
    }
    assert forall|k: int| 0 <= k < joined.len() implies (#[trigger] joined[k].0 == 0 || is_ascii_ws(
        s[joined[k].0 - 1],
    )) by {
        if k < na {
            if ta[k].0 == 0 {
                if oa > 0 {
                    assert(s[oa - 1] == w1[oa - 1]);
                }
            } else {
                assert(is_ascii_ws(a[ta[k].0 - 1]));
                assert(s[oa + (ta[k].0 - 1)] == a[ta[k].0 - 1]);
            }
        } else {
            let l = k - na;
            assert(joined[na + l] == joined[k]);
            if tb[l].0 == 0 {
                assert(s[ob - 1] == w[w.len() - 1]);
            } else {
                assert(is_ascii_ws(b[tb[l].0 - 1]));
                assert(s[ob + (tb[l].0 - 1)] == b[tb[l].0 - 1]);
            }
        }
    }
    assert forall|k: int| 0 <= k < joined.len() implies (#[trigger] joined[k].1 == s.len()
        || is_ascii_ws(s[joined[k].1 as int])) by {
        if k < na {
            if ta[k].1 == a.len() {
                assert(s[oa + a.len()] == w[0]);
            } else {
                assert(ta[k].0 < ta[k].1 <= a.len());
                let e = ta[k].1 as int;
                assert(is_ascii_ws(a[e]));
                assert(s[oa + e] == a[e]);
            }
        } else {
            let l = k - na;
            assert(joined[na + l] == joined[k]);
            if tb[l].1 == b.len() {
                if w2.len() > 0 {
                    assert(s[ob + b.len()] == w2[0]);
                }
            } else {
                assert(tb[l].0 < tb[l].1 <= b.len());
                let e = tb[l].1 as int;
                assert(is_ascii_ws(b[e]));
                assert(s[ob + e] == b[e]);
            }
        }
    }
    assert forall|i: int| 0 <= i < s.len() && !is_ascii_ws(#[trigger] s[i]) implies exists|k: int|
        in_span(joined, k, i) by {
        if i < oa {
            assert(s[i] == w1[i]);
        } else if i < oa + a.len() {
            assert(s[oa + (i - oa)] == a[i - oa]);
            let ia = i - oa;
            assert(!is_ascii_ws(a[ia]));
            let k = choose|k: int| in_span(ta, k, ia);
            assert(in_span(joined, k, i));
        } else if i < ob {
            assert(s[i] == w[i - oa - a.len()]);
        } else if i < ob + b.len() {
            assert(s[ob + (i - ob)] == b[i - ob]);
            let ib = i - ob;
            assert(!is_ascii_ws(b[ib]));
            let l = choose|l: int| in_span(tb, l, ib);
            assert(joined[na + l] == joined[na + l]);
            assert(in_span(joined, na + l, i));
        } else {
            assert(s[i] == w2[i - ob - b.len()]);
        }
    }
    assert(is_tokenization(s, joined));
    assert forall|t: Seq<(usize, usize)>| is_tokenization(s, t) implies t == joined by {
        lemma_tokenization_unique(s, t, joined);
    }
}

/// Law: a buffer none of whose bytes is space or a control byte (every byte is
/// above 0x20: digits, letters such as the `e` of an exponent, signs, points)
/// is a single value: its one range covers the whole buffer.
pub proof fn lemma_unbroken_buffer_is_one_token(s: Seq<u8>, t: Seq<(usize, usize)>)
    requires
        0 < s.len() <= usize::MAX,
        forall|i: int| 0 <= i < s.len() ==> #[trigger] s[i] > 0x20,
        is_tokenization(s, t),
    ensures
        t == seq![(0usize, s.len() as usize)],
{
    let one = seq![(0usize, s.len() as usize)];
    assert forall|k: int, i: int| #[trigger] in_span(one, k, i) implies !is_ascii_ws(s[i]) by {
        assert(s[i] > 0x20);
    }
    assert forall|i: int| 0 <= i < s.len() && !is_ascii_ws(#[trigger] s[i]) implies exists|k: int|
        in_span(one, k, i) by {
        assert(in_span(one, 0, i));
    }
    assert(is_tokenization(s, one));
    lemma_tokenization_unique(s, t, one);
}

/// Why a buffer yields no sample.
#[derive(Debug, Clone, Copy, PartialEq, Eq, Structural)]
pub enum InputError {
    /// The buffer holds nothing but whitespace.
    NoValues,
}

impl InputError {
    /// The message reported for this error.
    pub fn message(&self) -> (r: String)
        ensures
            r@ == "no values in input"@,
    {
        String::from_str("no values in input")
    }
}

/// The ranges of the values of a whitespace-separated column: the tokens of
/// `buf`, in order. Reading each token as a number is left to the caller.
/// Fails exactly when `buf` holds no token at all.
pub fn parse_buffer(buf: &[u8]) -> (r: Result<Vec<(usize, usize)>, InputError>)
    ensures
        r is Err <==> forall|i: int| 0 <= i < buf@.len() ==> is_ascii_ws(#[trigger] buf@[i]),
        r matches Ok(t) ==> is_tokenization(buf@, t@) && t@.len() > 0,
        r matches Err(e) ==> e == InputError::NoValues,
{
    let t = token_spans(buf);
    if t.len() == 0 {
        assert forall|i: int| 0 <= i < buf@.len() implies is_ascii_ws(#[trigger] buf@[i]) by {
            if !is_ascii_ws(buf@[i]) {
                let k = choose|k: int| in_span(t@, k, i);
            }
        }
        Err(InputError::NoValues)
    } else {
        assert(in_span(t@, 0, t@[0].0 as int));
        Ok(t)
    }
}

} // verus!
