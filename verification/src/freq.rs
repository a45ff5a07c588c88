//! Reading the comma-separated list of frequencies given on the command line.

use vstd::prelude::*;

use crate::whitespace::{is_unicode_whitespace, is_unicode_ws};

verus! {

/// The pieces of `s` between commas, as `str::split(',')` yields them: one
/// more piece than there are commas, empty pieces included.
pub open spec fn comma_fields(s: Seq<char>) -> Seq<Seq<char>>
    decreases s.len(),
{
    if s.len() == 0 {
        seq![Seq::<char>::empty()]
    } else {
        let f = comma_fields(s.drop_last());
        if s.last() == ',' {
            f.push(Seq::<char>::empty())
        } else {
            f.update(f.len() - 1, f.last().push(s.last()))
        }
    }
}

/// `s` without its leading whitespace.
pub open spec fn trim_start(s: Seq<char>) -> Seq<char>
    decreases s.len(),
{
    if s.len() > 0 && is_unicode_ws(s[0]) {
        trim_start(s.drop_first())
    } else {
        s
    }
}

/// `s` without its trailing whitespace.
pub open spec fn trim_end(s: Seq<char>) -> Seq<char>
    decreases s.len(),
{
    if s.len() > 0 && is_unicode_ws(s.last()) {
        trim_end(s.drop_last())
    } else {
        s
    }
}

/// `s` without leading and trailing whitespace, as `str::trim` gives it.
pub open spec fn trim(s: Seq<char>) -> Seq<char> {
    trim_end(trim_start(s))
}

/// The spelling of the default frequency list.
pub open spec fn default_spelling() -> Seq<char> {
    "0.4,0.8"@
}

/// One comma-separated piece of the frequency list.
#[derive(Debug)]
pub struct Field {
    /// The piece as written.
    pub raw: String,
    /// The piece without leading and trailing whitespace: the text of the number.
    pub trimmed: String,
}

/// How the frequency list is to be read.
#[derive(Debug)]
pub enum FrequencyText {
    /// The list is the default `0.4,0.8` (up to surrounding whitespace).
    Default,
    /// The pieces to read as numbers, in order.
    Fields(Vec<Field>),
}

/// Joining pieces back together with a comma between consecutive ones.
pub open spec fn join_commas(f: Seq<Seq<char>>) -> Seq<char>
    decreases f.len(),
{
    if f.len() == 0 {
        Seq::<char>::empty()
    } else if f.len() == 1 {
        f[0]
    } else {
        join_commas(f.drop_last()) + seq![','] + f.last()
    }
}

proof fn lemma_comma_fields_nonempty(s: Seq<char>)
    ensures
        comma_fields(s).len() >= 1,
    decreases s.len(),
{
    if s.len() > 0 {
        lemma_comma_fields_nonempty(s.drop_last());
    }
}

/// Law: the pieces hold no comma, and joining them with commas gives back the
/// text they came from.
pub proof fn lemma_comma_fields_rejoin(s: Seq<char>)
    ensures
        join_commas(comma_fields(s)) == s,
        forall|i: int, j: int|
            0 <= i < comma_fields(s).len() && 0 <= j < comma_fields(s)[i].len() ==> #[trigger] comma_fields(
                s,
            )[i][j] != ',',
    decreases s.len(),
{
    if s.len() > 0 {
        let p = s.drop_last();
        lemma_comma_fields_rejoin(p);
        lemma_comma_fields_nonempty(p);
        let f = comma_fields(p);
        if s.last() == ',' {
            let g = f.push(Seq::<char>::empty());
            assert(g.drop_last() =~= f);
            assert(join_commas(g) =~= s);
            assert(comma_fields(s) == g);
        } else {
            let n = f.len() - 1;
            let g = f.update(n, f.last().push(s.last()));
            assert(comma_fields(s) == g);
            if n == 0 {
                assert(join_commas(f) == f[0]);
                assert(join_commas(g) == g[0]);
                assert(g[0] == f[0].push(s.last()));
                assert(p.push(s.last()) =~= s);
                assert(join_commas(g) =~= s);
            } else {
                assert(g.drop_last() =~= f.drop_last());
                assert(join_commas(f) == join_commas(f.drop_last()) + seq![','] + f.last());
                assert(join_commas(g) == join_commas(g.drop_last()) + seq![','] + g.last());
                assert(g.last() == f.last().push(s.last()));
                assert(join_commas(g) =~= (join_commas(f.drop_last()) + seq![','] + f.last()).push(
                    s.last(),
                ));
                assert(p.push(s.last()) =~= s);
                assert(join_commas(g) =~= s);
            }
            assert forall|i: int, j: int|
                0 <= i < g.len() && 0 <= j < g[i].len() implies #[trigger] g[i][j] != ',' by {
                if i < n {
                    assert(g[i] == f[i]);
                    assert(f[i][j] != ',');
                } else if j < f[n].len() {
                    assert(g[i][j] == f[n][j]);
                    assert(f[n][j] != ',');
                }
            }
        }
    }
}

proof fn lemma_trim_start_at(t: Seq<char>, p: int)
    requires
        0 <= p <= t.len(),
        forall|j: int| 0 <= j < p ==> is_unicode_ws(#[trigger] t[j]),
        p == t.len() || !is_unicode_ws(t[p]),
    ensures
        trim_start(t) == t.skip(p),
    decreases p,
{
    if p == 0 {
        assert(t.skip(0) =~= t);
    } else {
        let u = t.drop_first();
        assert forall|j: int| 0 <= j < p - 1 implies is_unicode_ws(#[trigger] u[j]) by {
            assert(u[j] == t[j + 1]);
        }
        lemma_trim_start_at(u, p - 1);
        assert(u.skip(p - 1) =~= t.skip(p));
    }
}

proof fn lemma_trim_end_at(t: Seq<char>, q: int)
    requires
        0 <= q <= t.len(),
        forall|j: int| q <= j < t.len() ==> is_unicode_ws(#[trigger] t[j]),
        q == 0 || !is_unicode_ws(t[q - 1]),
    ensures
        trim_end(t) == t.take(q),
    decreases t.len() - q,
{
    if q == t.len() {
        assert(t.take(q) =~= t);
    } else {
        let u = t.drop_last();
        assert forall|j: int| q <= j < u.len() implies is_unicode_ws(#[trigger] u[j]) by {
            assert(u[j] == t[j]);
        }
        lemma_trim_end_at(u, q);
        assert(u.take(q) =~= t.take(q));
    }
}

proof fn lemma_leading_ws(s: Seq<char>) -> (p: int)
    ensures
        0 <= p <= s.len(),
        forall|j: int| 0 <= j < p ==> is_unicode_ws(#[trigger] s[j]),
        p == s.len() || !is_unicode_ws(s[p]),
    decreases s.len(),
{
    if s.len() > 0 && is_unicode_ws(s[0]) {
        let u = s.drop_first();
        let q = lemma_leading_ws(u);
        assert forall|j: int| 0 <= j < q + 1 implies is_unicode_ws(#[trigger] s[j]) by {
            if j > 0 {
                assert(s[j] == u[j - 1]);
            }
        }
        if q + 1 < s.len() {
            assert(s[q + 1] == u[q]);
        }
        q + 1
    } else {
        0
    }
}

proof fn lemma_trailing_ws(s: Seq<char>) -> (q: int)
    ensures
        0 <= q <= s.len(),
        forall|j: int| q <= j < s.len() ==> is_unicode_ws(#[trigger] s[j]),
        q == 0 || !is_unicode_ws(s[q - 1]),
    decreases s.len(),
{
    if s.len() > 0 && is_unicode_ws(s.last()) {
        let u = s.drop_last();
        let q = lemma_trailing_ws(u);
        assert forall|j: int| q <= j < s.len() implies is_unicode_ws(#[trigger] s[j]) by {
            if j < u.len() {
                assert(s[j] == u[j]);
            }
        }
        if q > 0 {
            assert(s[q - 1] == u[q - 1]);
        }
        q
    } else {
        s.len() as int
    }
}

/// `trim(s)` is a range of `s` with only whitespace before and after it.
proof fn lemma_trim_range(s: Seq<char>) -> (r: (int, int))
    ensures
        0 <= r.0 <= r.1 <= s.len(),
        forall|j: int| 0 <= j < r.0 ==> is_unicode_ws(#[trigger] s[j]),
        forall|j: int| r.1 <= j < s.len() ==> is_unicode_ws(#[trigger] s[j]),
        trim(s) == s.subrange(r.0, r.1),
        r.0 < r.1 ==> !is_unicode_ws(s[r.0]) && !is_unicode_ws(s[r.1 - 1]),
{
    let lo = lemma_leading_ws(s);
    lemma_trim_start_at(s, lo);
    let u = s.skip(lo);
    let q = lemma_trailing_ws(u);
    lemma_trim_end_at(u, q);
    assert(u.take(q) =~= s.subrange(lo, lo + q));
    assert forall|j: int| lo + q <= j < s.len() implies is_unicode_ws(#[trigger] s[j]) by {
        assert(s[j] == u[j - lo]);
    }
    if q > 0 {
        assert(s[lo + q - 1] == u[q - 1]);
    }
    (lo, lo + q)
}

/// Law: trimming removes whitespace and nothing else. `trim(s)` is a
/// contiguous part of `s`; every character removed before or after it is
/// whitespace, and a non-empty result starts and ends with a character that is
/// not whitespace. An empty result means `s` is all whitespace.
pub proof fn lemma_trim_removes_only_whitespace(s: Seq<char>)
    ensures
        exists|lo: int, hi: int|
            {
                &&& 0 <= lo <= hi <= s.len()
                &&& trim(s) == s.subrange(lo, hi)
                &&& forall|j: int| 0 <= j < lo ==> is_unicode_ws(#[trigger] s[j])
                &&& forall|j: int| hi <= j < s.len() ==> is_unicode_ws(#[trigger] s[j])
                &&& lo < hi ==> !is_unicode_ws(s[lo]) && !is_unicode_ws(s[hi - 1])
            },
        trim(s).len() == 0 ==> forall|j: int| 0 <= j < s.len() ==> is_unicode_ws(#[trigger] s[j]),
{
    let (lo, hi) = lemma_trim_range(s);
    if lo == hi {
        assert forall|j: int| 0 <= j < s.len() implies is_unicode_ws(#[trigger] s[j]) by {
            if j >= lo {
                assert(hi <= j);
            }
        }
    }
    assert(trim(s).len() == hi - lo);
}

/// Law: a piece that starts and ends with a printable ASCII character other
/// than space (a digit, letter, sign or point, as in `1.6`) is left unchanged by
/// trimming.
pub proof fn lemma_trim_keeps_printable_ends(s: Seq<char>)
    requires
        s.len() > 0,
        0x21 <= (s[0] as u32) <= 0x7E,
        0x21 <= (s[s.len() - 1] as u32) <= 0x7E,
    ensures
        trim(s) == s,
{
    assert(!is_unicode_ws(s[0]));
    lemma_trim_start_at(s, 0);
    assert(s.skip(0) =~= s);
    assert(!is_unicode_ws(s[s.len() - 1]));
    lemma_trim_end_at(s, s.len() as int);
    assert(s.take(s.len() as int) =~= s);
}

proof fn lemma_fields_without_comma(s: Seq<char>)
    requires
        forall|i: int| 0 <= i < s.len() ==> #[trigger] s[i] != ',',
    ensures
        comma_fields(s) == seq![s],
    decreases s.len(),
{
    if s.len() == 0 {
        assert(s =~= Seq::<char>::empty());
    } else {
        let p = s.drop_last();
        assert forall|i: int| 0 <= i < p.len() implies #[trigger] p[i] != ',' by {
            assert(p[i] == s[i]);
        }
        lemma_fields_without_comma(p);
        assert(s.last() == s[s.len() - 1]);
        assert(p.push(s.last()) =~= s);
        assert(comma_fields(s) =~= seq![s]);
    }
}

proof fn lemma_fields_after_comma(a: Seq<char>, b: Seq<char>)
    requires
        forall|i: int| 0 <= i < b.len() ==> #[trigger] b[i] != ',',
    ensures
        comma_fields(a + seq![','] + b) == comma_fields(a).push(b),
    decreases b.len(),
{
    let s = a + seq![','] + b;
    if b.len() == 0 {
        assert(s.drop_last() =~= a);
        assert(b =~= Seq::<char>::empty());
    } else {
        let c = b.drop_last();
        assert forall|i: int| 0 <= i < c.len() implies #[trigger] c[i] != ',' by {
            assert(c[i] == b[i]);
        }
        lemma_fields_after_comma(a, c);
        assert(s.drop_last() =~= a + seq![','] + c);
        assert(s.last() == b[b.len() - 1]);
        assert(c.push(s.last()) =~= b);
        assert(comma_fields(s) =~= comma_fields(a).push(b));
    }
}

/// Law: recognising the default list is only a shortcut: when the trimmed
/// list is `0.4,0.8`, it splits into exactly two pieces, which trim to `0.4`
/// and `0.8`.
pub proof fn lemma_default_matches_pieces(s: Seq<char>)
    requires
        trim(s) == default_spelling(),
    ensures
        comma_fields(s).len() == 2,
        trim(comma_fields(s)[0]) == "0.4"@,
        trim(comma_fields(s)[1]) == "0.8"@,
{
    reveal_strlit("0.4,0.8");
    reveal_strlit("0.4");
    reveal_strlit("0.8");
    let d = default_spelling();
    let (lo, hi) = lemma_trim_range(s);
    assert(d.len() == 7);
    assert(s.subrange(lo, hi).len() == hi - lo);
    assert(hi == lo + 7);
    assert forall|j: int| 0 <= j < 7 implies s[lo + j] == #[trigger] d[j] by {
        assert(s.subrange(lo, hi)[j] == s[lo + j]);
    }
    let a = s.take(lo + 3);
    let b = s.skip(lo + 4);
    assert(s[lo + 3] == d[3]);
    assert(s =~= a + seq![','] + b);
    assert forall|i: int| 0 <= i < a.len() implies #[trigger] a[i] != ',' by {
        if i < lo {
            assert(is_unicode_ws(s[i]));
        } else {
            assert(a[i] == d[i - lo]);
        }
    }
    assert forall|i: int| 0 <= i < b.len() implies #[trigger] b[i] != ',' by {
        if i < 3 {
            assert(b[i] == d[i + 4]);
        } else {
            assert(b[i] == s[lo + 4 + i]);
            assert(is_unicode_ws(s[lo + 4 + i]));
        }
    }
    lemma_fields_without_comma(a);
    lemma_fields_after_comma(a, b);
    assert(comma_fields(s) =~= seq![a, b]);
    assert forall|j: int| 0 <= j < lo implies is_unicode_ws(#[trigger] a[j]) by {
        assert(a[j] == s[j]);
    }
    assert(a[lo] == d[0]);
    lemma_trim_start_at(a, lo);
    let a2 = a.skip(lo);
    assert forall|j: int| 0 <= j < 3 implies #[trigger] a2[j] == d[j] by {
        assert(a2[j] == s[lo + j]);
    }
    assert(a2 =~= "0.4"@);
    lemma_trim_end_at(a2, 3);
    assert(a2.take(3) =~= a2);
    assert(b[0] == d[4]);
    lemma_trim_start_at(b, 0);
    assert(b.skip(0) =~= b);
    assert forall|j: int| 3 <= j < b.len() implies is_unicode_ws(#[trigger] b[j]) by {
        assert(b[j] == s[lo + 4 + j]);
    }
    assert(b[2] == d[6]);
    lemma_trim_end_at(b, 3);
    assert forall|j: int| 0 <= j < 3 implies #[trigger] b.take(3)[j] == d[j + 4] by {
        assert(b[j] == d[j + 4]);
    }
    assert(b.take(3) =~= "0.8"@);
}

/// The range `[lo, hi)` of `s` that is `trim` of the characters in `[a, b)`.
fn trim_range(s: &str, a: usize, b: usize) -> (r: (usize, usize))
    requires
        a <= b <= s@.len(),
    ensures
        a <= r.0 <= r.1 <= b,
        s@.subrange(r.0 as int, r.1 as int) == trim(s@.subrange(a as int, b as int)),
{
    let ghost cs = s@;
    let mut lo = a;
    while lo < b && is_unicode_whitespace(s.get_char(lo))
        invariant
            a <= lo <= b <= cs.len(),
            cs == s@,
            forall|j: int| a <= j < lo ==> is_unicode_ws(#[trigger] cs[j]),
        decreases b - lo,
    {
        lo = lo + 1;
    }
    let mut hi = b;
    while hi > lo && is_unicode_whitespace(s.get_char(hi - 1))
        invariant
            lo <= hi <= b <= cs.len(),
            cs == s@,
            forall|j: int| hi <= j < b ==> is_unicode_ws(#[trigger] cs[j]),
        decreases hi - lo,
    {
        hi = hi - 1;
    }
    proof {
        let t = cs.subrange(a as int, b as int);
        assert forall|j: int| 0 <= j < lo - a implies is_unicode_ws(#[trigger] t[j]) by {
            assert(t[j] == cs[a + j]);
        }
        if lo < b {
            assert(t[lo - a] == cs[lo as int]);
        }
        lemma_trim_start_at(t, lo - a);
        let u = cs.subrange(lo as int, b as int);
        assert(t.skip(lo - a) =~= u);
        assert forall|j: int| hi - lo <= j < u.len() implies is_unicode_ws(#[trigger] u[j]) by {
            assert(u[j] == cs[lo + j]);
        }
        if hi > lo {
            assert(u[hi - lo - 1] == cs[hi - 1]);
        }
        lemma_trim_end_at(u, hi - lo);
        assert(u.take(hi - lo) =~= cs.subrange(lo as int, hi as int));
    }
    (lo, hi)
}

/// Splits the frequency list `s` into its comma-separated pieces, or
/// recognises the default list `0.4,0.8` (surrounding whitespace allowed).
pub fn frequency_fields(s: &str) -> (r: FrequencyText)
    ensures
        r is Default <==> trim(s@) == default_spelling(),
        r matches FrequencyText::Fields(v) ==> {
            &&& v@.len() == comma_fields(s@).len()
            &&& forall|i: int|
                0 <= i < v@.len() ==> (#[trigger] v@[i]).raw@ == comma_fields(s@)[i] && v@[i].trimmed@
                    == trim(comma_fields(s@)[i])
        },
{
    let ghost cs = s@;
    let len = s.unicode_len();
    let (lo, hi) = trim_range(s, 0, len);
    proof {
        assert(cs.subrange(0, len as int) =~= cs);
        reveal_strlit("0.4,0.8");
    }
    let lit = "0.4,0.8";
    if hi - lo == 7 {
        let mut i: usize = 0;
        let mut same = true;
        while i < 7
            invariant
                lo + 7 == hi <= cs.len(),
                cs == s@,
                i <= 7,
                lit@ == default_spelling(),
                lit@.len() == 7,
                same <==> forall|j: int| 0 <= j < i ==> cs[lo + j] == lit@[j],
            decreases 7 - i,
        {
            if s.get_char(lo + i) != lit.get_char(i) {
                same = false;
            }
            i = i + 1;
        }
        if same {
            assert(cs.subrange(lo as int, hi as int) =~= default_spelling());
            return FrequencyText::Default;
        } else {
            proof {
                let j = choose|j: int| 0 <= j < 7 && cs[lo + j] != lit@[j];
                assert(cs.subrange(lo as int, hi as int)[j] != default_spelling()[j]);
            }
        }
    }
    assert(trim(cs) != default_spelling()) by {
        if hi - lo != 7 {
            assert(cs.subrange(lo as int, hi as int).len() != default_spelling().len());
        }
    }
    let mut spans: Vec<(usize, usize)> = Vec::new();
    let mut start: usize = 0;
    let mut i: usize = 0;
    proof {
        assert(cs.take(0) =~= Seq::<char>::empty());
        assert(cs.subrange(0, 0) =~= Seq::<char>::empty());
        assert(comma_fields(cs.take(0)) =~= seq![Seq::<char>::empty()]);
    }
    while i < len
        invariant
            cs == s@,
            len == cs.len(),
            start <= i <= len,
            forall|k: int| 0 <= k < spans@.len() ==> #[trigger] spans@[k].0 <= spans@[k].1 <= i,
            comma_fields(cs.take(i as int)) =~= spans@.map_values(
                |p: (usize, usize)| cs.subrange(p.0 as int, p.1 as int),
            ).push(cs.subrange(start as int, i as int)),
        decreases len - i,
    {
        let c = s.get_char(i);
        let ghost before = spans@.map_values(
            |p: (usize, usize)| cs.subrange(p.0 as int, p.1 as int),
        );
        proof {
            assert(cs.take(i + 1).drop_last() =~= cs.take(i as int));
            assert(cs.take(i + 1).last() == c);
        }
        if c == ',' {
            let ghost old_spans = spans@;
            let ghost old_start = start;
            spans.push((start, i));
            start = i + 1;
            proof {
                assert(spans@ == old_spans.push((old_start, i)));
                assert forall|k: int| 0 <= k < spans@.len() implies #[trigger] spans@[k].0 <= spans@[k].1 <= i + 1 by {
                    if k < old_spans.len() {
                        assert(spans@[k] == old_spans[k]);
                        assert(old_spans[k].0 <= old_spans[k].1 <= i);
                    } else {
                        assert(spans@[k] == (old_start, i));
                    }
                }
                let after = spans@.map_values(
                    |p: (usize, usize)| cs.subrange(p.0 as int, p.1 as int),
                );
                assert(after =~= before.push(cs.subrange(spans@.last().0 as int, i as int)));
                assert(cs.subrange(start as int, i + 1) =~= Seq::<char>::empty());
            }
        } else {
            proof {
                assert(cs.subrange(start as int, i as int).push(c) =~= cs.subrange(
                    start as int,
                    i + 1,
                ));
            }
        }
        i = i + 1;
    }
    let ghost old_spans = spans@;
    spans.push((start, len));
    proof {
        assert(spans@ == old_spans.push((start, len)));
        assert forall|m: int| 0 <= m < spans@.len() implies #[trigger] spans@[m].0 <= spans@[m].1 <= len by {
            if m < old_spans.len() {
                assert(spans@[m] == old_spans[m]);
                assert(old_spans[m].0 <= old_spans[m].1 <= len);
            }
        }
        assert(cs.take(len as int) =~= cs);
    }
    let mut fields: Vec<Field> = Vec::new();
    let mut k: usize = 0;
    while k < spans.len()
        invariant
            cs == s@,
            len == cs.len(),
            k <= spans@.len(),
            fields@.len() == k,
            forall|m: int| 0 <= m < spans@.len() ==> #[trigger] spans@[m].0 <= spans@[m].1 <= len,
            comma_fields(cs) =~= spans@.map_values(
                |p: (usize, usize)| cs.subrange(p.0 as int, p.1 as int),
            ),
            forall|m: int|
                0 <= m < k ==> (#[trigger] fields@[m]).raw@ == comma_fields(cs)[m]
                    && fields@[m].trimmed@ == trim(comma_fields(cs)[m]),
        decreases spans@.len() - k,
    {
        let (a, b) = spans[k];
        let (ta, tb) = trim_range(s, a, b);
        let raw = String::from_str(s.substring_char(a, b));
        let trimmed = String::from_str(s.substring_char(ta, tb));
        fields.push(Field { raw, trimmed });
        k = k + 1;
    }
    FrequencyText::Fields(fields)
}

} // verus!
