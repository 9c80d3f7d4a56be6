//! Character-level text model: whitespace, trimming, line splitting, joining,
//! prefix tests and substring search, each an executable function proved
//! against a spec function over `Seq<char>`.
use vstd::prelude::*;
use crate::bindings::push_char;
use vstd::utf8::{encode_scalar, encode_utf8};

verus! {

// ---------------------------------------------------------------- whitespace

/// Unicode `White_Space`, the property that `char::is_whitespace` tests.
pub open spec fn is_ws(c: char) -> bool {
    let u = c as u32;
    ||| 0x09 <= u <= 0x0D
    ||| u == 0x20
    ||| u == 0x85
    ||| u == 0xA0
    ||| u == 0x1680
    ||| 0x2000 <= u <= 0x200A
    ||| u == 0x2028
    ||| u == 0x2029
    ||| u == 0x202F
    ||| u == 0x205F
    ||| u == 0x3000
}

/// First index at or after `i` that does not hold whitespace (or `s.len()`).
pub open spec fn ws_run(s: Seq<char>, i: int) -> int
    decreases s.len() - i,
{
    if 0 <= i < s.len() && is_ws(s[i]) {
        ws_run(s, i + 1)
    } else {
        i
    }
}

/// Going down from `j`, the end of `s[lo..j]` once trailing whitespace is removed.
pub open spec fn ws_back(s: Seq<char>, lo: int, j: int) -> int
    decreases j - lo,
{
    if lo < j && j <= s.len() && is_ws(s[j - 1]) {
        ws_back(s, lo, j - 1)
    } else {
        j
    }
}

/// `str::trim_start`: leading whitespace removed.
pub open spec fn trim_start(s: Seq<char>) -> Seq<char> {
    s.skip(ws_run(s, 0))
}

/// `str::trim`: leading and trailing whitespace removed.
pub open spec fn trim(s: Seq<char>) -> Seq<char> {
    let a = ws_run(s, 0);
    s.subrange(a, ws_back(s, a, s.len() as int))
}

pub proof fn lemma_ws_run_bounds(s: Seq<char>, i: int)
    requires
        0 <= i <= s.len(),
    ensures
        i <= ws_run(s, i) <= s.len(),
        forall|k: int| i <= k < ws_run(s, i) ==> is_ws(#[trigger] s[k]),
        ws_run(s, i) < s.len() ==> !is_ws(s[ws_run(s, i)]),
    decreases s.len() - i,
{
    if i < s.len() && is_ws(s[i]) {
        lemma_ws_run_bounds(s, i + 1);
    }
}

pub proof fn lemma_ws_back_bounds(s: Seq<char>, lo: int, j: int)
    requires
        0 <= lo <= j <= s.len(),
    ensures
        lo <= ws_back(s, lo, j) <= j,
        forall|k: int| ws_back(s, lo, j) <= k < j ==> is_ws(#[trigger] s[k]),
        ws_back(s, lo, j) > lo ==> !is_ws(s[ws_back(s, lo, j) - 1]),
    decreases j - lo,
{
    if lo < j && is_ws(s[j - 1]) {
        lemma_ws_back_bounds(s, lo, j - 1);
    }
}

/// `char::is_whitespace`.
pub fn is_whitespace(c: char) -> (b: bool)
    ensures
        b == is_ws(c),
{
    let u = c as u32;
    (0x09 <= u && u <= 0x0D) || u == 0x20 || u == 0x85 || u == 0xA0 || u == 0x1680 || (0x2000
        <= u && u <= 0x200A) || u == 0x2028 || u == 0x2029 || u == 0x202F || u == 0x205F || u
        == 0x3000
}

/// Bounds of the trimmed part of `s`: `trim(s) == s[a..e]`.
pub fn trim_bounds(s: &Vec<char>) -> (r: (usize, usize))
    ensures
        r.0 == ws_run(s@, 0),
        r.1 == ws_back(s@, r.0 as int, s@.len() as int),
        r.0 <= r.1 <= s.len(),
        trim(s@) == s@.subrange(r.0 as int, r.1 as int),
        trim_start(s@) == s@.skip(r.0 as int),
{
    let n = s.len();
    let mut a: usize = 0;
    while a < n && is_whitespace(s[a])
        invariant
            0 <= a <= n == s@.len(),
            ws_run(s@, a as int) == ws_run(s@, 0),
        decreases n - a,
    {
        a = a + 1;
    }
    let mut e: usize = n;
    while e > a && is_whitespace(s[e - 1])
        invariant
            a <= e <= n == s@.len(),
            ws_back(s@, a as int, e as int) == ws_back(s@, a as int, n as int),
        decreases e - a,
    {
        e = e - 1;
    }
    (a, e)
}

// ---------------------------------------------------------------- prefixes, search

/// `str::starts_with` with a string pattern.
pub open spec fn starts_with(s: Seq<char>, p: Seq<char>) -> bool {
    p.len() <= s.len() && s.take(p.len() as int) == p
}

/// `str::ends_with` with a char pattern.
pub open spec fn ends_with_char(s: Seq<char>, c: char) -> bool {
    s.len() > 0 && s.last() == c
}

/// `p` occurs in `s` at index `i`.
pub open spec fn match_at(s: Seq<char>, p: Seq<char>, i: int) -> bool {
    0 <= i && i + p.len() <= s.len() && s.subrange(i, i + p.len()) == p
}

/// First occurrence of `p` in `s` at or after `i`.
pub open spec fn find_from(s: Seq<char>, p: Seq<char>, i: int) -> Option<int>
    decreases s.len() + 1 - i,
{
    if i < 0 || i + p.len() > s.len() {
        None
    } else if match_at(s, p, i) {
        Some(i)
    } else {
        find_from(s, p, i + 1)
    }
}

/// `str::find` with a string pattern (a character index).
pub open spec fn find(s: Seq<char>, p: Seq<char>) -> Option<int> {
    find_from(s, p, 0)
}

pub proof fn lemma_find_from(s: Seq<char>, p: Seq<char>, i: int)
    requires
        0 <= i,
    ensures
        find_from(s, p, i) matches Some(k) ==> i <= k && match_at(s, p, k) && forall|j: int|
            i <= j < k ==> !#[trigger] match_at(s, p, j),
        find_from(s, p, i) is None ==> forall|j: int| i <= j ==> !#[trigger] match_at(s, p, j),
    decreases s.len() + 1 - i,
{
    if i + p.len() > s.len() {
    } else if match_at(s, p, i) {
    } else {
        lemma_find_from(s, p, i + 1);
    }
}

/// Whether `p` occurs in `s` at index `at`.
pub fn matches_at(s: &Vec<char>, at: usize, p: &Vec<char>) -> (b: bool)
    ensures
        b == match_at(s@, p@, at as int),
{
    if at > s.len() || p.len() > s.len() - at {
        return false;
    }
    let mut k: usize = 0;
    while k < p.len()
        invariant
            at + p.len() <= s.len(),
            k <= p.len(),
            forall|j: int| 0 <= j < k ==> s@[at + j] == p@[j],
        decreases p.len() - k,
    {
        if s[at + k] != p[k] {
            assert(s@.subrange(at as int, at + p.len())[k as int] != p@[k as int]);
            return false;
        }
        k = k + 1;
    }
    assert(s@.subrange(at as int, at + p.len()) =~= p@);
    true
}

/// `str::starts_with`.
pub fn has_prefix(s: &Vec<char>, p: &Vec<char>) -> (b: bool)
    ensures
        b == starts_with(s@, p@),
{
    let b = matches_at(s, 0, p);
    assert(b ==> s@.subrange(0, p@.len() as int) =~= s@.take(p@.len() as int));
    assert(starts_with(s@, p@) ==> s@.subrange(0, p@.len() as int) =~= s@.take(p@.len() as int));
    b
}

/// `str::find` from index `i`.
pub fn find_exec(s: &Vec<char>, p: &Vec<char>, i: usize) -> (r: Option<usize>)
    ensures
        r matches Some(k) ==> find_from(s@, p@, i as int) == Some(k as int),
        r is None ==> find_from(s@, p@, i as int) is None,
{
    let mut j = i;
    if j > s.len() {
        return None;
    }
    while p.len() <= s.len() - j
        invariant
            i <= j <= s.len(),
            find_from(s@, p@, j as int) == find_from(s@, p@, i as int),
        decreases s.len() + 1 - j,
    {
        if matches_at(s, j, p) {
            return Some(j);
        }
        if j == s.len() {
            assert(s@.subrange(j as int, j as int) =~= p@);
            return None;
        }
        j = j + 1;
    }
    None
}

// ---------------------------------------------------------------- lines

/// The pieces of `s` between `'\n'` characters (`str::split('\n')`).
pub open spec fn split_lf(s: Seq<char>) -> Seq<Seq<char>>
    decreases s.len(),
{
    if s.len() == 0 {
        seq![Seq::empty()]
    } else {
        let r = split_lf(s.drop_last());
        if s.last() == '\n' {
            r.push(Seq::empty())
        } else {
            r.update(r.len() - 1, r.last().push(s.last()))
        }
    }
}

/// One trailing `'\r'` removed, if there is one.
pub open spec fn strip_cr(l: Seq<char>) -> Seq<char> {
    if l.len() > 0 && l.last() == '\r' {
        l.drop_last()
    } else {
        l
    }
}

/// `str::lines`: the pieces ended by `'\n'` lose that `'\n'` and a `'\r'` before it;
/// a last piece that nothing ends is kept unless it is empty.
pub open spec fn lines(s: Seq<char>) -> Seq<Seq<char>> {
    let p = split_lf(s);
    let ended = Seq::new((p.len() - 1) as nat, |k: int| strip_cr(p[k]));
    if p.last().len() == 0 {
        ended
    } else {
        ended.push(p.last())
    }
}

/// `[String]::join(sep)`.
pub open spec fn join(ls: Seq<Seq<char>>, sep: Seq<char>) -> Seq<char>
    decreases ls.len(),
{
    if ls.len() == 0 {
        Seq::empty()
    } else if ls.len() == 1 {
        ls[0]
    } else {
        join(ls.drop_last(), sep) + sep + ls.last()
    }
}

pub proof fn lemma_split_lf_len(s: Seq<char>)
    ensures
        split_lf(s).len() >= 1,
    decreases s.len(),
{
    if s.len() > 0 {
        lemma_split_lf_len(s.drop_last());
    }
}

/// The text of a span of `s`.
pub open spec fn span(s: Seq<char>, sp: (usize, usize)) -> Seq<char> {
    s.subrange(sp.0 as int, sp.1 as int)
}

pub open spec fn spans_ok(s: Seq<char>, sps: Seq<(usize, usize)>) -> bool {
    forall|k: int| 0 <= k < sps.len() ==> #[trigger] sps[k].0 <= sps[k].1 <= s.len()
}

/// The spans of `s` that `str::lines` yields, in order.
pub fn line_spans(s: &Vec<char>) -> (r: Vec<(usize, usize)>)
    ensures
        spans_ok(s@, r@),
        r@.len() == lines(s@).len(),
        forall|k: int| 0 <= k < r@.len() ==> #[trigger] span(s@, r@[k]) == lines(s@)[k],
{
    let n = s.len();
    let mut spans: Vec<(usize, usize)> = Vec::new();
    let mut start: usize = 0;
    let mut i: usize = 0;
    assert(s@.take(0) =~= Seq::<char>::empty());
    while i < n
        invariant
            n == s@.len(),
            start <= i <= n,
            spans_ok(s@, spans@),
            split_lf(s@.take(i as int)).len() == spans@.len() + 1,
            forall|k: int|
                0 <= k < spans@.len() ==> #[trigger] span(s@, spans@[k]) == strip_cr(
                    split_lf(s@.take(i as int))[k],
                ),
            split_lf(s@.take(i as int)).last() == s@.subrange(start as int, i as int),
        decreases n - i,
    {
        let ghost prev = split_lf(s@.take(i as int));
        assert(s@.take(i + 1).drop_last() =~= s@.take(i as int));
        if s[i] == '\n' {
            let mut e = i;
            if e > start && s[e - 1] == '\r' {
                e = e - 1;
            }
            proof {
                let piece = s@.subrange(start as int, i as int);
                if i > start && s@[i - 1] == '\r' {
                    assert(strip_cr(piece) =~= s@.subrange(start as int, e as int));
                } else {
                    assert(strip_cr(piece) =~= s@.subrange(start as int, e as int));
                }
            }
            let ghost old_spans = spans@;
            spans.push((start, e));
            assert(spans@ == old_spans.push((start, e)));
            assert forall|k: int| 0 <= k < spans@.len() implies #[trigger] spans@[k].0 <= spans@[k].1
                <= s@.len() by {
                if k < old_spans.len() {
                    assert(spans@[k] == old_spans[k]);
                }
            }
            start = i + 1;
        }
        i = i + 1;
        assert(s@.subrange(start as int, i as int) =~= split_lf(s@.take(i as int)).last());
    }
    assert(s@.take(n as int) =~= s@);
    let ghost p = split_lf(s@);
    proof {
        lemma_split_lf_len(s@);
    }
    if start < n {
        spans.push((start, n));
        assert(lines(s@) =~= Seq::new((p.len() - 1) as nat, |k: int| strip_cr(p[k])).push(
            p.last(),
        ));
    } else {
        assert(lines(s@) =~= Seq::new((p.len() - 1) as nat, |k: int| strip_cr(p[k])));
    }
    spans
}

/// The spans of the pieces of `s` between `'\n'` characters (`split_lf`), in order.
pub fn piece_spans(s: &Vec<char>) -> (r: Vec<(usize, usize)>)
    ensures
        spans_ok(s@, r@),
        r@.len() == split_lf(s@).len(),
        forall|k: int| 0 <= k < r@.len() ==> #[trigger] span(s@, r@[k]) == split_lf(s@)[k],
{
    let n = s.len();
    let mut spans: Vec<(usize, usize)> = Vec::new();
    let mut start: usize = 0;
    let mut i: usize = 0;
    assert(s@.take(0) =~= Seq::<char>::empty());
    while i < n
        invariant
            n == s@.len(),
            start <= i <= n,
            spans_ok(s@, spans@),
            split_lf(s@.take(i as int)).len() == spans@.len() + 1,
            forall|k: int|
                0 <= k < spans@.len() ==> #[trigger] span(s@, spans@[k]) == split_lf(
                    s@.take(i as int),
                )[k],
            split_lf(s@.take(i as int)).last() == s@.subrange(start as int, i as int),
        decreases n - i,
    {
        assert(s@.take(i + 1).drop_last() =~= s@.take(i as int));
        if s[i] == '\n' {
            let ghost old_spans = spans@;
            spans.push((start, i));
            assert(spans@ == old_spans.push((start, i)));
            assert forall|k: int| 0 <= k < spans@.len() implies #[trigger] spans@[k].0 <= spans@[k].1
                <= s@.len() by {
                if k < old_spans.len() {
                    assert(spans@[k] == old_spans[k]);
                }
            }
            start = i + 1;
        }
        i = i + 1;
        assert(s@.subrange(start as int, i as int) =~= split_lf(s@.take(i as int)).last());
    }
    assert(s@.take(n as int) =~= s@);
    let ghost old_spans = spans@;
    spans.push((start, n));
    assert(spans@ == old_spans.push((start, n)));
    assert forall|k: int| 0 <= k < spans@.len() implies #[trigger] spans@[k].0 <= spans@[k].1
        <= s@.len() by {
        if k < old_spans.len() {
            assert(spans@[k] == old_spans[k]);
        }
    }
    spans
}

/// The pieces `ps` of `v` (given by their spans) joined with `'\n'`, where
/// piece `idx` is replaced by `repl`.
pub(crate) fn join_pieces_replacing(
    v: &Vec<char>,
    spans: &Vec<(usize, usize)>,
    Ghost(ps): Ghost<Seq<Seq<char>>>,
    idx: usize,
    repl: &Vec<char>,
) -> (out: String)
    requires
        spans_ok(v@, spans@),
        spans@.len() == ps.len(),
        idx < ps.len(),
        forall|k: int| 0 <= k < spans@.len() ==> #[trigger] span(v@, spans@[k]) == ps[k],
    ensures
        out@ == join(ps.update(idx as int, repl@), seq!['\n']),
{
    let ghost ls = ps.update(idx as int, repl@);
    let mut out = String::new();
    let mut k: usize = 0;
    assert(ls.take(0) =~= Seq::<Seq<char>>::empty());
    while k < spans.len()
        invariant
            spans_ok(v@, spans@),
            spans@.len() == ps.len() == ls.len(),
            forall|j: int| 0 <= j < spans@.len() ==> #[trigger] span(v@, spans@[j]) == ps[j],
            ls == ps.update(idx as int, repl@),
            idx < ps.len(),
            k <= spans.len(),
            out@ == join(ls.take(k as int), seq!['\n']),
        decreases spans.len() - k,
    {
        let ghost before = out@;
        if k > 0 {
            push_char(&mut out, '\n');
        }
        let ghost mid = out@;
        if k == idx {
            push_range(&mut out, repl, 0, repl.len());
            assert(repl@.subrange(0, repl@.len() as int) =~= repl@);
            assert(ls[k as int] == repl@);
        } else {
            let sp = spans[k];
            push_range(&mut out, v, sp.0, sp.1);
            assert(ls[k as int] == ps[k as int]);
            assert(span(v@, spans@[k as int]) == ps[k as int]);
        }
        assert(out@ == mid + ls[k as int]);
        proof {
            let t1 = ls.take(k + 1);
            assert(t1.drop_last() =~= ls.take(k as int));
            assert(t1.last() == ls[k as int]);
            if k == 0 {
                assert(t1.len() == 1);
                assert(before =~= Seq::<char>::empty());
                assert(out@ =~= ls[0]);
            } else {
                assert(out@ =~= before + seq!['\n'] + ls[k as int]);
            }
        }
        k = k + 1;
    }
    assert(ls.take(k as int) =~= ls);
    out
}

/// Joining lines, with text added to the last one, adds that text at the end.
pub proof fn lemma_join_extend_last(ls: Seq<Seq<char>>, t: Seq<char>)
    requires
        ls.len() >= 1,
    ensures
        join(ls.update(ls.len() - 1, ls.last() + t), seq!['\n']) == join(ls, seq!['\n']) + t,
{
    let u = ls.update(ls.len() - 1, ls.last() + t);
    if ls.len() == 1 {
    } else {
        assert(u.drop_last() =~= ls.drop_last());
        assert(join(u, seq!['\n']) == join(u.drop_last(), seq!['\n']) + seq!['\n'] + u.last());
        assert(join(u, seq!['\n']) =~= join(ls, seq!['\n']) + t);
    }
}

/// The pieces between `'\n'` characters, joined with `'\n'`, give the text back.
pub proof fn lemma_join_split_lf(s: Seq<char>)
    ensures
        join(split_lf(s), seq!['\n']) == s,
    decreases s.len(),
{
    if s.len() == 0 {
        assert(split_lf(s) =~= seq![Seq::<char>::empty()]);
        assert(s =~= Seq::<char>::empty());
    } else {
        let d = s.drop_last();
        lemma_join_split_lf(d);
        lemma_split_lf_len(d);
        let r = split_lf(d);
        if s.last() == '\n' {
            let u = r.push(Seq::<char>::empty());
            assert(u.drop_last() =~= r);
            assert(join(u, seq!['\n']) == join(r, seq!['\n']) + seq!['\n'] + u.last());
            assert(join(u, seq!['\n']) =~= s);
        } else {
            lemma_join_extend_last(r, seq![s.last()]);
            assert(r.last().push(s.last()) =~= r.last() + seq![s.last()]);
            assert(d + seq![s.last()] =~= s);
        }
    }
}

/// `s` holds no `'\n'`.
pub open spec fn no_lf(s: Seq<char>) -> bool {
    forall|k: int| 0 <= k < s.len() ==> s[k] != '\n'
}

pub proof fn lemma_split_lf_append(s: Seq<char>, t: Seq<char>)
    requires
        no_lf(t),
    ensures
        split_lf(s + t) == split_lf(s).update(
            split_lf(s).len() - 1,
            split_lf(s).last() + t,
        ),
    decreases t.len(),
{
    lemma_split_lf_len(s);
    if t.len() == 0 {
        assert(s + t =~= s);
        assert(split_lf(s).last() + t =~= split_lf(s).last());
        assert(split_lf(s).update(split_lf(s).len() - 1, split_lf(s).last()) =~= split_lf(s));
    } else {
        let t0 = t.drop_last();
        let c = t.last();
        lemma_split_lf_append(s, t0);
        assert((s + t).drop_last() =~= s + t0);
        assert((s + t).last() == c);
        let r = split_lf(s + t0);
        assert(split_lf(s + t) == r.update(r.len() - 1, r.last().push(c)));
        assert(split_lf(s).last() + t =~= (split_lf(s).last() + t0).push(c));
        assert(split_lf(s + t) =~= split_lf(s).update(
            split_lf(s).len() - 1,
            split_lf(s).last() + t,
        ));
    }
}

pub proof fn lemma_split_lf_join(ls: Seq<Seq<char>>)
    requires
        ls.len() >= 1,
        forall|k: int| 0 <= k < ls.len() ==> no_lf(#[trigger] ls[k]),
    ensures
        split_lf(join(ls, seq!['\n'])) == ls,
    decreases ls.len(),
{
    if ls.len() == 1 {
        lemma_split_lf_append(Seq::empty(), ls[0]);
        assert(Seq::<char>::empty() + ls[0] =~= ls[0]);
        assert(Seq::<char>::empty() + ls[0] =~= ls[0]);
        assert(split_lf(Seq::<char>::empty()).update(0, Seq::<char>::empty() + ls[0]) =~= ls);
    } else {
        let d = ls.drop_last();
        let l = ls.last();
        assert(no_lf(l)) by {
            assert(l == ls[ls.len() - 1]);
        }
        assert forall|k: int| 0 <= k < d.len() implies no_lf(#[trigger] d[k]) by {
            assert(d[k] == ls[k]);
        }
        lemma_split_lf_join(d);
        let jd = join(d, seq!['\n']);
        assert(jd + seq!['\n'] =~= jd.push('\n'));
        assert(jd.push('\n').drop_last() =~= jd);
        assert(split_lf(jd.push('\n')) == d.push(Seq::empty()));
        lemma_split_lf_append(jd.push('\n'), l);
        assert(Seq::<char>::empty() + l =~= l);
        assert(d.push(Seq::empty()).update(d.len() as int, Seq::<char>::empty() + l) =~= ls);
    }
}

pub proof fn lemma_split_lf_no_lf(s: Seq<char>)
    ensures
        forall|k: int| 0 <= k < split_lf(s).len() ==> no_lf(#[trigger] split_lf(s)[k]),
    decreases s.len(),
{
    if s.len() > 0 {
        lemma_split_lf_no_lf(s.drop_last());
        lemma_split_lf_len(s.drop_last());
        let r = split_lf(s.drop_last());
        if s.last() != '\n' {
            assert forall|k: int| 0 <= k < split_lf(s).len() implies no_lf(
                #[trigger] split_lf(s)[k],
            ) by {
                if k < r.len() - 1 {
                    assert(split_lf(s)[k] == r[k]);
                } else {
                    assert(split_lf(s)[k] == r.last().push(s.last()));
                    assert(no_lf(r[r.len() - 1]));
                }
            }
        } else {
            assert forall|k: int| 0 <= k < split_lf(s).len() implies no_lf(
                #[trigger] split_lf(s)[k],
            ) by {
                if k < r.len() {
                    assert(split_lf(s)[k] == r[k]);
                }
            }
        }
    }
}

/// No line of a text holds a `'\n'`.
pub proof fn lemma_lines_no_lf(s: Seq<char>)
    ensures
        forall|k: int| 0 <= k < lines(s).len() ==> no_lf(#[trigger] lines(s)[k]),
{
    lemma_split_lf_no_lf(s);
    lemma_split_lf_len(s);
    let p = split_lf(s);
    assert forall|k: int| 0 <= k < lines(s).len() implies no_lf(#[trigger] lines(s)[k]) by {
        if k < p.len() - 1 {
            assert(lines(s)[k] == strip_cr(p[k]));
            assert(no_lf(p[k]));
        } else {
            assert(lines(s)[k] == p.last());
            assert(no_lf(p[p.len() - 1]));
        }
    }
}

// ---------------------------------------------------------------- UTF-8 lengths

/// Length in bytes of the UTF-8 encoding of `s` (what `str::len` counts).
pub open spec fn utf8_len(s: Seq<char>) -> nat {
    encode_utf8(s).len()
}

pub proof fn lemma_encode_concat(a: Seq<char>, b: Seq<char>)
    ensures
        encode_utf8(a + b) == encode_utf8(a) + encode_utf8(b),
    decreases a.len(),
{
    if a.len() == 0 {
        assert(a + b =~= b);
        assert(encode_utf8(a) =~= Seq::<u8>::empty());
        assert(encode_utf8(a) + encode_utf8(b) =~= encode_utf8(b));
    } else {
        assert((a + b).drop_first() =~= a.drop_first() + b);
        assert((a + b)[0] == a[0]);
        lemma_encode_concat(a.drop_first(), b);
        assert(encode_utf8(a + b) =~= encode_scalar(a[0] as u32) + encode_utf8(a.drop_first() + b));
    }
}

pub proof fn lemma_utf8_len_take(s: Seq<char>, k: int)
    requires
        0 <= k <= s.len(),
    ensures
        utf8_len(s.take(k)) <= utf8_len(s),
        k < s.len() ==> utf8_len(s.take(k + 1)) == utf8_len(s.take(k)) + encode_scalar(
            s[k] as u32,
        ).len(),
{
    assert(s =~= s.take(k) + s.skip(k));
    lemma_encode_concat(s.take(k), s.skip(k));
    if k < s.len() {
        assert(s.take(k + 1) =~= s.take(k) + seq![s[k]]);
        lemma_encode_concat(s.take(k), seq![s[k]]);
        assert(seq![s[k]].drop_first() =~= Seq::<char>::empty());
        assert(encode_utf8(seq![s[k]]) =~= encode_scalar(s[k] as u32) + encode_utf8(
            Seq::<char>::empty(),
        ));
    }
}

/// Number of bytes in the UTF-8 encoding of `c` (`char::len_utf8`).
pub fn utf8_width(c: char) -> (w: usize)
    ensures
        w == encode_scalar(c as u32).len(),
        1 <= w <= 4,
{
    broadcast use vstd::utf8::char_is_scalar;

    let u = c as u32;
    if u <= 0x7F {
        1
    } else if u <= 0x7FF {
        2
    } else if u <= 0xFFFF {
        3
    } else {
        4
    }
}

/// Byte length of the UTF-8 encoding of `s[..k]`.
pub fn utf8_prefix_len(s: &Vec<char>, k: usize) -> (n: usize)
    requires
        k <= s@.len(),
        utf8_len(s@) <= usize::MAX,
    ensures
        n == utf8_len(s@.take(k as int)),
{
    let mut n: usize = 0;
    let mut i: usize = 0;
    assert(s@.take(0) =~= Seq::<char>::empty());
    while i < k
        invariant
            i <= k <= s@.len(),
            utf8_len(s@) <= usize::MAX,
            n == utf8_len(s@.take(i as int)),
        decreases k - i,
    {
        proof {
            lemma_utf8_len_take(s@, i as int);
            lemma_utf8_len_take(s@, i + 1);
        }
        n = n + utf8_width(s[i]);
        i = i + 1;
    }
    n
}

// ---------------------------------------------------------------- building strings

/// Appends `s[a..b]` to `out`.
pub fn push_range(out: &mut String, s: &Vec<char>, a: usize, b: usize)
    requires
        a <= b <= s@.len(),
    ensures
        final(out)@ == old(out)@ + s@.subrange(a as int, b as int),
{
    let mut i = a;
    while i < b
        invariant
            a <= i <= b <= s@.len(),
            out@ == old(out)@ + s@.subrange(a as int, i as int),
        decreases b - i,
    {
        push_char(out, s[i]);
        assert(s@.subrange(a as int, i + 1) =~= s@.subrange(a as int, i as int).push(s@[i as int]));
        i = i + 1;
    }
}

/// Copy of `s[a..b]`.
pub fn sub_vec(s: &Vec<char>, a: usize, b: usize) -> (v: Vec<char>)
    requires
        a <= b <= s@.len(),
    ensures
        v@ == s@.subrange(a as int, b as int),
{
    let mut v: Vec<char> = Vec::new();
    let mut i = a;
    while i < b
        invariant
            a <= i <= b <= s@.len(),
            v@ == s@.subrange(a as int, i as int),
        decreases b - i,
    {
        v.push(s[i]);
        assert(s@.subrange(a as int, i + 1) =~= s@.subrange(a as int, i as int).push(s@[i as int]));
        i = i + 1;
    }
    v
}

/// A `String` holding the characters of `v`.
pub fn string_of(v: &Vec<char>) -> (out: String)
    ensures
        out@ == v@,
{
    let mut out = String::new();
    push_range(&mut out, v, 0, v.len());
    assert(v@.subrange(0, v@.len() as int) =~= v@);
    out
}

/// The characters of a string slice, in order.
pub fn chars_of(s: &str) -> (v: Vec<char>)
    ensures
        v@ == s@,
{
    let mut v: Vec<char> = Vec::new();
    for c in it: s.chars()
        invariant
            v@ == it.seq().take(it.index() as int),
    {
        v.push(c);
    }
    v
}

} // verus!
