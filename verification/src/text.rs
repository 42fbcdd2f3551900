//! Text as chars: whitespace, trimming, lines, runs, prefixes, ordering, decimal digits and
//! UTF-8 byte lengths.
use vstd::prelude::*;

verus! {

/// A char is Unicode `White_Space` (the set `char::is_whitespace` tests).
pub open spec fn is_ws(c: char) -> bool {
    ||| c == '\t' || c == '\n' || c == '\u{0B}' || c == '\u{0C}' || c == '\r' || c == ' '
    ||| c == '\u{85}' || c == '\u{A0}' || c == '\u{1680}'
    ||| ('\u{2000}' <= c && c <= '\u{200A}')
    ||| c == '\u{2028}' || c == '\u{2029}' || c == '\u{202F}' || c == '\u{205F}' || c == '\u{3000}'
}

pub fn is_whitespace(c: char) -> (b: bool)
    ensures
        b == is_ws(c),
{
    c == '\t' || c == '\n' || c == '\u{0B}' || c == '\u{0C}' || c == '\r' || c == ' ' || c
        == '\u{85}' || c == '\u{A0}' || c == '\u{1680}' || ('\u{2000}' <= c && c <= '\u{200A}')
        || c == '\u{2028}' || c == '\u{2029}' || c == '\u{202F}' || c == '\u{205F}' || c
        == '\u{3000}'
}

/// The chars of a string slice, in order.
pub fn chars_of(s: &str) -> (v: Vec<char>)
    ensures
        v@ == s@,
{
    let mut v: Vec<char> = Vec::new();
    for c in it: s.chars()
        invariant
            v@ == it.seq().take(it.index() as int),
            it.seq() == s@,
    {
        v.push(c);
    }
    v
}

/// Appends one char to a string (`String::push`).
#[verifier::external_body]
pub(crate) fn push_char(s: &mut String, c: char)
    ensures
        final(s)@ == old(s)@.push(c),
{
    s.push(c);
}

/// The string made of the given chars.
pub fn string_of(v: &[char]) -> (s: String)
    ensures
        s@ == v@,
{
    let mut s = String::new();
    for i in 0..v.len()
        invariant
            s@ == v@.take(i as int),
    {
        push_char(&mut s, v[i]);
        assert(v@.take(i + 1) == v@.take(i as int).push(v@[i as int]));
    }
    assert(v@.take(v@.len() as int) == v@);
    s
}

/// Appends a string slice to a string.
pub fn push_str(s: &mut String, t: &str)
    ensures
        final(s)@ == old(s)@ + t@,
{
    s.append(t);
}

/// The chars `s[lo..hi]` as a new vector.
pub fn slice_chars(s: &Vec<char>, lo: usize, hi: usize) -> (v: Vec<char>)
    requires
        lo <= hi <= s.len(),
    ensures
        v@ == s@.subrange(lo as int, hi as int),
{
    let mut v: Vec<char> = Vec::new();
    let mut i = lo;
    while i < hi
        invariant
            lo <= i <= hi <= s.len(),
            v@ == s@.subrange(lo as int, i as int),
        decreases hi - i,
    {
        v.push(s[i]);
        assert(s@.subrange(lo as int, i + 1) == s@.subrange(lo as int, i as int).push(s@[i as int]));
        i = i + 1;
    }
    v
}

// ---------------------------------------------------------------- trimming

/// Number of leading whitespace chars.
pub open spec fn lead_ws(s: Seq<char>) -> nat
    decreases s.len(),
{
    if s.len() > 0 && is_ws(s[0]) {
        1 + lead_ws(s.drop_first())
    } else {
        0
    }
}

/// Number of trailing whitespace chars.
pub open spec fn trail_ws(s: Seq<char>) -> nat
    decreases s.len(),
{
    if s.len() > 0 && is_ws(s.last()) {
        1 + trail_ws(s.drop_last())
    } else {
        0
    }
}

/// `str::trim_start`: the string without its leading whitespace.
pub open spec fn trim_start(s: Seq<char>) -> Seq<char> {
    s.skip(lead_ws(s) as int)
}

/// `str::trim_end`: the string without its trailing whitespace.
pub open spec fn trim_end(s: Seq<char>) -> Seq<char> {
    s.take(s.len() - trail_ws(s))
}

/// `str::trim`: the string without leading and trailing whitespace.
pub open spec fn trim(s: Seq<char>) -> Seq<char> {
    trim_end(trim_start(s))
}

pub proof fn lemma_lead_ws(s: Seq<char>, n: int)
    requires
        0 <= n <= s.len(),
        forall|i: int| 0 <= i < n ==> is_ws(#[trigger] s[i]),
        n == s.len() || !is_ws(s[n]),
    ensures
        lead_ws(s) == n,
    decreases n,
{
    if n > 0 {
        let t = s.drop_first();
        assert forall|i: int| 0 <= i < n - 1 implies is_ws(#[trigger] t[i]) by {
            assert(t[i] == s[i + 1]);
        }
        lemma_lead_ws(t, n - 1);
    }
}

pub proof fn lemma_trail_ws(s: Seq<char>, n: int)
    requires
        0 <= n <= s.len(),
        forall|i: int| s.len() - n <= i < s.len() ==> is_ws(#[trigger] s[i]),
        n == s.len() || !is_ws(s[s.len() - n - 1]),
    ensures
        trail_ws(s) == n,
    decreases n,
{
    if n > 0 {
        let t = s.drop_last();
        assert forall|i: int| t.len() - (n - 1) <= i < t.len() implies is_ws(#[trigger] t[i]) by {
            assert(t[i] == s[i]);
        }
        lemma_trail_ws(t, n - 1);
    }
}

proof fn lemma_lead_ws_stop(s: Seq<char>)
    ensures
        lead_ws(s) <= s.len(),
        lead_ws(s) < s.len() ==> !is_ws(s[lead_ws(s) as int]),
    decreases s.len(),
{
    if s.len() > 0 && is_ws(s[0]) {
        lemma_lead_ws_stop(s.drop_first());
    }
}

proof fn lemma_trail_ws_stop(s: Seq<char>)
    ensures
        trail_ws(s) <= s.len(),
        trail_ws(s) < s.len() ==> !is_ws(s[s.len() - trail_ws(s) - 1]),
    decreases s.len(),
{
    if s.len() > 0 && is_ws(s.last()) {
        lemma_trail_ws_stop(s.drop_last());
    }
}

/// Trimming twice is trimming once.
pub proof fn lemma_trim_idempotent(p: Seq<char>)
    ensures
        trim(trim(p)) == trim(p),
{
    let u = trim_start(p);
    let t = trim(p);
    lemma_lead_ws_stop(p);
    lemma_trail_ws_stop(u);
    if t.len() == 0 {
        assert(trim(t) =~= t);
    } else {
        assert(t[0] == u[0]);
        assert(u[0] == p[lead_ws(p) as int]);
        lemma_lead_ws(t, 0);
        assert(t.skip(0) =~= t);
        assert(t[t.len() - 1] == u[u.len() - trail_ws(u) - 1]);
        lemma_trail_ws(t, 0);
        assert(t.take(t.len() as int) =~= t);
    }
}

/// Bounds of `trim(s[lo..hi])` inside `s`.
pub fn trim_range(s: &Vec<char>, lo: usize, hi: usize) -> (r: (usize, usize))
    requires
        lo <= hi <= s.len(),
    ensures
        lo <= r.0 <= r.1 <= hi,
        s@.subrange(r.0 as int, r.1 as int) == trim(s@.subrange(lo as int, hi as int)),
        s@.subrange(r.0 as int, hi as int) == trim_start(s@.subrange(lo as int, hi as int)),
{
    let ghost t = s@.subrange(lo as int, hi as int);
    let mut a = lo;
    while a < hi && is_whitespace(s[a])
        invariant
            lo <= a <= hi <= s.len(),
            t == s@.subrange(lo as int, hi as int),
            forall|i: int| 0 <= i < a - lo ==> is_ws(#[trigger] t[i]),
        decreases hi - a,
    {
        a = a + 1;
    }
    proof {
        lemma_lead_ws(t, a - lo);
        assert(t.skip(a - lo) == s@.subrange(a as int, hi as int));
    }
    let ghost u = s@.subrange(a as int, hi as int);
    let mut b = hi;
    while b > a && is_whitespace(s[b - 1])
        invariant
            lo <= a <= b <= hi <= s.len(),
            u == s@.subrange(a as int, hi as int),
            forall|i: int| u.len() - (hi - b) <= i < u.len() ==> is_ws(#[trigger] u[i]),
        decreases b,
    {
        b = b - 1;
    }
    proof {
        lemma_trail_ws(u, hi - b);
        assert(u.take(u.len() - (hi - b)) == s@.subrange(a as int, b as int));
    }
    (a, b)
}

/// `trim` of a whole char vector, as a new vector.
pub fn trim_chars(s: &Vec<char>) -> (v: Vec<char>)
    ensures
        v@ == trim(s@),
{
    let (a, b) = trim_range(s, 0, s.len());
    assert(s@.subrange(0, s@.len() as int) == s@);
    slice_chars(s, a, b)
}

/// The views of a sequence of char vectors.
pub open spec fn views(v: Seq<Vec<char>>) -> Seq<Seq<char>> {
    v.map_values(|x: Vec<char>| x@)
}

pub broadcast proof fn lemma_views_push(v: Seq<Vec<char>>, x: Vec<char>)
    ensures
        #[trigger] views(v.push(x)) == views(v).push(x@),
{
    assert(views(v.push(x)) =~= views(v).push(x@));
}

// ---------------------------------------------------------------- lines

/// Number of leading chars different from `c`.
pub open spec fn count_until(s: Seq<char>, c: char) -> nat
    decreases s.len(),
{
    if s.len() > 0 && s[0] != c {
        1 + count_until(s.drop_first(), c)
    } else {
        0
    }
}

pub proof fn lemma_count_until(s: Seq<char>, c: char, n: int)
    requires
        0 <= n <= s.len(),
        forall|i: int| 0 <= i < n ==> #[trigger] s[i] != c,
        n == s.len() || s[n] == c,
    ensures
        count_until(s, c) == n,
    decreases n,
{
    if n > 0 {
        let t = s.drop_first();
        assert forall|i: int| 0 <= i < n - 1 implies #[trigger] t[i] != c by {
            assert(t[i] == s[i + 1]);
        }
        lemma_count_until(t, c, n - 1);
    }
}

/// A line without the `'\r'` of a `"\r\n"` ending.
pub open spec fn strip_cr(s: Seq<char>) -> Seq<char> {
    if s.len() > 0 && s.last() == '\r' {
        s.drop_last()
    } else {
        s
    }
}

/// `str::lines`: pieces between `'\n'`s, each without a `'\r'` that ends it before the
/// `'\n'`; a final line ending adds no empty line.
pub open spec fn lines(s: Seq<char>) -> Seq<Seq<char>>
    decreases s.len(),
{
    if s.len() == 0 {
        seq![]
    } else {
        let k = count_until(s, '\n');
        if k >= s.len() {
            seq![s]
        } else {
            seq![strip_cr(s.take(k as int))] + lines(s.skip(k + 1 as int))
        }
    }
}

/// The lines of a char vector.
pub fn lines_of(s: &Vec<char>) -> (out: Vec<Vec<char>>)
    ensures
        views(out@) == lines(s@),
{
    let mut out: Vec<Vec<char>> = Vec::new();
    let mut i: usize = 0;
    assert(s@.skip(0) =~= s@);
    assert(views(out@) =~= Seq::<Seq<char>>::empty());
    while i < s.len()
        invariant
            i <= s.len(),
            lines(s@) == views(out@) + lines(s@.skip(i as int)),
        decreases s.len() - i,
    {
        let ghost t = s@.skip(i as int);
        let mut k = i;
        while k < s.len() && s[k] != '\n'
            invariant
                i <= k <= s.len(),
                t == s@.skip(i as int),
                forall|j: int| 0 <= j < k - i ==> #[trigger] t[j] != '\n',
            decreases s.len() - k,
        {
            k = k + 1;
        }
        proof {
            lemma_count_until(t, '\n', k - i);
        }
        let mut piece = slice_chars(s, i, k);
        assert(piece@ == t.take(k - i));
        let ghost old_out = views(out@);
        if k == s.len() {
            assert(piece@ == t);
            proof {
                lemma_views_push(out@, piece);
            }
            out.push(piece);
            assert(s@.skip(s.len() as int) == Seq::<char>::empty());
            i = k;
        } else {
            if piece.len() > 0 && piece[piece.len() - 1] == '\r' {
                piece.pop();
            }
            assert(piece@ == strip_cr(t.take(k - i)));
            proof {
                lemma_views_push(out@, piece);
            }
            out.push(piece);
            assert(t.skip(k - i + 1) == s@.skip(k + 1));
            i = k + 1;
        }
    }
    assert(s@.skip(i as int) == Seq::<char>::empty());
    assert(views(out@) + Seq::<Seq<char>>::empty() == views(out@));
    out
}

} // verus!

verus! {

// ---------------------------------------------------------------- runs

/// Which chars a run is made of: `Word` for non-whitespace (`split_whitespace`),
/// `Token` for ASCII letters, digits and `'_'`.
#[derive(Clone, Copy, PartialEq, Eq, Structural)]
pub enum RunKind {
    Word,
    Token,
}

pub open spec fn is_token_char(c: char) -> bool {
    ('a' <= c && c <= 'z') || ('A' <= c && c <= 'Z') || ('0' <= c && c <= '9') || c == '_'
}

pub open spec fn in_run(kind: RunKind, c: char) -> bool {
    match kind {
        RunKind::Word => !is_ws(c),
        RunKind::Token => is_token_char(c),
    }
}

fn in_run_exec(kind: RunKind, c: char) -> (b: bool)
    ensures
        b == in_run(kind, c),
{
    match kind {
        RunKind::Word => !is_whitespace(c),
        RunKind::Token => ('a' <= c && c <= 'z') || ('A' <= c && c <= 'Z') || ('0' <= c && c
            <= '9') || c == '_',
    }
}

/// Length of the run at the start of `s`.
pub open spec fn run_len(s: Seq<char>, kind: RunKind) -> nat
    decreases s.len(),
{
    if s.len() > 0 && in_run(kind, s[0]) {
        1 + run_len(s.drop_first(), kind)
    } else {
        0
    }
}

pub proof fn lemma_run_len_bound(s: Seq<char>, kind: RunKind)
    ensures
        run_len(s, kind) <= s.len(),
    decreases s.len(),
{
    if s.len() > 0 {
        lemma_run_len_bound(s.drop_first(), kind);
    }
}

pub proof fn lemma_run_len(s: Seq<char>, kind: RunKind, n: int)
    requires
        0 <= n <= s.len(),
        forall|i: int| 0 <= i < n ==> in_run(kind, #[trigger] s[i]),
        n == s.len() || !in_run(kind, s[n]),
    ensures
        run_len(s, kind) == n,
    decreases n,
{
    if n > 0 {
        let t = s.drop_first();
        assert forall|i: int| 0 <= i < n - 1 implies in_run(kind, #[trigger] t[i]) by {
            assert(t[i] == s[i + 1]);
        }
        lemma_run_len(t, kind, n - 1);
    }
}

/// The maximal runs of `kind` chars in `s`, in order (`split_whitespace` for `Word`).
pub open spec fn runs(s: Seq<char>, kind: RunKind) -> Seq<Seq<char>>
    decreases s.len(),
{
    if s.len() == 0 {
        seq![]
    } else if !in_run(kind, s[0]) {
        runs(s.drop_first(), kind)
    } else {
        let n = run_len(s, kind);
        proof {
            lemma_run_len_bound(s, kind);
        }
        seq![s.take(n as int)] + runs(s.skip(n as int), kind)
    }
}

proof fn lemma_run_len_stop(s: Seq<char>, kind: RunKind)
    ensures
        run_len(s, kind) <= s.len(),
        forall|i: int| 0 <= i < run_len(s, kind) ==> in_run(kind, #[trigger] s[i]),
        run_len(s, kind) < s.len() ==> !in_run(kind, s[run_len(s, kind) as int]),
    decreases s.len(),
{
    if s.len() > 0 && in_run(kind, s[0]) {
        let t = s.drop_first();
        lemma_run_len_stop(t, kind);
        assert forall|i: int| 0 <= i < run_len(s, kind) implies in_run(kind, #[trigger] s[i]) by {
            if i > 0 {
                assert(s[i] == t[i - 1]);
            }
        }
        if run_len(s, kind) < s.len() {
            assert(s[run_len(s, kind) as int] == t[run_len(t, kind) as int]);
        }
    }
}

/// Every run is a non-empty stretch of `kind` chars.
pub proof fn lemma_runs_elements(s: Seq<char>, kind: RunKind)
    ensures
        forall|k: int|
            0 <= k < runs(s, kind).len() ==> (#[trigger] runs(s, kind)[k]).len() > 0 && forall|i: int|
                0 <= i < runs(s, kind)[k].len() ==> in_run(kind, #[trigger] runs(s, kind)[k][i]),
    decreases s.len(),
{
    if s.len() > 0 {
        if !in_run(kind, s[0]) {
            lemma_runs_elements(s.drop_first(), kind);
            assert(runs(s, kind) == runs(s.drop_first(), kind));
        } else {
            let n = run_len(s, kind);
            lemma_run_len_stop(s, kind);
            assert(n > 0);
            lemma_runs_elements(s.skip(n as int), kind);
            let r = runs(s, kind);
            assert(r == seq![s.take(n as int)] + runs(s.skip(n as int), kind));
            assert forall|k: int| 0 <= k < r.len() implies (#[trigger] r[k]).len() > 0 && forall|i: int|
                0 <= i < r[k].len() ==> in_run(kind, #[trigger] r[k][i]) by {
                if k == 0 {
                    assert(r[0] == s.take(n as int));
                    assert forall|i: int| 0 <= i < r[k].len() implies in_run(kind, #[trigger] r[k][i]) by {
                        assert(r[k][i] == s[i]);
                    }
                } else {
                    assert(r[k] == runs(s.skip(n as int), kind)[k - 1]);
                }
            }
        }
    }
}

/// The runs of two texts put together are the runs of each, when a run cannot span the
/// joint.
pub proof fn lemma_runs_concat(x: Seq<char>, y: Seq<char>, kind: RunKind)
    requires
        x.len() == 0 || !in_run(kind, x.last()) || y.len() == 0 || !in_run(kind, y[0]),
    ensures
        runs(x + y, kind) == runs(x, kind) + runs(y, kind),
    decreases x.len(),
{
    let z = x + y;
    if x.len() == 0 {
        assert(z =~= y);
        assert(runs(x, kind) =~= Seq::<Seq<char>>::empty());
    } else if !in_run(kind, x[0]) {
        assert(z.drop_first() =~= x.drop_first() + y);
        if x.len() > 1 {
            assert(x.drop_first().last() == x.last());
        }
        lemma_runs_concat(x.drop_first(), y, kind);
    } else {
        let n = run_len(x, kind);
        lemma_run_len_stop(x, kind);
        assert(z[0] == x[0]);
        if n < x.len() {
            assert forall|i: int| 0 <= i < n implies in_run(kind, #[trigger] z[i]) by {
                assert(z[i] == x[i]);
            }
            assert(z[n as int] == x[n as int]);
            lemma_run_len(z, kind, n as int);
            assert(z.take(n as int) =~= x.take(n as int));
            assert(z.skip(n as int) =~= x.skip(n as int) + y);
            assert(x.skip(n as int).last() == x.last());
            lemma_runs_concat(x.skip(n as int), y, kind);
            assert(runs(x, kind) == seq![x.take(n as int)] + runs(x.skip(n as int), kind));
            assert(runs(z, kind) == seq![z.take(n as int)] + runs(z.skip(n as int), kind));
        } else {
            assert(in_run(kind, x[x.len() - 1]));
            assert forall|i: int| 0 <= i < n implies in_run(kind, #[trigger] z[i]) by {
                assert(z[i] == x[i]);
            }
            if y.len() > 0 {
                assert(z[n as int] == y[0]);
            }
            lemma_run_len(z, kind, n as int);
            assert(z.take(n as int) =~= x);
            assert(z.skip(n as int) =~= y);
            assert(x.take(n as int) =~= x);
            assert(x.skip(n as int) =~= Seq::<char>::empty());
            assert(runs(x.skip(n as int), kind) =~= Seq::<Seq<char>>::empty());
        }
    }
}

/// Words of run chars joined by a char outside runs split back into the words.
pub proof fn lemma_runs_join(ws: Seq<Seq<char>>, kind: RunKind, sep: char)
    requires
        !in_run(kind, sep),
        forall|k: int|
            0 <= k < ws.len() ==> (#[trigger] ws[k]).len() > 0 && forall|i: int|
                0 <= i < ws[k].len() ==> in_run(kind, #[trigger] ws[k][i]),
    ensures
        runs(join(ws, seq![sep]), kind) == ws,
    decreases ws.len(),
{
    if ws.len() == 0 {
        assert(runs(join(ws, seq![sep]), kind) =~= ws);
    } else if ws.len() == 1 {
        let w = ws[0];
        assert forall|i: int| 0 <= i < w.len() implies in_run(kind, #[trigger] w[i]) by {}
        lemma_run_len(w, kind, w.len() as int);
        assert(w.take(w.len() as int) =~= w);
        assert(w.skip(w.len() as int) =~= Seq::<char>::empty());
        assert(runs(w.skip(w.len() as int), kind) =~= Seq::<Seq<char>>::empty());
        assert(runs(w, kind) =~= ws);
    } else {
        let pre = ws.drop_last();
        let w = ws.last();
        assert forall|k: int| 0 <= k < pre.len() implies (#[trigger] pre[k]).len() > 0 && forall|i: int|
            0 <= i < pre[k].len() ==> in_run(kind, #[trigger] pre[k][i]) by {
            assert(pre[k] == ws[k]);
        }
        lemma_runs_join(pre, kind, sep);
        lemma_runs_join(seq![w], kind, sep);
        assert(join(seq![w], seq![sep]) == w);
        let a = join(pre, seq![sep]);
        lemma_runs_concat(a, seq![sep], kind);
        assert(runs(seq![sep], kind) == runs(seq![sep].drop_first(), kind));
        assert(seq![sep].drop_first() =~= Seq::<char>::empty());
        lemma_runs_concat(a + seq![sep], w, kind);
        assert(runs(join(ws, seq![sep]), kind) =~= pre + seq![w]);
        assert(pre + seq![w] =~= ws);
    }
}

/// The runs of `kind` chars in `s`.
pub fn runs_of(s: &Vec<char>, kind: RunKind) -> (out: Vec<Vec<char>>)
    ensures
        views(out@) == runs(s@, kind),
{
    broadcast use lemma_views_push;

    let mut out: Vec<Vec<char>> = Vec::new();
    let mut i: usize = 0;
    assert(s@.skip(0) =~= s@);
    assert(views(out@) =~= Seq::<Seq<char>>::empty());
    while i < s.len()
        invariant
            i <= s.len(),
            runs(s@, kind) == views(out@) + runs(s@.skip(i as int), kind),
        decreases s.len() - i,
    {
        let ghost t = s@.skip(i as int);
        if !in_run_exec(kind, s[i]) {
            assert(t.drop_first() =~= s@.skip(i + 1));
            i = i + 1;
        } else {
            let mut k = i;
            while k < s.len() && in_run_exec(kind, s[k])
                invariant
                    i <= k <= s.len(),
                    t == s@.skip(i as int),
                    forall|j: int| 0 <= j < k - i ==> in_run(kind, #[trigger] t[j]),
                decreases s.len() - k,
            {
                k = k + 1;
            }
            proof {
                lemma_run_len(t, kind, k - i);
                assert(t.skip(k - i) =~= s@.skip(k as int));
            }
            let piece = slice_chars(s, i, k);
            assert(piece@ =~= t.take(k - i));
            let ghost old_out = views(out@);
            out.push(piece);
            assert(views(out@) == old_out.push(piece@));
            assert(views(out@) + runs(s@.skip(k as int), kind) =~= old_out + (seq![piece@] + runs(
                s@.skip(k as int),
                kind,
            )));
            i = k;
        }
    }
    assert(s@.skip(i as int) =~= Seq::<char>::empty());
    assert(views(out@) + Seq::<Seq<char>>::empty() =~= views(out@));
    out
}

// ---------------------------------------------------------------- ASCII case

pub open spec fn ascii_lower(c: char) -> char {
    if 'A' <= c && c <= 'Z' {
        ((c as u32) + 32) as char
    } else {
        c
    }
}

pub open spec fn ascii_lower_seq(s: Seq<char>) -> Seq<char> {
    s.map_values(|c: char| ascii_lower(c))
}

pub fn ascii_lower_char(c: char) -> (r: char)
    ensures
        r == ascii_lower(c),
{
    if 'A' <= c && c <= 'Z' {
        let b: u8 = (c as u8) + 32;
        b as char
    } else {
        c
    }
}

} // verus!

verus! {

// ---------------------------------------------------------------- equality and prefixes

/// Whether two char vectors hold the same chars.
pub fn chars_eq(a: &Vec<char>, b: &Vec<char>) -> (r: bool)
    ensures
        r == (a@ == b@),
{
    if a.len() != b.len() {
        return false;
    }
    let mut i: usize = 0;
    while i < a.len()
        invariant
            a.len() == b.len(),
            i <= a.len(),
            forall|j: int| 0 <= j < i ==> a@[j] == b@[j],
        decreases a.len() - i,
    {
        if a[i] != b[i] {
            return false;
        }
        i = i + 1;
    }
    assert(a@ =~= b@);
    true
}

/// Whether a char vector holds exactly the chars of a string slice.
pub fn chars_eq_str(a: &Vec<char>, b: &str) -> (r: bool)
    ensures
        r == (a@ == b@),
{
    let bv = chars_of(b);
    chars_eq(a, &bv)
}

/// `p` is a prefix of `s`.
pub open spec fn has_prefix(s: Seq<char>, p: Seq<char>) -> bool {
    p.len() <= s.len() && s.take(p.len() as int) == p
}

/// Whether `s[lo..]` starts with `p`.
pub fn starts_with_at(s: &Vec<char>, lo: usize, p: &Vec<char>) -> (r: bool)
    requires
        lo <= s.len(),
    ensures
        r == has_prefix(s@.skip(lo as int), p@),
{
    if p.len() > s.len() - lo {
        return false;
    }
    let mut i: usize = 0;
    while i < p.len()
        invariant
            p.len() <= s.len() - lo,
            lo <= s.len(),
            i <= p.len(),
            forall|j: int| 0 <= j < i ==> s@[lo + j] == p@[j],
        decreases p.len() - i,
    {
        if s[lo + i] != p[i] {
            assert(s@.skip(lo as int).take(p.len() as int)[i as int] != p@[i as int]);
            return false;
        }
        i = i + 1;
    }
    assert(s@.skip(lo as int).take(p.len() as int) =~= p@);
    true
}

/// Whether `s[lo..]` starts with the chars of `p`.
pub fn starts_with_str_at(s: &Vec<char>, lo: usize, p: &str) -> (r: bool)
    requires
        lo <= s.len(),
    ensures
        r == has_prefix(s@.skip(lo as int), p@),
{
    let pv = chars_of(p);
    starts_with_at(s, lo, &pv)
}

// ---------------------------------------------------------------- ordering

/// Lexicographic order by code point; it agrees with the byte order of the UTF-8 encoding
/// that `Ord` for `String` uses.
pub open spec fn lex_lt(a: Seq<char>, b: Seq<char>) -> bool
    decreases a.len(),
{
    if a.len() == 0 {
        b.len() > 0
    } else if b.len() == 0 {
        false
    } else if a[0] < b[0] {
        true
    } else if a[0] == b[0] {
        lex_lt(a.drop_first(), b.drop_first())
    } else {
        false
    }
}

pub proof fn lemma_lex_irreflexive(a: Seq<char>)
    ensures
        !lex_lt(a, a),
    decreases a.len(),
{
    if a.len() > 0 {
        lemma_lex_irreflexive(a.drop_first());
    }
}

pub proof fn lemma_lex_asymmetric(a: Seq<char>, b: Seq<char>)
    ensures
        !(lex_lt(a, b) && lex_lt(b, a)),
    decreases a.len(),
{
    if a.len() > 0 && b.len() > 0 && a[0] == b[0] {
        lemma_lex_asymmetric(a.drop_first(), b.drop_first());
    }
}

pub proof fn lemma_lex_transitive(a: Seq<char>, b: Seq<char>, c: Seq<char>)
    requires
        lex_lt(a, b),
        lex_lt(b, c),
    ensures
        lex_lt(a, c),
    decreases a.len(),
{
    if a.len() > 0 && b.len() > 0 && c.len() > 0 && a[0] == b[0] && b[0] == c[0] {
        lemma_lex_transitive(a.drop_first(), b.drop_first(), c.drop_first());
    }
}

pub proof fn lemma_lex_total(a: Seq<char>, b: Seq<char>)
    requires
        a != b,
    ensures
        lex_lt(a, b) || lex_lt(b, a),
    decreases a.len(),
{
    if a.len() > 0 && b.len() > 0 && a[0] == b[0] {
        if a.drop_first() == b.drop_first() {
            assert(a =~= seq![a[0]] + a.drop_first());
            assert(b =~= seq![b[0]] + b.drop_first());
        }
        lemma_lex_total(a.drop_first(), b.drop_first());
    } else if a.len() == 0 && b.len() == 0 {
        assert(a =~= b);
    }
}

/// Whether `a` orders strictly before `b`.
pub fn lex_less(a: &Vec<char>, b: &Vec<char>) -> (r: bool)
    ensures
        r == lex_lt(a@, b@),
{
    let mut i: usize = 0;
    assert(a@.skip(0) =~= a@);
    assert(b@.skip(0) =~= b@);
    while i < a.len() && i < b.len() && a[i] == b[i]
        invariant
            i <= a.len(),
            i <= b.len(),
            forall|j: int| 0 <= j < i ==> a@[j] == b@[j],
            lex_lt(a@, b@) == lex_lt(a@.skip(i as int), b@.skip(i as int)),
        decreases a.len() - i,
    {
        assert(a@.skip(i as int).drop_first() =~= a@.skip(i + 1));
        assert(b@.skip(i as int).drop_first() =~= b@.skip(i + 1));
        i = i + 1;
    }
    if i == a.len() {
        i < b.len()
    } else if i == b.len() {
        false
    } else {
        assert(a@.skip(i as int)[0] == a@[i as int]);
        assert(b@.skip(i as int)[0] == b@[i as int]);
        a[i] < b[i]
    }
}

// ---------------------------------------------------------------- numbers

pub open spec fn digit(d: nat) -> char {
    if d == 0 {
        '0'
    } else if d == 1 {
        '1'
    } else if d == 2 {
        '2'
    } else if d == 3 {
        '3'
    } else if d == 4 {
        '4'
    } else if d == 5 {
        '5'
    } else if d == 6 {
        '6'
    } else if d == 7 {
        '7'
    } else if d == 8 {
        '8'
    } else {
        '9'
    }
}

/// Decimal digits of `n`, as `{}` formats an unsigned integer.
pub open spec fn dec(n: nat) -> Seq<char>
    decreases n,
{
    if n < 10 {
        seq![digit(n)]
    } else {
        dec(n / 10).push(digit(n % 10))
    }
}

/// `n` in decimal, zero-padded on the left to at least `width` digits (`{:0w}`).
pub open spec fn dec_pad(n: nat, width: nat) -> Seq<char> {
    let d = dec(n);
    if d.len() < width {
        Seq::new((width - d.len()) as nat, |i: int| '0') + d
    } else {
        d
    }
}

fn digit_char(d: u64) -> (c: char)
    requires
        d < 10,
    ensures
        c == digit(d as nat),
{
    if d == 0 {
        '0'
    } else if d == 1 {
        '1'
    } else if d == 2 {
        '2'
    } else if d == 3 {
        '3'
    } else if d == 4 {
        '4'
    } else if d == 5 {
        '5'
    } else if d == 6 {
        '6'
    } else if d == 7 {
        '7'
    } else if d == 8 {
        '8'
    } else {
        '9'
    }
}

/// Decimal digits of `n`.
pub fn dec_chars(n: u64) -> (v: Vec<char>)
    ensures
        v@ == dec(n as nat),
    decreases n,
{
    if n < 10 {
        let mut v = Vec::new();
        v.push(digit_char(n));
        assert(v@ =~= seq![digit(n as nat)]);
        v
    } else {
        let mut v = dec_chars(n / 10);
        v.push(digit_char(n % 10));
        v
    }
}

/// Decimal digits of `n`, zero-padded to `width`.
pub fn dec_pad_chars(n: u64, width: usize) -> (v: Vec<char>)
    ensures
        v@ == dec_pad(n as nat, width as nat),
{
    let d = dec_chars(n);
    if d.len() < width {
        let mut v: Vec<char> = Vec::new();
        let pad = width - d.len();
        while v.len() < pad
            invariant
                v.len() <= pad,
                forall|i: int| 0 <= i < v.len() ==> v@[i] == '0',
            decreases pad - v.len(),
        {
            v.push('0');
        }
        let mut i: usize = 0;
        while i < d.len()
            invariant
                i <= d.len(),
                v@ == Seq::new(pad as nat, |j: int| '0') + d@.take(i as int),
            decreases d.len() - i,
        {
            v.push(d[i]);
            assert(d@.take(i + 1) =~= d@.take(i as int).push(d@[i as int]));
            i = i + 1;
        }
        assert(d@.take(d.len() as int) =~= d@);
        v
    } else {
        d
    }
}

/// `n` in decimal as a string.
pub fn u64_string(n: u64) -> (s: String)
    ensures
        s@ == dec(n as nat),
{
    let v = dec_chars(n);
    string_of(v.as_slice())
}

// ---------------------------------------------------------------- joining

/// The parts separated by `sep` (`[..].join(sep)`).
pub open spec fn join(parts: Seq<Seq<char>>, sep: Seq<char>) -> Seq<char>
    decreases parts.len(),
{
    if parts.len() == 0 {
        seq![]
    } else if parts.len() == 1 {
        parts[0]
    } else {
        join(parts.drop_last(), sep) + sep + parts.last()
    }
}

/// Joins char vectors with a separator.
pub fn join_chars(parts: &Vec<Vec<char>>, sep: &str) -> (v: Vec<char>)
    ensures
        v@ == join(views(parts@), sep@),
{
    let sepv = chars_of(sep);
    let mut v: Vec<char> = Vec::new();
    let mut i: usize = 0;
    while i < parts.len()
        invariant
            i <= parts.len(),
            sepv@ == sep@,
            v@ == join(views(parts@).take(i as int), sep@),
        decreases parts.len() - i,
    {
        let ghost before = v@;
        if i > 0 {
            extend_chars(&mut v, &sepv);
        }
        extend_chars(&mut v, &parts[i]);
        proof {
            let p = views(parts@).take(i + 1);
            assert(p.drop_last() =~= views(parts@).take(i as int));
            assert(p.last() == parts@[i as int]@);
            if i == 0 {
                assert(v@ =~= parts@[0]@);
            }
        }
        i = i + 1;
    }
    assert(views(parts@).take(parts.len() as int) =~= views(parts@));
    v
}

/// Appends all chars of `t` to `v`.
pub fn extend_chars(v: &mut Vec<char>, t: &Vec<char>)
    ensures
        final(v)@ == old(v)@ + t@,
{
    let mut i: usize = 0;
    while i < t.len()
        invariant
            i <= t.len(),
            v@ == old(v)@ + t@.take(i as int),
        decreases t.len() - i,
    {
        v.push(t[i]);
        assert(t@.take(i + 1) =~= t@.take(i as int).push(t@[i as int]));
        assert(old(v)@ + t@.take(i + 1) =~= (old(v)@ + t@.take(i as int)).push(t@[i as int]));
        i = i + 1;
    }
    assert(t@.take(t.len() as int) =~= t@);
}

/// Appends all chars of a string slice to `v`.
pub fn extend_str(v: &mut Vec<char>, t: &str)
    ensures
        final(v)@ == old(v)@ + t@,
{
    let tv = chars_of(t);
    extend_chars(v, &tv);
}

// ---------------------------------------------------------------- byte length

/// Bytes that UTF-8 takes for `c`.
pub open spec fn utf8_width(c: char) -> nat {
    if '\u{80}' > c {
        1
    } else if '\u{800}' > c {
        2
    } else if '\u{10000}' > c {
        3
    } else {
        4
    }
}

/// Length in bytes of the UTF-8 encoding (what `str::len` returns).
pub open spec fn byte_len(s: Seq<char>) -> nat
    decreases s.len(),
{
    if s.len() == 0 {
        0
    } else {
        byte_len(s.drop_last()) + utf8_width(s.last())
    }
}

pub fn utf8_width_exec(c: char) -> (w: usize)
    ensures
        w == utf8_width(c),
{
    if '\u{80}' > c {
        1
    } else if '\u{800}' > c {
        2
    } else if '\u{10000}' > c {
        3
    } else {
        4
    }
}

/// Whether the chars `s[lo..hi]` take more than `n` bytes in UTF-8.
pub fn bytes_exceed(s: &Vec<char>, lo: usize, hi: usize, n: usize) -> (r: bool)
    requires
        lo <= hi <= s.len(),
    ensures
        r == (byte_len(s@.subrange(lo as int, hi as int)) > n),
{
    let mut acc: usize = 0;
    let mut i = lo;
    while i < hi
        invariant
            lo <= i <= hi <= s.len(),
            acc == byte_len(s@.subrange(lo as int, i as int)),
            acc <= n,
        decreases hi - i,
    {
        let w = utf8_width_exec(s[i]);
        assert(s@.subrange(lo as int, i + 1).drop_last() =~= s@.subrange(lo as int, i as int));
        if w > n - acc {
            proof {
                lemma_byte_len_mono(s@.subrange(lo as int, hi as int), i + 1 - lo);
                assert(s@.subrange(lo as int, hi as int).take(i + 1 - lo) =~= s@.subrange(
                    lo as int,
                    i + 1,
                ));
            }
            return true;
        }
        acc = acc + w;
        i = i + 1;
    }
    false
}

pub proof fn lemma_byte_len_mono(s: Seq<char>, k: int)
    requires
        0 <= k <= s.len(),
    ensures
        byte_len(s.take(k)) <= byte_len(s),
    decreases s.len(),
{
    if k < s.len() {
        assert(s.drop_last().take(k) =~= s.take(k));
        lemma_byte_len_mono(s.drop_last(), k);
    } else {
        assert(s.take(k) =~= s);
    }
}

} // verus!

verus! {

// ---------------------------------------------------------------- stripping one char

/// Number of leading copies of `c`.
pub open spec fn lead_char(s: Seq<char>, c: char) -> nat
    decreases s.len(),
{
    if s.len() > 0 && s[0] == c {
        1 + lead_char(s.drop_first(), c)
    } else {
        0
    }
}

/// Number of trailing copies of `c`.
pub open spec fn trail_char(s: Seq<char>, c: char) -> nat
    decreases s.len(),
{
    if s.len() > 0 && s.last() == c {
        1 + trail_char(s.drop_last(), c)
    } else {
        0
    }
}

/// `str::trim_matches(c)`: `s` without the copies of `c` at either end.
pub open spec fn strip_char(s: Seq<char>, c: char) -> Seq<char> {
    let t = s.skip(lead_char(s, c) as int);
    t.take(t.len() - trail_char(t, c))
}

pub proof fn lemma_lead_char(s: Seq<char>, c: char, n: int)
    requires
        0 <= n <= s.len(),
        forall|i: int| 0 <= i < n ==> #[trigger] s[i] == c,
        n == s.len() || s[n] != c,
    ensures
        lead_char(s, c) == n,
    decreases n,
{
    if n > 0 {
        let t = s.drop_first();
        assert forall|i: int| 0 <= i < n - 1 implies #[trigger] t[i] == c by {
            assert(t[i] == s[i + 1]);
        }
        lemma_lead_char(t, c, n - 1);
    }
}

pub proof fn lemma_trail_char(s: Seq<char>, c: char, n: int)
    requires
        0 <= n <= s.len(),
        forall|i: int| s.len() - n <= i < s.len() ==> #[trigger] s[i] == c,
        n == s.len() || s[s.len() - n - 1] != c,
    ensures
        trail_char(s, c) == n,
    decreases n,
{
    if n > 0 {
        let t = s.drop_last();
        assert forall|i: int| t.len() - (n - 1) <= i < t.len() implies #[trigger] t[i] == c by {
            assert(t[i] == s[i]);
        }
        lemma_trail_char(t, c, n - 1);
    }
}

/// Bounds of `strip_char(s[lo..hi], c)` inside `s`.
pub fn strip_char_range(s: &Vec<char>, lo: usize, hi: usize, c: char) -> (r: (usize, usize))
    requires
        lo <= hi <= s.len(),
    ensures
        lo <= r.0 <= r.1 <= hi,
        s@.subrange(r.0 as int, r.1 as int) == strip_char(s@.subrange(lo as int, hi as int), c),
{
    let ghost t = s@.subrange(lo as int, hi as int);
    let mut a = lo;
    while a < hi && s[a] == c
        invariant
            lo <= a <= hi <= s.len(),
            t == s@.subrange(lo as int, hi as int),
            forall|i: int| 0 <= i < a - lo ==> #[trigger] t[i] == c,
        decreases hi - a,
    {
        a = a + 1;
    }
    proof {
        lemma_lead_char(t, c, a - lo);
        assert(t.skip(a - lo) =~= s@.subrange(a as int, hi as int));
    }
    let ghost u = s@.subrange(a as int, hi as int);
    let mut b = hi;
    while b > a && s[b - 1] == c
        invariant
            lo <= a <= b <= hi <= s.len(),
            u == s@.subrange(a as int, hi as int),
            forall|i: int| u.len() - (hi - b) <= i < u.len() ==> #[trigger] u[i] == c,
        decreases b,
    {
        b = b - 1;
    }
    proof {
        lemma_trail_char(u, c, hi - b);
        assert(u.take(u.len() - (hi - b)) =~= s@.subrange(a as int, b as int));
    }
    (a, b)
}

/// `s` with the prefix `p` removed as often as it occurs (`str::trim_start_matches`).
pub open spec fn strip_repeated(s: Seq<char>, p: Seq<char>) -> Seq<char>
    decreases s.len(),
{
    if p.len() > 0 && has_prefix(s, p) {
        strip_repeated(s.skip(p.len() as int), p)
    } else {
        s
    }
}

/// `strip_repeated` on `s[lo..]`, as the index where the rest starts.
pub fn strip_repeated_from(s: &Vec<char>, lo: usize, p: &str) -> (k: usize)
    requires
        lo <= s.len(),
    ensures
        lo <= k <= s.len(),
        s@.skip(k as int) == strip_repeated(s@.skip(lo as int), p@),
{
    let pv = chars_of(p);
    let mut k = lo;
    if pv.len() == 0 {
        return k;
    }
    while starts_with_at(s, k, &pv)
        invariant
            lo <= k <= s.len(),
            pv@ == p@,
            pv.len() > 0,
            strip_repeated(s@.skip(lo as int), p@) == strip_repeated(s@.skip(k as int), p@),
        decreases s.len() - k,
    {
        assert(s@.skip(k as int).skip(pv.len() as int) =~= s@.skip(k + pv.len()));
        k = k + pv.len();
    }
    k
}

} // verus!

verus! {

/// `byte_len` counted from the front.
pub proof fn lemma_byte_len_front(s: Seq<char>)
    requires
        s.len() > 0,
    ensures
        byte_len(s) == utf8_width(s[0]) + byte_len(s.drop_first()),
    decreases s.len(),
{
    let t = s.drop_first();
    if s.len() > 1 {
        lemma_byte_len_front(s.drop_last());
        assert(s.drop_last().drop_first() =~= t.drop_last());
        assert(s.drop_last()[0] == s[0]);
        assert(t.last() == s.last());
        assert(byte_len(t) == byte_len(t.drop_last()) + utf8_width(t.last()));
    } else {
        assert(t.len() == 0);
        assert(s.drop_last().len() == 0);
        assert(byte_len(s.drop_last()) == 0);
        assert(s.last() == s[0]);
    }
}

/// The UTF-8 encoding of `c` takes `utf8_width(c)` bytes.
pub proof fn lemma_scalar_width(c: char)
    ensures
        vstd::utf8::encode_scalar(c as u32).len() == utf8_width(c),
{
    vstd::utf8::char_is_scalar(c);
    let u = c as u32;
    if '\u{80}' > c {
        assert(u < 0x80);
    } else if '\u{800}' > c {
        assert(0x80 <= u < 0x800);
    } else if '\u{10000}' > c {
        assert(0x800 <= u < 0x10000);
    } else {
        assert(0x10000 <= u);
    }
}

/// `byte_len` is the length of the UTF-8 encoding.
pub proof fn lemma_encode_len(s: Seq<char>)
    ensures
        vstd::utf8::encode_utf8(s).len() == byte_len(s),
    decreases s.len(),
{
    if s.len() > 0 {
        lemma_byte_len_front(s);
        lemma_encode_len(s.drop_first());
        lemma_scalar_width(s[0]);
    }
}

/// Byte length of a string (`str::len`).
pub fn byte_len_of(s: &str) -> (n: usize)
    ensures
        n == byte_len(s@),
{
    proof {
        lemma_encode_len(s@);
    }
    s.as_bytes().len()
}

/// `p` occurs somewhere in `s`.
pub open spec fn occurs(s: Seq<char>, p: Seq<char>) -> bool {
    exists|i: int| 0 <= i <= s.len() && #[trigger] has_prefix(s.skip(i), p)
}

/// Whether `p` occurs in `s` (`str::contains` with a string pattern).
pub fn contains_str(s: &Vec<char>, p: &str) -> (r: bool)
    ensures
        r == occurs(s@, p@),
{
    let mut i: usize = 0;
    while i < s.len()
        invariant
            i <= s.len(),
            forall|j: int| 0 <= j < i ==> !#[trigger] has_prefix(s@.skip(j), p@),
        decreases s.len() - i,
    {
        if starts_with_str_at(s, i, p) {
            return true;
        }
        i = i + 1;
    }
    starts_with_str_at(s, i, p)
}

/// Number of trailing copies of `c` in `s`.
pub fn trailing_count(s: &Vec<char>, c: char) -> (k: usize)
    ensures
        k == trail_char(s@, c),
        k <= s.len(),
{
    let mut b = s.len();
    while b > 0 && s[b - 1] == c
        invariant
            b <= s.len(),
            forall|i: int| b <= i < s.len() ==> #[trigger] s@[i] == c,
        decreases b,
    {
        b = b - 1;
    }
    proof {
        lemma_trail_char(s@, c, (s.len() - b) as int);
    }
    s.len() - b
}

} // verus!
