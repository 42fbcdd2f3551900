//! Zero-token extractive summaries of text, code and unified diffs.
use vstd::prelude::*;
use vstd::string::StrSliceExecFns;
use crate::text::{chars_of, chars_eq, chars_eq_str, push_str, views, lemma_views_push, runs,
    runs_of, RunKind, ascii_lower, ascii_lower_seq, ascii_lower_char, slice_chars, string_of,
    byte_len, bytes_exceed, trim, trim_range, trim_chars, trim_start, has_prefix, lines, lines_of,
    starts_with_str_at, strip_char, strip_char_range, is_ws, is_whitespace, strip_repeated,
    strip_repeated_from, extend_str, extend_chars, join, join_chars, dec, dec_chars, digit,
    lemma_trim_idempotent};
use crate::rank::{rank_select, ranked_indices, distinct, nats, min_nat, ranks_before,
    lemma_ranked_indices};

verus! {

broadcast use lemma_views_push;

/// The views of a sequence of strings.
pub open spec fn strs(v: Seq<String>) -> Seq<Seq<char>> {
    v.map_values(|x: String| x@)
}

pub broadcast proof fn lemma_strs_push(v: Seq<String>, x: String)
    ensures
        #[trigger] strs(v.push(x)) == strs(v).push(x@),
{
    assert(strs(v.push(x)) =~= strs(v).push(x@));
}

/// What kind of input a summary reads.
#[derive(Debug, Clone, Copy, PartialEq, Eq, Structural)]
pub enum SummaryMode {
    Text,
    Code,
    Diff,
}

/// The name of a mode on the command line and in JSON.
pub open spec fn mode_name(m: SummaryMode) -> Seq<char> {
    match m {
        SummaryMode::Text => "text"@,
        SummaryMode::Code => "code"@,
        SummaryMode::Diff => "diff"@,
    }
}

/// The mode a name stands for, if any.
pub open spec fn mode_named(s: Seq<char>) -> Option<SummaryMode> {
    if s == "text"@ {
        Some(SummaryMode::Text)
    } else if s == "code"@ {
        Some(SummaryMode::Code)
    } else if s == "diff"@ {
        Some(SummaryMode::Diff)
    } else {
        None
    }
}

impl SummaryMode {
    /// Reads a mode name; any other name is refused with a message that quotes it.
    pub fn parse(value: &str) -> (r: Result<Self, String>)
        ensures
            match r {
                Ok(m) => mode_named(value@) == Some(m),
                Err(e) => mode_named(value@) is None && e@ == "unsupported summary mode '"@
                    + value@ + "'"@,
            },
    {
        let v = chars_of(value);
        if chars_eq_str(&v, "text") {
            Ok(SummaryMode::Text)
        } else if chars_eq_str(&v, "code") {
            Ok(SummaryMode::Code)
        } else if chars_eq_str(&v, "diff") {
            Ok(SummaryMode::Diff)
        } else {
            let mut e = String::new();
            push_str(&mut e, "unsupported summary mode '");
            push_str(&mut e, value);
            push_str(&mut e, "'");
            Err(e)
        }
    }

    /// The name of the mode.
    pub fn as_str(self) -> (s: &'static str)
        ensures
            s@ == mode_name(self),
    {
        match self {
            SummaryMode::Text => "text",
            SummaryMode::Code => "code",
            SummaryMode::Diff => "diff",
        }
    }
}

/// Reading back the name of a mode gives the mode.
pub proof fn lemma_mode_name_roundtrip(m: SummaryMode)
    ensures
        mode_named(mode_name(m)) == Some(m),
{
    reveal_strlit("text");
    reveal_strlit("code");
    reveal_strlit("diff");
    assert("code"@ != "text"@) by {
        assert("code"@[0] != "text"@[0]);
    }
    assert("diff"@ != "text"@) by {
        assert("diff"@[0] != "text"@[0]);
    }
    assert("diff"@ != "code"@) by {
        assert("diff"@[0] != "code"@[0]);
    }
}

// ---------------------------------------------------------------- tokens and keywords

/// The lowercase ASCII tokens of `s`: maximal runs of ASCII letters, digits and `'_'`.
pub open spec fn tokens(s: Seq<char>) -> Seq<Seq<char>> {
    runs(s, RunKind::Token).map_values(|t: Seq<char>| ascii_lower_seq(t))
}

fn lower_in_place(t: &mut Vec<char>)
    ensures
        final(t)@ == ascii_lower_seq(old(t)@),
{
    let mut i: usize = 0;
    while i < t.len()
        invariant
            i <= t.len(),
            t.len() == old(t).len(),
            forall|j: int| 0 <= j < i ==> t@[j] == ascii_lower(old(t)@[j]),
            forall|j: int| i <= j < t.len() ==> t@[j] == old(t)@[j],
        decreases t.len() - i,
    {
        let c = ascii_lower_char(t[i]);
        t.set(i, c);
        i = i + 1;
    }
    assert(t@ =~= ascii_lower_seq(old(t)@));
}

/// The tokens of a char vector.
pub fn tokens_of(s: &Vec<char>) -> (out: Vec<Vec<char>>)
    ensures
        views(out@) == tokens(s@),
{
    let pieces = runs_of(s, RunKind::Token);
    let mut out: Vec<Vec<char>> = Vec::new();
    let mut i: usize = 0;
    while i < pieces.len()
        invariant
            i <= pieces.len(),
            views(out@) == tokens(s@).take(i as int),
            views(pieces@) == runs(s@, RunKind::Token),
        decreases pieces.len() - i,
    {
        let mut t = slice_chars(&pieces[i], 0, pieces[i].len());
        assert(pieces[i as int]@.subrange(0, pieces[i as int]@.len() as int) =~= pieces[i as int]@);
        lower_in_place(&mut t);
        out.push(t);
        assert(tokens(s@).take(i + 1) =~= tokens(s@).take(i as int).push(t@));
        i = i + 1;
    }
    assert(tokens(s@).take(pieces.len() as int) =~= tokens(s@));
    out
}

/// Splits text into lowercase ASCII word tokens.
pub fn tokenize(input: &str) -> (out: Vec<String>)
    ensures
        strs(out@) == tokens(input@),
{
    broadcast use lemma_strs_push;

    let s = chars_of(input);
    let toks = tokens_of(&s);
    let mut out: Vec<String> = Vec::new();
    let mut i: usize = 0;
    while i < toks.len()
        invariant
            i <= toks.len(),
            views(toks@) == tokens(input@),
            strs(out@) == tokens(input@).take(i as int),
        decreases toks.len() - i,
    {
        let t = string_of(toks[i].as_slice());
        out.push(t);
        assert(tokens(input@).take(i + 1) =~= tokens(input@).take(i as int).push(t@));
        i = i + 1;
    }
    assert(tokens(input@).take(toks.len() as int) =~= tokens(input@));
    out
}

/// Common English words that are never keywords.
pub open spec fn is_stopword(w: Seq<char>) -> bool {
    w == "about"@
        || w == "after"@
        || w == "again"@
        || w == "also"@
        || w == "and"@
        || w == "are"@
        || w == "because"@
        || w == "but"@
        || w == "can"@
        || w == "for"@
        || w == "from"@
        || w == "has"@
        || w == "have"@
        || w == "into"@
        || w == "not"@
        || w == "only"@
        || w == "our"@
        || w == "should"@
        || w == "that"@
        || w == "the"@
        || w == "this"@
        || w == "through"@
        || w == "use"@
        || w == "when"@
        || w == "where"@
        || w == "with"@
        || w == "without"@
        || w == "you"@
        || w == "will"@
        || w == "each"@
        || w == "they"@
        || w == "them"@
        || w == "their"@
        || w == "been"@
}

fn stopword(w: &Vec<char>) -> (b: bool)
    ensures
        b == is_stopword(w@),
{
    chars_eq_str(w, "about")
        || chars_eq_str(w, "after")
        || chars_eq_str(w, "again")
        || chars_eq_str(w, "also")
        || chars_eq_str(w, "and")
        || chars_eq_str(w, "are")
        || chars_eq_str(w, "because")
        || chars_eq_str(w, "but")
        || chars_eq_str(w, "can")
        || chars_eq_str(w, "for")
        || chars_eq_str(w, "from")
        || chars_eq_str(w, "has")
        || chars_eq_str(w, "have")
        || chars_eq_str(w, "into")
        || chars_eq_str(w, "not")
        || chars_eq_str(w, "only")
        || chars_eq_str(w, "our")
        || chars_eq_str(w, "should")
        || chars_eq_str(w, "that")
        || chars_eq_str(w, "the")
        || chars_eq_str(w, "this")
        || chars_eq_str(w, "through")
        || chars_eq_str(w, "use")
        || chars_eq_str(w, "when")
        || chars_eq_str(w, "where")
        || chars_eq_str(w, "with")
        || chars_eq_str(w, "without")
        || chars_eq_str(w, "you")
        || chars_eq_str(w, "will")
        || chars_eq_str(w, "each")
        || chars_eq_str(w, "they")
        || chars_eq_str(w, "them")
        || chars_eq_str(w, "their")
        || chars_eq_str(w, "been")
}

/// A token that can be a keyword: at least three bytes long and no stopword.
pub open spec fn eligible(t: Seq<char>) -> bool {
    byte_len(t) >= 3 && !is_stopword(t)
}

/// The distinct keyword candidates of `toks`, in order of first occurrence.
pub open spec fn candidates(toks: Seq<Seq<char>>) -> Seq<Seq<char>>
    decreases toks.len(),
{
    if toks.len() == 0 {
        seq![]
    } else {
        let c = candidates(toks.drop_last());
        let t = toks.last();
        if eligible(t) && !c.contains(t) {
            c.push(t)
        } else {
            c
        }
    }
}

/// How often `w` occurs in `toks`.
pub open spec fn occurrences(toks: Seq<Seq<char>>, w: Seq<char>) -> nat
    decreases toks.len(),
{
    if toks.len() == 0 {
        0
    } else {
        occurrences(toks.drop_last(), w) + if toks.last() == w {
            1nat
        } else {
            0nat
        }
    }
}

/// How often each candidate occurs.
pub open spec fn candidate_counts(toks: Seq<Seq<char>>) -> Seq<nat> {
    let c = candidates(toks);
    Seq::new(c.len(), |i: int| occurrences(toks, c[i]))
}

/// The `limit` most frequent keyword candidates of `s`, most frequent first and, among
/// equally frequent ones, in increasing order.
pub open spec fn keywords(s: Seq<char>, limit: nat) -> Seq<Seq<char>> {
    let toks = tokens(s);
    let ws = candidates(toks);
    ranked_indices(ws, candidate_counts(toks), limit).map_values(|i: int| ws[i])
}

proof fn lemma_candidates_grow(toks: Seq<Seq<char>>, w: Seq<char>)
    requires
        toks.len() > 0,
        candidates(toks.drop_last()).contains(w),
    ensures
        candidates(toks).contains(w),
{
    let c = candidates(toks.drop_last());
    let t = toks.last();
    if eligible(t) && !c.contains(t) {
        let i = choose|i: int| 0 <= i < c.len() && c[i] == w;
        assert(c.push(t)[i] == w);
    }
}

proof fn lemma_absent_never_occurs(toks: Seq<Seq<char>>, w: Seq<char>)
    requires
        eligible(w),
        !candidates(toks).contains(w),
    ensures
        occurrences(toks, w) == 0,
    decreases toks.len(),
{
    if toks.len() > 0 {
        let c = candidates(toks.drop_last());
        if c.contains(w) {
            lemma_candidates_grow(toks, w);
        }
        if toks.last() == w {
            assert(c.push(w).last() == w);
        }
        lemma_absent_never_occurs(toks.drop_last(), w);
    }
}

proof fn lemma_occurrences_bound(toks: Seq<Seq<char>>, w: Seq<char>)
    ensures
        occurrences(toks, w) <= toks.len(),
    decreases toks.len(),
{
    if toks.len() > 0 {
        lemma_occurrences_bound(toks.drop_last(), w);
    }
}

/// The candidates of `toks` with their counts.
fn keyword_table(toks: &Vec<Vec<char>>) -> (r: (Vec<Vec<char>>, Vec<usize>))
    ensures
        views(r.0@) == candidates(views(toks@)),
        nats(r.1@) == candidate_counts(views(toks@)),
        r.0.len() == r.1.len(),
        distinct(views(r.0@)),
{
    let ghost tv = views(toks@);
    let mut ws: Vec<Vec<char>> = Vec::new();
    let mut cs: Vec<usize> = Vec::new();
    let mut i: usize = 0;
    assert(tv.take(0) =~= Seq::<Seq<char>>::empty());
    while i < toks.len()
        invariant
            tv == views(toks@),
            i <= toks.len(),
            views(ws@) == candidates(tv.take(i as int)),
            cs.len() == ws.len(),
            forall|j: int| 0 <= j < ws.len() ==> #[trigger] cs@[j] == occurrences(tv.take(i as int), ws@[j]@),
            forall|j: int| 0 <= j < ws.len() ==> eligible(#[trigger] ws@[j]@),
            forall|j: int| 0 <= j < ws.len() ==> #[trigger] cs@[j] <= i,
            distinct(views(ws@)),
        decreases toks.len() - i,
    {
        let t = &toks[i];
        let ghost pre = tv.take(i as int);
        let ghost cur = tv.take(i + 1);
        assert(cur.drop_last() =~= pre);
        assert(cur.last() == t@);
        let is_kw = bytes_exceed(t, 0, t.len(), 2) && !stopword(t);
        assert(t@.subrange(0, t@.len() as int) =~= t@);
        if is_kw {
            let mut j: usize = 0;
            while j < ws.len() && !chars_eq(&ws[j], t)
                invariant
                    j <= ws.len(),
                    forall|k: int| 0 <= k < j ==> ws@[k]@ != t@,
                decreases ws.len() - j,
            {
                j = j + 1;
            }
            if j < ws.len() {
                assert(views(ws@)[j as int] == t@);
                assert(candidates(pre).contains(t@));
                let c = cs[j];
                proof {
                    lemma_occurrences_bound(pre, t@);
                }
                cs.set(j, c + 1);
                assert forall|k: int| 0 <= k < ws.len() implies #[trigger] cs@[k] == occurrences(cur, ws@[k]@) by {
                    if k != j {
                        assert(views(ws@)[k] != views(ws@)[j as int]);
                    }
                }
            } else {
                assert(!candidates(pre).contains(t@)) by {
                    if candidates(pre).contains(t@) {
                        let k = choose|k: int| 0 <= k < candidates(pre).len() && candidates(pre)[k] == t@;
                        assert(views(ws@)[k] == t@);
                    }
                }
                proof {
                    lemma_absent_never_occurs(pre, t@);
                }
                let tc = slice_chars(t, 0, t.len());
                ws.push(tc);
                cs.push(1);
                assert forall|k: int| 0 <= k < ws.len() implies #[trigger] cs@[k] == occurrences(cur, ws@[k]@) by {
                    if k < ws.len() - 1 {
                        assert(views(ws@)[k] == candidates(pre)[k]);
                    }
                }
                assert forall|a: int, b: int| 0 <= a < b < views(ws@).len() implies views(ws@)[a] != views(ws@)[b] by {
                    if b == ws.len() - 1 {
                        assert(views(ws@)[a] == candidates(pre)[a]);
                    }
                }
            }
        } else {
            assert forall|k: int| 0 <= k < ws.len() implies #[trigger] cs@[k] == occurrences(cur, ws@[k]@) by {
                assert(eligible(ws@[k]@));
            }
        }
        i = i + 1;
    }
    assert(tv.take(toks.len() as int) =~= tv);
    assert(nats(cs@) =~= candidate_counts(tv));
    (ws, cs)
}


/// The keywords of a char vector.
fn keywords_of(s: &Vec<char>, limit: usize) -> (out: Vec<Vec<char>>)
    ensures
        views(out@) == keywords(s@, limit as nat),
{
    let toks = tokens_of(s);
    let (ws, cs) = keyword_table(&toks);
    let idx = rank_select(&ws, &cs, limit);
    let ghost spec = keywords(s@, limit as nat);
    let mut out: Vec<Vec<char>> = Vec::new();
    let mut k: usize = 0;
    while k < idx.len()
        invariant
            k <= idx.len(),
            idx.len() == spec.len(),
            spec == ranked_indices(views(ws@), nats(cs@), limit as nat).map_values(
                |i: int| views(ws@)[i],
            ),
            forall|j: int| 0 <= j < idx.len() ==> #[trigger] idx@[j] < ws.len() && idx@[j] as int
                == ranked_indices(views(ws@), nats(cs@), limit as nat)[j],
            views(out@) == spec.take(k as int),
        decreases idx.len() - k,
    {
        let w = slice_chars(&ws[idx[k]], 0, ws[idx[k]].len());
        assert(ws@[idx@[k as int] as int]@.subrange(0, ws@[idx@[k as int] as int]@.len() as int)
            =~= ws@[idx@[k as int] as int]@);
        out.push(w);
        assert(spec.take(k + 1) =~= spec.take(k as int).push(w@));
        k = k + 1;
    }
    assert(spec.take(idx.len() as int) =~= spec);
    out
}

/// Strings made of char vectors.
fn strings_of(v: &Vec<Vec<char>>) -> (out: Vec<String>)
    ensures
        strs(out@) == views(v@),
{
    broadcast use lemma_strs_push;

    let mut out: Vec<String> = Vec::new();
    let mut i: usize = 0;
    while i < v.len()
        invariant
            i <= v.len(),
            strs(out@) == views(v@).take(i as int),
        decreases v.len() - i,
    {
        let t = string_of(v[i].as_slice());
        out.push(t);
        assert(views(v@).take(i + 1) =~= views(v@).take(i as int).push(t@));
        i = i + 1;
    }
    assert(views(v@).take(v.len() as int) =~= views(v@));
    out
}

/// The `limit` most frequent keywords of the input, most frequent first, ties broken by
/// the smaller word.
pub fn top_keywords(input: &str, limit: usize) -> (out: Vec<String>)
    ensures
        strs(out@) == keywords(input@, limit as nat),
{
    let s = chars_of(input);
    let k = keywords_of(&s, limit);
    strings_of(&k)
}

proof fn lemma_candidates(toks: Seq<Seq<char>>)
    ensures
        distinct(candidates(toks)),
        forall|w: Seq<char>| #[trigger] candidates(toks).contains(w) <==> (toks.contains(w) && eligible(w)),
    decreases toks.len(),
{
    if toks.len() > 0 {
        let pre = toks.drop_last();
        lemma_candidates(pre);
        let c = candidates(pre);
        let t = toks.last();
        assert forall|w: Seq<char>| #[trigger] candidates(toks).contains(w) <==> (toks.contains(w) && eligible(w)) by {
            if toks.contains(w) && eligible(w) {
                let i = choose|i: int| 0 <= i < toks.len() && toks[i] == w;
                if i < toks.len() - 1 {
                    assert(pre[i] == w);
                    assert(pre.contains(w));
                    lemma_candidates_grow(toks, w);
                } else if !c.contains(t) {
                    assert(c.push(t)[c.len() as int] == w);
                }
            }
            if candidates(toks).contains(w) {
                if c.contains(w) {
                    let i = choose|i: int| 0 <= i < pre.len() && pre[i] == w;
                    assert(toks[i] == w);
                } else {
                    let i = choose|i: int| 0 <= i < candidates(toks).len() && candidates(toks)[i] == w;
                    if eligible(t) && !c.contains(t) {
                        if i < c.len() {
                            assert(c.push(t)[i] == c[i]);
                        }
                    }
                    assert(toks[toks.len() - 1] == t);
                }
            }
        }
        if eligible(t) && !c.contains(t) {
            let d = c.push(t);
            assert forall|a: int, b: int| 0 <= a < b < d.len() implies d[a] != d[b] by {
                if b == c.len() {
                    assert(d[a] == c[a]);
                }
            }
        }
    }
}

/// Asking for more keywords keeps the ones already given, in their order: the keywords
/// for `limit` are the first ones of those for any larger limit.
pub proof fn lemma_keywords_prefix(s: Seq<char>, limit: nat, more: nat)
    requires
        limit <= more,
    ensures
        keywords(s, limit) == keywords(s, more).take(keywords(s, limit).len() as int),
{
    assert(keywords(s, limit) =~= keywords(s, more).take(keywords(s, limit).len() as int));
}

/// The keywords are distinct keyword candidates (tokens of three or more bytes that are no
/// stopword): `limit` of them, or all when fewer, each ranking before the next by count
/// and then by word, and every candidate left out ranks after all of them.
pub proof fn lemma_keywords_ranked(s: Seq<char>, limit: nat)
    ensures
        keywords(s, limit).len() == min_nat(limit, candidates(tokens(s)).len()),
        forall|k: int|
            0 <= k < keywords(s, limit).len() ==> tokens(s).contains(#[trigger] keywords(s, limit)[k])
                && eligible(keywords(s, limit)[k]),
        forall|a: int, b: int|
            0 <= a < b < keywords(s, limit).len() ==> #[trigger] keywords(s, limit)[a]
                != #[trigger] keywords(s, limit)[b] && ranks_before(
                keywords(s, limit)[a],
                occurrences(tokens(s), keywords(s, limit)[a]),
                keywords(s, limit)[b],
                occurrences(tokens(s), keywords(s, limit)[b]),
            ),
        forall|w: Seq<char>, k: int|
            #![trigger tokens(s).contains(w), keywords(s, limit)[k]]
            tokens(s).contains(w) && eligible(w) && !keywords(s, limit).contains(w) && 0 <= k
                < keywords(s, limit).len() ==> ranks_before(
                keywords(s, limit)[k],
                occurrences(tokens(s), keywords(s, limit)[k]),
                w,
                occurrences(tokens(s), w),
            ),
{
    let toks = tokens(s);
    let ws = candidates(toks);
    let cs = candidate_counts(toks);
    let idx = ranked_indices(ws, cs, limit);
    let r = keywords(s, limit);
    lemma_candidates(toks);
    lemma_ranked_indices(ws, cs, limit);
    assert forall|k: int| 0 <= k < r.len() implies toks.contains(#[trigger] r[k]) && eligible(r[k]) by {
        assert(r[k] == ws[idx[k]]);
        assert(ws.contains(ws[idx[k]]));
    }
    assert forall|a: int, b: int| 0 <= a < b < r.len() implies #[trigger] r[a] != #[trigger] r[b]
        && ranks_before(r[a], occurrences(toks, r[a]), r[b], occurrences(toks, r[b])) by {
        assert(r[a] == ws[idx[a]] && r[b] == ws[idx[b]]);
        assert(idx[a] != idx[b]);
        if idx[a] < idx[b] {
            assert(ws[idx[a]] != ws[idx[b]]);
        } else {
            assert(ws[idx[b]] != ws[idx[a]]);
        }
    }
    assert forall|w: Seq<char>, k: int|
        #![trigger toks.contains(w), r[k]]
        toks.contains(w) && eligible(w) && !r.contains(w) && 0 <= k < r.len() implies ranks_before(
        r[k],
        occurrences(toks, r[k]),
        w,
        occurrences(toks, w),
    ) by {
        assert(ws.contains(w));
        let j = choose|j: int| 0 <= j < ws.len() && ws[j] == w;
        if idx.contains(j) {
            let m = choose|m: int| 0 <= m < idx.len() && idx[m] == j;
            assert(r[m] == w);
        }
        assert(ws[j] == ws[j]);
        assert(idx[k] == idx[k]);
        assert(r[k] == ws[idx[k]]);
    }
}

// ---------------------------------------------------------------- sentences

/// Chars that end a sentence.
pub open spec fn is_terminator(c: char) -> bool {
    c == '.' || c == '!' || c == '?' || c == '\n'
}

/// Number of leading chars that end no sentence.
pub open spec fn count_until_term(s: Seq<char>) -> nat
    decreases s.len(),
{
    if s.len() > 0 && !is_terminator(s[0]) {
        1 + count_until_term(s.drop_first())
    } else {
        0
    }
}

proof fn lemma_count_until_term(s: Seq<char>, n: int)
    requires
        0 <= n <= s.len(),
        forall|i: int| 0 <= i < n ==> !is_terminator(#[trigger] s[i]),
        n == s.len() || is_terminator(s[n]),
    ensures
        count_until_term(s) == n,
    decreases n,
{
    if n > 0 {
        let t = s.drop_first();
        assert forall|i: int| 0 <= i < n - 1 implies !is_terminator(#[trigger] t[i]) by {
            assert(t[i] == s[i + 1]);
        }
        lemma_count_until_term(t, n - 1);
    }
}

/// A piece, trimmed, if it takes more than twenty bytes.
pub open spec fn keep_sentence(p: Seq<char>) -> Seq<Seq<char>> {
    if byte_len(trim(p)) > 20 {
        seq![trim(p)]
    } else {
        seq![]
    }
}

/// The sentences of `s`: the pieces that end with `.`, `!`, `?` or a newline (and the
/// rest after the last one), trimmed, that take more than twenty bytes.
pub open spec fn sentences(s: Seq<char>) -> Seq<Seq<char>>
    decreases s.len(),
{
    if s.len() == 0 {
        seq![]
    } else {
        let k = count_until_term(s);
        if k >= s.len() {
            keep_sentence(s)
        } else {
            keep_sentence(s.take(k + 1 as int)) + sentences(s.skip(k + 1 as int))
        }
    }
}

/// Splits text into its sentences.
pub fn split_sentences(s: &Vec<char>) -> (out: Vec<Vec<char>>)
    ensures
        views(out@) == sentences(s@),
{
    let mut out: Vec<Vec<char>> = Vec::new();
    let mut i: usize = 0;
    assert(s@.skip(0) =~= s@);
    assert(views(out@) =~= Seq::<Seq<char>>::empty());
    while i < s.len()
        invariant
            i <= s.len(),
            sentences(s@) == views(out@) + sentences(s@.skip(i as int)),
        decreases s.len() - i,
    {
        let ghost t = s@.skip(i as int);
        let mut k = i;
        while k < s.len() && !(s[k] == '.' || s[k] == '!' || s[k] == '?' || s[k] == '\n')
            invariant
                i <= k <= s.len(),
                t == s@.skip(i as int),
                forall|j: int| 0 <= j < k - i ==> !is_terminator(#[trigger] t[j]),
            decreases s.len() - k,
        {
            k = k + 1;
        }
        proof {
            lemma_count_until_term(t, k - i);
        }
        let end = if k < s.len() {
            k + 1
        } else {
            k
        };
        let (a, b) = trim_range(s, i, end);
        let ghost piece = s@.subrange(i as int, end as int);
        assert(piece =~= if k < s.len() {
            t.take(k - i + 1)
        } else {
            t
        });
        let ghost old_out = views(out@);
        if bytes_exceed(s, a, b, 20) {
            let p = slice_chars(s, a, b);
            out.push(p);
            assert(views(out@) == old_out + keep_sentence(piece));
        } else {
            assert(views(out@) =~= old_out + keep_sentence(piece));
        }
        if k < s.len() {
            assert(t.skip(k - i + 1) =~= s@.skip(k + 1));
        } else {
            assert(s@.skip(k as int) =~= Seq::<char>::empty());
        }
        assert(views(out@) + sentences(s@.skip(end as int)) =~= old_out + (keep_sentence(piece)
            + sentences(s@.skip(end as int))));
        i = end;
    }
    assert(s@.skip(i as int) =~= Seq::<char>::empty());
    assert(views(out@) + Seq::<Seq<char>>::empty() =~= views(out@));
    out
}


/// Whether `w` is one of `ws`.
fn contains_chars(ws: &Vec<Vec<char>>, w: &Vec<char>) -> (r: bool)
    ensures
        r == views(ws@).contains(w@),
{
    let mut j: usize = 0;
    while j < ws.len()
        invariant
            j <= ws.len(),
            forall|k: int| 0 <= k < j ==> ws@[k]@ != w@,
        decreases ws.len() - j,
    {
        if chars_eq(&ws[j], w) {
            assert(views(ws@)[j as int] == w@);
            return true;
        }
        j = j + 1;
    }
    assert(!views(ws@).contains(w@)) by {
        if views(ws@).contains(w@) {
            let k = choose|k: int| 0 <= k < views(ws@).len() && views(ws@)[k] == w@;
            assert(ws@[k]@ == w@);
        }
    }
    false
}

/// How many of `toks` are keywords.
pub open spec fn hits(toks: Seq<Seq<char>>, kws: Seq<Seq<char>>) -> nat
    decreases toks.len(),
{
    if toks.len() == 0 {
        0
    } else {
        hits(toks.drop_last(), kws) + if kws.contains(toks.last()) {
            1nat
        } else {
            0nat
        }
    }
}

/// The score of sentence `i`: three per keyword token, two for the first sentence, and one
/// per five tokens up to twenty.
pub open spec fn sentence_score(sents: Seq<Seq<char>>, kws: Seq<Seq<char>>, i: int) -> nat {
    let toks = tokens(sents[i]);
    hits(toks, kws) * 3 + (if i == 0 {
        2nat
    } else {
        0nat
    }) + (if toks.len() < 20 {
        toks.len()
    } else {
        20nat
    }) / 5
}

/// Sentence `j` has tokens and ranks before sentence `i`: a higher score, or the same
/// score and an earlier place.
pub open spec fn outranks(sents: Seq<Seq<char>>, kws: Seq<Seq<char>>, j: int, i: int) -> bool {
    tokens(sents[j]).len() > 0 && (sentence_score(sents, kws, j) > sentence_score(sents, kws, i)
        || (sentence_score(sents, kws, j) == sentence_score(sents, kws, i) && j < i))
}

/// How many of the first `n` sentences rank before sentence `i`.
pub open spec fn outranked_by(sents: Seq<Seq<char>>, kws: Seq<Seq<char>>, i: int, n: int) -> nat
    decreases n,
{
    if n <= 0 {
        0
    } else {
        outranked_by(sents, kws, i, n - 1) + if outranks(sents, kws, n - 1, i) {
            1nat
        } else {
            0nat
        }
    }
}

/// Sentence `i` has tokens and is among the `limit` best.
pub open spec fn chosen(sents: Seq<Seq<char>>, kws: Seq<Seq<char>>, limit: nat, i: int) -> bool {
    tokens(sents[i]).len() > 0 && outranked_by(sents, kws, i, sents.len() as int) < limit
}

/// The chosen among the first `n` sentences, in their order, trimmed.
pub open spec fn pick(sents: Seq<Seq<char>>, kws: Seq<Seq<char>>, limit: nat, n: int) -> Seq<
    Seq<char>,
>
    decreases n,
{
    if n <= 0 {
        seq![]
    } else {
        pick(sents, kws, limit, n - 1) + if chosen(sents, kws, limit, n - 1) {
            seq![trim(sents[n - 1])]
        } else {
            seq![]
        }
    }
}

/// The `limit` best sentences of `s` by score (ties to the earlier one), in text order.
pub open spec fn best_sentences(s: Seq<char>, kws: Seq<Seq<char>>, limit: nat) -> Seq<Seq<char>> {
    let ss = sentences(s);
    pick(ss, kws, limit, ss.len() as int)
}

/// `idx` picks entries of a sequence of length `n` in increasing order.
pub open spec fn increasing_into(idx: Seq<int>, n: int) -> bool {
    &&& forall|k: int| 0 <= k < idx.len() ==> 0 <= #[trigger] idx[k] < n
    &&& forall|a: int, b: int| 0 <= a < b < idx.len() ==> #[trigger] idx[a] < #[trigger] idx[b]
}

/// The indices of the chosen among the first `n` sentences, in order.
pub open spec fn chosen_indices(sents: Seq<Seq<char>>, kws: Seq<Seq<char>>, limit: nat, n: int) -> Seq<int>
    decreases n,
{
    if n <= 0 {
        seq![]
    } else {
        chosen_indices(sents, kws, limit, n - 1) + if chosen(sents, kws, limit, n - 1) {
            seq![n - 1]
        } else {
            seq![]
        }
    }
}

proof fn lemma_chosen_indices(sents: Seq<Seq<char>>, kws: Seq<Seq<char>>, limit: nat, n: int)
    requires
        0 <= n <= sents.len(),
    ensures
        chosen_indices(sents, kws, limit, n).len() == pick(sents, kws, limit, n).len(),
        increasing_into(chosen_indices(sents, kws, limit, n), n),
        forall|k: int|
            0 <= k < chosen_indices(sents, kws, limit, n).len() ==> {
                let i = #[trigger] chosen_indices(sents, kws, limit, n)[k];
                pick(sents, kws, limit, n)[k] == trim(sents[i]) && chosen(sents, kws, limit, i)
            },
    decreases n,
{
    if n > 0 {
        lemma_chosen_indices(sents, kws, limit, n - 1);
        let a = chosen_indices(sents, kws, limit, n - 1);
        let b = chosen_indices(sents, kws, limit, n);
        let pa = pick(sents, kws, limit, n - 1);
        let pb = pick(sents, kws, limit, n);
        assert forall|k: int| 0 <= k < b.len() implies {
            let i = #[trigger] b[k];
            pb[k] == trim(sents[i]) && chosen(sents, kws, limit, i)
        } by {
            if k < a.len() {
                assert(b[k] == a[k]);
                assert(pb[k] == pa[k]);
            }
        }
        assert forall|x: int, y: int| 0 <= x < y < b.len() implies #[trigger] b[x] < #[trigger] b[y] by {
            if y < a.len() {
                assert(b[x] == a[x] && b[y] == a[y]);
            } else {
                assert(b[x] == a[x]);
            }
        }
        assert forall|k: int| 0 <= k < b.len() implies 0 <= #[trigger] b[k] < n by {
            if k < a.len() {
                assert(b[k] == a[k]);
            }
        }
    }
}

proof fn lemma_outranks_transitive(sents: Seq<Seq<char>>, kws: Seq<Seq<char>>, a: int, b: int, c: int)
    requires
        outranks(sents, kws, a, b),
        outranks(sents, kws, b, c),
    ensures
        outranks(sents, kws, a, c),
{
}

proof fn lemma_outranked_monotone(sents: Seq<Seq<char>>, kws: Seq<Seq<char>>, a: int, b: int, n: int)
    requires
        outranks(sents, kws, a, b),
        0 <= a,
        0 <= n,
    ensures
        outranked_by(sents, kws, b, n) >= outranked_by(sents, kws, a, n) + if a < n {
            1int
        } else {
            0int
        },
    decreases n,
{
    if n > 0 {
        lemma_outranked_monotone(sents, kws, a, b, n - 1);
        let j = n - 1;
        let ob = outranked_by(sents, kws, b, n - 1);
        let oa = outranked_by(sents, kws, a, n - 1);
        let db: int = if outranks(sents, kws, j, b) { 1 } else { 0 };
        let da: int = if outranks(sents, kws, j, a) { 1 } else { 0 };
        assert(outranked_by(sents, kws, b, n) == ob + db);
        assert(outranked_by(sents, kws, a, n) == oa + da);
        if outranks(sents, kws, j, a) {
            lemma_outranks_transitive(sents, kws, j, a, b);
        }
        if j == a {
            assert(db == 1);
            assert(da == 0);
            assert(ob >= oa);
        } else if a < j {
            assert(da <= db);
            assert(ob >= oa + 1);
        } else {
            assert(da <= db);
            assert(ob >= oa);
        }
    }
}

/// At most `limit` sentences are chosen.
proof fn lemma_chosen_bound(sents: Seq<Seq<char>>, kws: Seq<Seq<char>>, limit: nat)
    ensures
        chosen_indices(sents, kws, limit, sents.len() as int).len() <= limit,
{
    let n = sents.len() as int;
    let idx = chosen_indices(sents, kws, limit, n);
    lemma_chosen_indices(sents, kws, limit, n);
    let m = idx.len() as int;
    let x = vstd::set_lib::set_int_range(0, m);
    let f = |k: int| outranked_by(sents, kws, idx[k], n) as int;
    vstd::set_lib::lemma_int_range(0, m);
    vstd::set_lib::lemma_int_range(0, limit as int);
    assert(vstd::relations::injective_on(f, x)) by {
        assert forall|a: int, b: int| x.contains(a) && x.contains(b) && #[trigger] f(a) == #[trigger] f(b)
            implies a == b by {
            if a != b {
                let i = idx[a];
                let j = idx[b];
                if a < b {
                    assert(i < j);
                } else {
                    assert(j < i);
                }
                assert(chosen(sents, kws, limit, i) && chosen(sents, kws, limit, j));
                if outranks(sents, kws, i, j) {
                    lemma_outranked_monotone(sents, kws, i, j, n);
                } else {
                    assert(outranks(sents, kws, j, i));
                    lemma_outranked_monotone(sents, kws, j, i, n);
                }
            }
        }
    }
    let y = x.map(f);
    vstd::set_lib::lemma_map_size(x, y, f);
    let r = vstd::set_lib::set_int_range(0, limit as int);
    assert(y.subset_of(r)) by {
        assert forall|v: int| y.contains(v) implies r.contains(v) by {
            let k = choose|k: int| x.contains(k) && f(k) == v;
            assert(chosen(sents, kws, limit, idx[k]));
        }
    }
    vstd::set_lib::lemma_len_subset(y, r);
}

proof fn lemma_sentences_trimmed(s: Seq<char>)
    ensures
        forall|i: int| 0 <= i < sentences(s).len() ==> trim(#[trigger] sentences(s)[i]) == sentences(s)[i],
    decreases s.len(),
{
    if s.len() > 0 {
        let k = count_until_term(s);
        if k >= s.len() {
            lemma_trim_idempotent(s);
        } else {
            let p = s.take(k + 1 as int);
            let rest = s.skip(k + 1 as int);
            lemma_sentences_trimmed(rest);
            lemma_trim_idempotent(p);
            let a = keep_sentence(p);
            assert forall|i: int| 0 <= i < sentences(s).len() implies trim(#[trigger] sentences(s)[i])
                == sentences(s)[i] by {
                if i < a.len() {
                    assert(sentences(s)[i] == a[i]);
                } else {
                    assert(sentences(s)[i] == sentences(rest)[i - a.len()]);
                }
            }
        }
    }
}

/// The best sentences are at most `limit` of the text's sentences, kept in their order.
pub proof fn lemma_best_sentences(s: Seq<char>, kws: Seq<Seq<char>>, limit: nat)
    ensures
        best_sentences(s, kws, limit).len() <= limit,
        exists|idx: Seq<int>|
            increasing_into(idx, sentences(s).len() as int) && idx.len() == best_sentences(
                s,
                kws,
                limit,
            ).len() && forall|k: int|
                0 <= k < idx.len() ==> #[trigger] best_sentences(s, kws, limit)[k]
                    == sentences(s)[idx[k]],
{
    let ss = sentences(s);
    let n = ss.len() as int;
    let idx = chosen_indices(ss, kws, limit, n);
    lemma_chosen_indices(ss, kws, limit, n);
    lemma_chosen_bound(ss, kws, limit);
    lemma_sentences_trimmed(s);
    assert forall|k: int| 0 <= k < idx.len() implies #[trigger] best_sentences(s, kws, limit)[k]
        == ss[idx[k]] by {
        assert(0 <= idx[k] < n);
    }
}

fn hits_of(toks: &Vec<Vec<char>>, kws: &Vec<Vec<char>>) -> (h: usize)
    ensures
        h == hits(views(toks@), views(kws@)),
        h <= toks.len(),
{
    let ghost tv = views(toks@);
    let mut h: usize = 0;
    let mut i: usize = 0;
    while i < toks.len()
        invariant
            tv == views(toks@),
            i <= toks.len(),
            h <= i,
            h == hits(tv.take(i as int), views(kws@)),
        decreases toks.len() - i,
    {
        assert(tv.take(i + 1).drop_last() =~= tv.take(i as int));
        if contains_chars(kws, &toks[i]) {
            h = h + 1;
        }
        i = i + 1;
    }
    assert(tv.take(toks.len() as int) =~= tv);
    h
}

fn best_sentences_of(s: &Vec<char>, kws: &Vec<Vec<char>>, limit: usize) -> (out: Vec<Vec<char>>)
    ensures
        views(out@) == best_sentences(s@, views(kws@), limit as nat),
{
    let sents = split_sentences(s);
    let ghost ss = views(sents@);
    let ghost kv = views(kws@);
    let n = sents.len();
    let mut scores: Vec<u128> = Vec::new();
    let mut has: Vec<bool> = Vec::new();
    let mut i: usize = 0;
    while i < n
        invariant
            n == sents.len(),
            ss == views(sents@),
            kv == views(kws@),
            i <= n,
            scores.len() == i,
            has.len() == i,
            forall|j: int| 0 <= j < i ==> #[trigger] scores@[j] == sentence_score(ss, kv, j),
            forall|j: int| 0 <= j < i ==> #[trigger] has@[j] == (tokens(ss[j]).len() > 0),
        decreases n - i,
    {
        let toks = tokens_of(&sents[i]);
        let h = hits_of(&toks, kws);
        let bonus: u128 = if i == 0 {
            2
        } else {
            0
        };
        let capped: usize = if toks.len() < 20 {
            toks.len()
        } else {
            20
        };
        let score: u128 = (h as u128) * 3 + bonus + (capped / 5) as u128;
        scores.push(score);
        has.push(toks.len() > 0);
        i = i + 1;
    }
    let mut out: Vec<Vec<char>> = Vec::new();
    let mut i: usize = 0;
    assert(views(out@) =~= pick(ss, kv, limit as nat, 0));
    while i < n
        invariant
            n == sents.len(),
            ss == views(sents@),
            kv == views(kws@),
            i <= n,
            scores.len() == n,
            has.len() == n,
            forall|j: int| 0 <= j < n ==> #[trigger] scores@[j] == sentence_score(ss, kv, j),
            forall|j: int| 0 <= j < n ==> #[trigger] has@[j] == (tokens(ss[j]).len() > 0),
            views(out@) == pick(ss, kv, limit as nat, i as int),
        decreases n - i,
    {
        if has[i] {
            let mut c: usize = 0;
            let mut j: usize = 0;
            while j < n
                invariant
                    n == sents.len(),
                    ss == views(sents@),
                    kv == views(kws@),
                    i < n,
                    j <= n,
                    c <= j,
                    scores.len() == n,
                    has.len() == n,
                    forall|j: int| 0 <= j < n ==> #[trigger] scores@[j] == sentence_score(ss, kv, j),
                    forall|j: int| 0 <= j < n ==> #[trigger] has@[j] == (tokens(ss[j]).len() > 0),
                    c == outranked_by(ss, kv, i as int, j as int),
                decreases n - j,
            {
                if has[j] && (scores[j] > scores[i] || (scores[j] == scores[i] && j < i)) {
                    c = c + 1;
                }
                j = j + 1;
            }
            if c < limit {
                let p = trim_chars(&sents[i]);
                let ghost before = views(out@);
                out.push(p);
                assert(views(out@) == before.push(p@));
                assert(views(out@) =~= pick(ss, kv, limit as nat, i + 1));
            } else {
                assert(views(out@) =~= pick(ss, kv, limit as nat, i + 1));
            }
        } else {
            assert(views(out@) =~= pick(ss, kv, limit as nat, i + 1));
        }
        i = i + 1;
    }
    out
}

/// The `limit` best-scored sentences of the input, in the order they come.
pub fn top_sentences(input: &str, keywords: &[String], limit: usize) -> (out: Vec<String>)
    ensures
        strs(out@) == best_sentences(input@, strs(keywords@), limit as nat),
{
    let s = chars_of(input);
    let mut kws: Vec<Vec<char>> = Vec::new();
    let mut i: usize = 0;
    while i < keywords.len()
        invariant
            i <= keywords.len(),
            views(kws@) == strs(keywords@).take(i as int),
        decreases keywords.len() - i,
    {
        let k = chars_of(keywords[i].as_str());
        kws.push(k);
        assert(strs(keywords@).take(i + 1) =~= strs(keywords@).take(i as int).push(k@));
        i = i + 1;
    }
    assert(strs(keywords@).take(keywords.len() as int) =~= strs(keywords@));
    let b = best_sentences_of(&s, &kws, limit);
    strings_of(&b)
}


// ---------------------------------------------------------------- code symbols

/// Chars that end a symbol name.
pub open spec fn is_symbol_end(c: char) -> bool {
    c == '(' || c == '<' || c == '{' || is_ws(c)
}

/// Number of leading chars that end no symbol name.
pub open spec fn symbol_len(s: Seq<char>) -> nat
    decreases s.len(),
{
    if s.len() > 0 && !is_symbol_end(s[0]) {
        1 + symbol_len(s.drop_first())
    } else {
        0
    }
}

proof fn lemma_symbol_len(s: Seq<char>, n: int)
    requires
        0 <= n <= s.len(),
        forall|i: int| 0 <= i < n ==> !is_symbol_end(#[trigger] s[i]),
        n == s.len() || is_symbol_end(s[n]),
    ensures
        symbol_len(s) == n,
    decreases n,
{
    if n > 0 {
        let t = s.drop_first();
        assert forall|i: int| 0 <= i < n - 1 implies !is_symbol_end(#[trigger] t[i]) by {
            assert(t[i] == s[i + 1]);
        }
        lemma_symbol_len(t, n - 1);
    }
}

/// The symbol that a line (already trimmed at the start) declares after the keyword `p`:
/// the name up to `(`, `<`, `{` or whitespace, without `:` at either end, if not empty.
#[verifier::opaque]
pub open spec fn symbol_after(t: Seq<char>, p: Seq<char>) -> Seq<Seq<char>> {
    if has_prefix(t, p) {
        let rest = t.skip(p.len() as int);
        let sym = strip_char(rest.take(symbol_len(rest) as int), ':');
        if sym.len() > 0 {
            seq![sym]
        } else {
            seq![]
        }
    } else {
        seq![]
    }
}

/// The symbols a line declares.
pub open spec fn line_symbols(line: Seq<char>) -> Seq<Seq<char>> {
    let t = trim_start(line);
    symbol_after(t, "fn "@)
        + symbol_after(t, "pub fn "@)
        + symbol_after(t, "struct "@)
        + symbol_after(t, "pub struct "@)
        + symbol_after(t, "enum "@)
        + symbol_after(t, "pub enum "@)
        + symbol_after(t, "trait "@)
        + symbol_after(t, "impl "@)
        + symbol_after(t, "mod "@)
        + symbol_after(t, "pub mod "@)
}

/// The symbols the lines declare, in order.
pub open spec fn all_symbols(ls: Seq<Seq<char>>) -> Seq<Seq<char>>
    decreases ls.len(),
{
    if ls.len() == 0 {
        seq![]
    } else {
        all_symbols(ls.drop_last()) + line_symbols(ls.last())
    }
}

/// `s` without repetitions, in order of first occurrence.
pub open spec fn dedup(s: Seq<Seq<char>>) -> Seq<Seq<char>>
    decreases s.len(),
{
    if s.len() == 0 {
        seq![]
    } else {
        let d = dedup(s.drop_last());
        if d.contains(s.last()) {
            d
        } else {
            d.push(s.last())
        }
    }
}

/// `n` zero counts.
pub open spec fn zeros(n: nat) -> Seq<nat> {
    Seq::new(n, |i: int| 0nat)
}

/// The distinct symbols that the code declares, in increasing order, at most ten.
pub open spec fn code_symbols(s: Seq<char>) -> Seq<Seq<char>> {
    let d = dedup(all_symbols(lines(s)));
    ranked_indices(d, zeros(d.len()), 10).map_values(|i: int| d[i])
}

fn push_symbol_after(line: &Vec<char>, a: usize, p: &str, out: &mut Vec<Vec<char>>)
    requires
        a <= line.len(),
    ensures
        views(final(out)@) == views(old(out)@) + symbol_after(line@.skip(a as int), p@),
{
    let ghost t = line@.skip(a as int);
    reveal(symbol_after);
    if starts_with_str_at(line, a, p) {
        let plen = chars_of(p).len();
        let start = a + plen;
        let ghost rest = t.skip(p@.len() as int);
        assert(rest =~= line@.skip(start as int));
        let mut k = start;
        while k < line.len() && !(line[k] == '(' || line[k] == '<' || line[k] == '{'
            || is_whitespace(line[k]))
            invariant
                start <= k <= line.len(),
                rest == line@.skip(start as int),
                forall|j: int| 0 <= j < k - start ==> !is_symbol_end(#[trigger] rest[j]),
            decreases line.len() - k,
        {
            k = k + 1;
        }
        proof {
            lemma_symbol_len(rest, k - start);
            assert(rest.take(k - start) =~= line@.subrange(start as int, k as int));
        }
        let (x, y) = strip_char_range(line, start, k, ':');
        if x < y {
            let sym = slice_chars(line, x, y);
            let ghost before = views(out@);
            out.push(sym);
            assert(views(out@) =~= before + seq![sym@]);
        } else {
            assert(views(out@) =~= views(old(out)@) + symbol_after(t, p@));
        }
    } else {
        assert(views(out@) =~= views(old(out)@) + symbol_after(t, p@));
    }
}

fn push_line_symbols(line: &Vec<char>, out: &mut Vec<Vec<char>>)
    ensures
        views(final(out)@) == views(old(out)@) + line_symbols(line@),
{
    let (a, _b) = trim_range(line, 0, line.len());
    assert(line@.subrange(0, line@.len() as int) =~= line@);
    assert(line@.subrange(a as int, line@.len() as int) =~= line@.skip(a as int));
    let ghost t = line@.skip(a as int);
    let ghost o = views(out@);
    push_symbol_after(line, a, "fn ", out);
    push_symbol_after(line, a, "pub fn ", out);
    push_symbol_after(line, a, "struct ", out);
    push_symbol_after(line, a, "pub struct ", out);
    push_symbol_after(line, a, "enum ", out);
    push_symbol_after(line, a, "pub enum ", out);
    push_symbol_after(line, a, "trait ", out);
    push_symbol_after(line, a, "impl ", out);
    push_symbol_after(line, a, "mod ", out);
    push_symbol_after(line, a, "pub mod ", out);
    assert(views(out@) =~= o + line_symbols(line@));
}

fn dedup_chars(s: &Vec<Vec<char>>) -> (out: Vec<Vec<char>>)
    ensures
        views(out@) == dedup(views(s@)),
        distinct(views(out@)),
{
    let ghost sv = views(s@);
    let mut out: Vec<Vec<char>> = Vec::new();
    let mut i: usize = 0;
    assert(sv.take(0) =~= Seq::<Seq<char>>::empty());
    while i < s.len()
        invariant
            sv == views(s@),
            i <= s.len(),
            views(out@) == dedup(sv.take(i as int)),
            distinct(views(out@)),
        decreases s.len() - i,
    {
        assert(sv.take(i + 1).drop_last() =~= sv.take(i as int));
        if !contains_chars(&out, &s[i]) {
            let w = slice_chars(&s[i], 0, s[i].len());
            assert(s@[i as int]@.subrange(0, s@[i as int]@.len() as int) =~= s@[i as int]@);
            let ghost before = views(out@);
            out.push(w);
            assert forall|a: int, b: int| 0 <= a < b < views(out@).len() implies views(out@)[a]
                != views(out@)[b] by {
                if b == views(out@).len() - 1 {
                    assert(views(out@)[a] == before[a]);
                    assert(before.contains(before[a]));
                }
            }
        }
        i = i + 1;
    }
    assert(sv.take(s.len() as int) =~= sv);
    out
}

/// The distinct symbols the code declares, in increasing order, at most ten.
fn extract_code_symbols(s: &Vec<char>) -> (out: Vec<Vec<char>>)
    ensures
        views(out@) == code_symbols(s@),
{
    let ls = lines_of(s);
    let mut all: Vec<Vec<char>> = Vec::new();
    let mut i: usize = 0;
    assert(views(ls@).take(0) =~= Seq::<Seq<char>>::empty());
    assert(views(all@) =~= Seq::<Seq<char>>::empty());
    while i < ls.len()
        invariant
            i <= ls.len(),
            views(ls@) == lines(s@),
            views(all@) == all_symbols(views(ls@).take(i as int)),
        decreases ls.len() - i,
    {
        assert(views(ls@).take(i + 1).drop_last() =~= views(ls@).take(i as int));
        push_line_symbols(&ls[i], &mut all);
        i = i + 1;
    }
    assert(views(ls@).take(ls.len() as int) =~= views(ls@));
    let d = dedup_chars(&all);
    let mut zs: Vec<usize> = Vec::new();
    while zs.len() < d.len()
        invariant
            zs.len() <= d.len(),
            forall|j: int| 0 <= j < zs.len() ==> zs@[j] == 0,
        decreases d.len() - zs.len(),
    {
        zs.push(0);
    }
    assert(nats(zs@) =~= zeros(d.len() as nat));
    let idx = rank_select(&d, &zs, 10);
    let ghost spec = code_symbols(s@);
    let mut out: Vec<Vec<char>> = Vec::new();
    let mut k: usize = 0;
    while k < idx.len()
        invariant
            k <= idx.len(),
            idx.len() == spec.len(),
            spec == ranked_indices(views(d@), nats(zs@), 10).map_values(|i: int| views(d@)[i]),
            forall|j: int| 0 <= j < idx.len() ==> #[trigger] idx@[j] < d.len() && idx@[j] as int
                == ranked_indices(views(d@), nats(zs@), 10)[j],
            views(out@) == spec.take(k as int),
        decreases idx.len() - k,
    {
        let w = slice_chars(&d[idx[k]], 0, d[idx[k]].len());
        assert(d@[idx@[k as int] as int]@.subrange(0, d@[idx@[k as int] as int]@.len() as int)
            =~= d@[idx@[k as int] as int]@);
        out.push(w);
        assert(spec.take(k + 1) =~= spec.take(k as int).push(w@));
        k = k + 1;
    }
    assert(spec.take(idx.len() as int) =~= spec);
    out
}


// ---------------------------------------------------------------- doc comments

/// The comment text of a line: after `///`, `//!`, `//` or a `#` that opens no attribute,
/// trimmed.
pub open spec fn doc_text(line: Seq<char>) -> Option<Seq<char>> {
    let t = trim(line);
    if has_prefix(t, "///"@) {
        Some(trim(t.skip("///"@.len() as int)))
    } else if has_prefix(t, "//!"@) {
        Some(trim(t.skip("//!"@.len() as int)))
    } else if has_prefix(t, "//"@) {
        Some(trim(t.skip("//"@.len() as int)))
    } else if has_prefix(t, "#["@) {
        None
    } else if has_prefix(t, "#"@) {
        Some(trim(t.skip("#"@.len() as int)))
    } else {
        None
    }
}

/// The comment text of a line if it takes more than ten bytes.
pub open spec fn doc_of(line: Seq<char>) -> Seq<Seq<char>> {
    match doc_text(line) {
        Some(c) => if byte_len(c) > 10 {
            seq![c]
        } else {
            seq![]
        },
        None => seq![],
    }
}

/// Comment texts of the lines added to `acc`, stopping after the line that brings the count
/// to `limit`.
pub open spec fn docs_from(ls: Seq<Seq<char>>, limit: nat, acc: Seq<Seq<char>>) -> Seq<Seq<char>>
    decreases ls.len(),
{
    if ls.len() == 0 {
        acc
    } else {
        let a = acc + doc_of(ls[0]);
        if a.len() >= limit {
            a
        } else {
            docs_from(ls.drop_first(), limit, a)
        }
    }
}

/// The first comment texts of the code, up to `limit`.
pub open spec fn doc_lines(s: Seq<char>, limit: nat) -> Seq<Seq<char>> {
    docs_from(lines(s), limit, seq![])
}

fn doc_of_line(line: &Vec<char>) -> (out: Vec<Vec<char>>)
    ensures
        views(out@) == doc_of(line@),
{
    let (a, b) = trim_range(line, 0, line.len());
    assert(line@.subrange(0, line@.len() as int) =~= line@);
    let ghost t = trim(line@);
    let t_v = slice_chars(line, a, b);
    let skip: usize = if starts_with_str_at(&t_v, 0, "///") {
        3
    } else if starts_with_str_at(&t_v, 0, "//!") {
        3
    } else if starts_with_str_at(&t_v, 0, "//") {
        2
    } else if starts_with_str_at(&t_v, 0, "#[") {
        0
    } else if starts_with_str_at(&t_v, 0, "#") {
        1
    } else {
        0
    };
    assert(t_v@.skip(0) =~= t_v@);
    proof {
        reveal_strlit("///");
        reveal_strlit("//!");
        reveal_strlit("//");
        reveal_strlit("#[");
        reveal_strlit("#");
    }
    let mut out: Vec<Vec<char>> = Vec::new();
    if skip == 0 {
        assert(doc_text(line@) is None);
        assert(views(out@) =~= doc_of(line@));
        return out;
    }
    let (x, y) = trim_range(&t_v, skip, t_v.len());
    assert(t_v@.subrange(skip as int, t_v@.len() as int) =~= t_v@.skip(skip as int));
    if bytes_exceed(&t_v, x, y, 10) {
        let c = slice_chars(&t_v, x, y);
        out.push(c);
        assert(views(out@) =~= doc_of(line@));
    } else {
        assert(views(out@) =~= doc_of(line@));
    }
    out
}

/// The first comment texts of the code, up to `limit`.
pub fn extract_doc_lines(input: &str, limit: usize) -> (out: Vec<String>)
    ensures
        strs(out@) == doc_lines(input@, limit as nat),
{
    let s = chars_of(input);
    let ls = lines_of(&s);
    let ghost lv = views(ls@);
    let mut docs: Vec<Vec<char>> = Vec::new();
    let mut i: usize = 0;
    assert(lv.skip(0) =~= lv);
    assert(views(docs@) =~= Seq::<Seq<char>>::empty());
    while i < ls.len()
        invariant
            lv == views(ls@),
            lv == lines(s@),
            s@ == input@,
            i <= ls.len(),
            doc_lines(input@, limit as nat) == docs_from(lv.skip(i as int), limit as nat, views(docs@)),
        decreases ls.len() - i,
    {
        let d = doc_of_line(&ls[i]);
        let ghost before = views(docs@);
        let mut j: usize = 0;
        while j < d.len()
            invariant
                j <= d.len(),
                views(docs@) == before + views(d@).take(j as int),
            decreases d.len() - j,
        {
            let c = slice_chars(&d[j], 0, d[j].len());
            assert(d@[j as int]@.subrange(0, d@[j as int]@.len() as int) =~= d@[j as int]@);
            docs.push(c);
            assert(views(d@).take(j + 1) =~= views(d@).take(j as int).push(c@));
            assert(views(docs@) =~= before + views(d@).take(j + 1));
            j = j + 1;
        }
        assert(views(d@).take(d.len() as int) =~= views(d@));
        assert(lv.skip(i as int)[0] == lv[i as int]);
        assert(lv.skip(i as int).drop_first() =~= lv.skip(i + 1));
        i = i + 1;
        if docs.len() >= limit {
            return strings_of(&docs);
        }
    }
    assert(lv.skip(i as int) =~= Seq::<Seq<char>>::empty());
    strings_of(&docs)
}


// ---------------------------------------------------------------- file highlights

/// A file that a summary names, with what kind of file or change it is and its highlights.
#[derive(Debug, Clone)]
pub struct FileHighlight {
    pub path: String,
    pub kind: String,
    pub highlights: Vec<String>,
}

/// What a `FileHighlight` holds, as text.
pub struct FileView {
    pub path: Seq<char>,
    pub kind: Seq<char>,
    pub highlights: Seq<Seq<char>>,
}

impl View for FileHighlight {
    type V = FileView;

    open spec fn view(&self) -> FileView {
        FileView { path: self.path@, kind: self.kind@, highlights: strs(self.highlights@) }
    }
}

/// The views of a sequence of file highlights.
pub open spec fn fviews(v: Seq<FileHighlight>) -> Seq<FileView> {
    v.map_values(|f: FileHighlight| f@)
}

/// A string with the chars of a string slice.
pub fn str_string(s: &str) -> (r: String)
    ensures
        r@ == s@,
{
    let mut r = String::new();
    push_str(&mut r, s);
    r
}

/// A copy of the first `max` strings (all of them if fewer).
fn copy_strings(v: &Vec<String>, max: usize) -> (out: Vec<String>)
    ensures
        strs(out@) == strs(v@).take(if max < v.len() {
            max as int
        } else {
            v.len() as int
        }),
{
    broadcast use lemma_strs_push;

    let n = if max < v.len() {
        max
    } else {
        v.len()
    };
    let mut out: Vec<String> = Vec::new();
    let mut i: usize = 0;
    while i < n
        invariant
            n <= v.len(),
            i <= n,
            strs(out@) == strs(v@).take(i as int),
        decreases n - i,
    {
        let c = v[i].clone();
        out.push(c);
        assert(strs(v@).take(i + 1) =~= strs(v@).take(i as int).push(c@));
        i = i + 1;
    }
    out
}

/// The kind of file a path names: its extension, or `text` without one.
pub open spec fn kind_from_extension(extension: Option<Seq<char>>) -> Seq<char> {
    match extension {
        Some(e) => e,
        None => "text"@,
    }
}

/// The chars after the last `/` of a path (all of it without one).
pub open spec fn tail_segment(p: Seq<char>) -> Seq<char>
    decreases p.len(),
{
    if p.len() == 0 || p.last() == '/' {
        seq![]
    } else {
        tail_segment(p.drop_last()).push(p.last())
    }
}

/// The last component of a path split at `/`, with empty and `.` components skipped; none
/// when no component is left.
pub open spec fn last_component(p: Seq<char>) -> Option<Seq<char>>
    decreases p.len(),
{
    if p.len() == 0 {
        None
    } else if p.last() == '/' || tail_segment(p) == "."@ {
        last_component(p.drop_last())
    } else {
        Some(tail_segment(p))
    }
}

/// The index of the last `c` in `s`, if any.
pub open spec fn last_index_of(s: Seq<char>, c: char) -> Option<int>
    decreases s.len(),
{
    if s.len() == 0 {
        None
    } else if s.last() == c {
        Some(s.len() - 1)
    } else {
        last_index_of(s.drop_last(), c)
    }
}

/// The extension of a path, as `std::path::Path::extension` finds it where paths are split
/// at `/`: the chars after the last `.` of the file name (the last component), none when
/// there is no file name, the name is `..`, it holds no `.`, or its only `.` comes first.
pub open spec fn path_extension(path: Seq<char>) -> Option<Seq<char>> {
    match last_component(path) {
        None => None,
        Some(name) => if name == ".."@ {
            None
        } else {
            match last_index_of(name, '.') {
                None => None,
                Some(k) => if k == 0 {
                    None
                } else {
                    Some(name.skip(k + 1))
                },
            }
        },
    }
}

/// Calls `std::path::Path::extension` (then `OsStr::to_str`, which cannot fail on text
/// taken from a `&str`). The contract states the Unix rules, where `/` alone separates
/// components; it does not cover Windows paths with `\\` or drive prefixes.
#[verifier::external_body]
fn extension_of(path: &str) -> (r: Option<String>)
    ensures
        match r {
            Some(e) => path_extension(path@) == Some(e@),
            None => path_extension(path@) is None,
        },
{
    std::path::Path::new(path).extension().and_then(|e| e.to_str()).map(|e| e.to_string())
}

/// The highlight for a named file whose extension has been looked up.
pub fn file_highlight_for(path: &str, extension: Option<String>) -> (f: FileHighlight)
    ensures
        f@.path == path@,
        f@.kind == kind_from_extension(
            match extension {
                Some(e) => Some(e@),
                None => None,
            },
        ),
        f@.highlights.len() == 0,
{
    let kind = match extension {
        Some(e) => e,
        None => str_string("text"),
    };
    FileHighlight { path: str_string(path), kind, highlights: Vec::new() }
}

/// The highlight for a file a text summary reads: its path and its extension as kind.
pub fn file_from_path(path: &str) -> (f: FileHighlight)
    ensures
        f@.path == path@,
        f@.kind == kind_from_extension(path_extension(path@)),
        f@.highlights.len() == 0,
{
    let e = extension_of(path);
    file_highlight_for(path, e)
}


// ---------------------------------------------------------------- unified diffs

/// The files read so far and the file whose lines follow.
pub struct DiffState {
    pub files: Seq<FileView>,
    pub current: Option<Seq<char>>,
}

/// Index of the first file with path `p`, or -1.
pub open spec fn find_file(files: Seq<FileView>, p: Seq<char>) -> int
    decreases files.len(),
{
    if files.len() == 0 {
        -1
    } else {
        let k = find_file(files.drop_last(), p);
        if k >= 0 {
            k
        } else if files.last().path == p {
            files.len() - 1
        } else {
            -1
        }
    }
}

proof fn lemma_find_file(files: Seq<FileView>, p: Seq<char>)
    ensures
        find_file(files, p) >= -1,
        find_file(files, p) >= 0 ==> find_file(files, p) < files.len() && files[find_file(
            files,
            p,
        )].path == p && forall|i: int| 0 <= i < find_file(files, p) ==> files[i].path != p,
        find_file(files, p) < 0 ==> forall|i: int| 0 <= i < files.len() ==> files[i].path != p,
    decreases files.len(),
{
    if files.len() > 0 {
        lemma_find_file(files.drop_last(), p);
        let d = files.drop_last();
        assert forall|i: int| 0 <= i < d.len() implies files[i] == d[i] by {}
    }
}

/// A newly named file: modified, no highlights yet.
pub open spec fn new_file(p: Seq<char>) -> FileView {
    FileView { path: p, kind: "modified"@, highlights: seq![] }
}

/// Makes `p` the current file, adding it if new.
pub open spec fn open_file(st: DiffState, p: Seq<char>) -> DiffState {
    DiffState {
        files: if find_file(st.files, p) >= 0 {
            st.files
        } else {
            st.files.push(new_file(p))
        },
        current: Some(p),
    }
}

/// The path of a `diff --git a/.. b/..` line: its second word (`unknown` without one),
/// without leading `b/`s.
pub open spec fn git_path(line: Seq<char>) -> Seq<char> {
    let ws = runs(line.skip("diff --git "@.len() as int), RunKind::Word);
    strip_repeated(
        if ws.len() > 1 {
            ws[1]
        } else {
            "unknown"@
        },
        "b/"@,
    )
}

pub open spec fn with_kind(f: FileView, k: Seq<char>) -> FileView {
    FileView { path: f.path, kind: k, highlights: f.highlights }
}

pub open spec fn with_highlight(f: FileView, h: Seq<char>) -> FileView {
    FileView { path: f.path, kind: f.kind, highlights: f.highlights.push(h) }
}

/// The state after one more line of the diff.
pub open spec fn diff_step(st: DiffState, line: Seq<char>) -> DiffState {
    if has_prefix(line, "diff --git "@) {
        open_file(st, git_path(line))
    } else if has_prefix(line, "+++ b/"@) {
        open_file(st, line.skip("+++ b/"@.len() as int))
    } else {
        match st.current {
            None => st,
            Some(p) => {
                let k = find_file(st.files, p);
                if k < 0 {
                    st
                } else if has_prefix(line, "new file mode"@) {
                    DiffState {
                        files: st.files.update(k, with_kind(st.files[k], "added"@)),
                        current: st.current,
                    }
                } else if has_prefix(line, "deleted file mode"@) {
                    DiffState {
                        files: st.files.update(k, with_kind(st.files[k], "deleted"@)),
                        current: st.current,
                    }
                } else if has_prefix(line, "@@"@) {
                    DiffState {
                        files: st.files.update(k, with_highlight(st.files[k], line)),
                        current: st.current,
                    }
                } else if has_prefix(line, "+"@) {
                    let added = line.skip("+"@.len() as int);
                    if !has_prefix(added, "+++"@) && byte_len(trim(added)) > 12 {
                        DiffState {
                            files: st.files.update(
                                k,
                                with_highlight(st.files[k], "added: "@ + trim(added)),
                            ),
                            current: st.current,
                        }
                    } else {
                        st
                    }
                } else {
                    st
                }
            },
        }
    }
}

/// The state after the lines.
pub open spec fn diff_fold(ls: Seq<Seq<char>>) -> DiffState
    decreases ls.len(),
{
    if ls.len() == 0 {
        DiffState { files: seq![], current: None }
    } else {
        diff_step(diff_fold(ls.drop_last()), ls.last())
    }
}

/// A file with at most its first five highlights.
pub open spec fn capped(f: FileView) -> FileView {
    FileView {
        path: f.path,
        kind: f.kind,
        highlights: f.highlights.take(
            if f.highlights.len() < 5 {
                f.highlights.len() as int
            } else {
                5
            },
        ),
    }
}

/// The files a unified diff changes, in increasing order of path, each with its kind
/// (`added`, `deleted` or `modified`) and its first five highlights (hunk headers and
/// added lines).
pub open spec fn diff_files(s: Seq<char>) -> Seq<FileView> {
    let fs = diff_fold(lines(s)).files;
    let paths = fs.map_values(|f: FileView| f.path);
    ranked_indices(paths, zeros(fs.len()), fs.len()).map_values(|i: int| capped(fs[i]))
}

/// Paths of the files are distinct.
pub open spec fn paths_distinct(fs: Seq<FileView>) -> bool {
    forall|a: int, b: int| 0 <= a < b < fs.len() ==> fs[a].path != fs[b].path
}

/// The current file is one of the files.
pub open spec fn current_known(st: DiffState) -> bool {
    match st.current {
        Some(p) => find_file(st.files, p) >= 0,
        None => true,
    }
}

fn find_exec(files: &Vec<FileHighlight>, p: &Vec<char>) -> (r: Option<usize>)
    ensures
        match r {
            Some(j) => j as int == find_file(fviews(files@), p@),
            None => find_file(fviews(files@), p@) < 0,
        },
{
    proof {
        lemma_find_file(fviews(files@), p@);
    }
    let mut j: usize = 0;
    while j < files.len()
        invariant
            j <= files.len(),
            forall|i: int| 0 <= i < j ==> files@[i].path@ != p@,
        decreases files.len() - j,
    {
        let pc = chars_of(files[j].path.as_str());
        if chars_eq(&pc, p) {
            proof {
                let fv = fviews(files@);
                lemma_find_file(fv, p@);
                assert(fv[j as int].path == p@);
                assert forall|i: int| 0 <= i < j implies fv[i].path != p@ by {
                    assert(fv[i].path == files@[i].path@);
                }
                let f = find_file(fv, p@);
                if f >= 0 && f < j {
                    assert(fv[f].path != p@);
                }
            }
            return Some(j);
        }
        j = j + 1;
    }
    proof {
        let fv = fviews(files@);
        lemma_find_file(fv, p@);
        let f = find_file(fv, p@);
        if f >= 0 {
            assert(fv[f].path == files@[f].path@);
        }
    }
    None
}

fn open_file_exec(files: &mut Vec<FileHighlight>, p: &Vec<char>)
    requires
        paths_distinct(fviews(old(files)@)),
    ensures
        fviews(final(files)@) == open_file(
            DiffState { files: fviews(old(files)@), current: None },
            p@,
        ).files,
        paths_distinct(fviews(final(files)@)),
        find_file(fviews(final(files)@), p@) >= 0,
{
    proof {
        lemma_find_file(fviews(files@), p@);
    }
    match find_exec(files, p) {
        Some(_) => {},
        None => {
            let f = FileHighlight {
                path: string_of(p.as_slice()),
                kind: str_string("modified"),
                highlights: Vec::new(),
            };
            let ghost before = fviews(files@);
            files.push(f);
            assert(strs(f.highlights@) =~= Seq::<Seq<char>>::empty());
            assert(fviews(files@) =~= before.push(new_file(p@)));
            proof {
                lemma_find_file(fviews(files@), p@);
                assert(fviews(files@)[before.len() as int].path == p@);
            }
        },
    }
}

/// Replaces the kind of file `j`.
fn set_kind(files: &mut Vec<FileHighlight>, j: usize, kind: &str)
    requires
        j < old(files).len(),
    ensures
        fviews(final(files)@) == fviews(old(files)@).update(
            j as int,
            with_kind(fviews(old(files)@)[j as int], kind@),
        ),
{
    let mut f = files.remove(j);
    f.kind = str_string(kind);
    files.insert(j, f);
    assert(fviews(files@) =~= fviews(old(files)@).update(
        j as int,
        with_kind(fviews(old(files)@)[j as int], kind@),
    ));
}

/// Adds a highlight to file `j`.
fn add_highlight(files: &mut Vec<FileHighlight>, j: usize, h: String)
    requires
        j < old(files).len(),
    ensures
        fviews(final(files)@) == fviews(old(files)@).update(
            j as int,
            with_highlight(fviews(old(files)@)[j as int], h@),
        ),
{
    broadcast use lemma_strs_push;

    let mut f = files.remove(j);
    f.highlights.push(h);
    files.insert(j, f);
    assert(fviews(files@) =~= fviews(old(files)@).update(
        j as int,
        with_highlight(fviews(old(files)@)[j as int], h@),
    ));
}

/// The files that a unified diff changes.
pub fn parse_diff_files(input: &str) -> (out: Vec<FileHighlight>)
    ensures
        fviews(out@) == diff_files(input@),
{
    let s = chars_of(input);
    let ls = lines_of(&s);
    let ghost lv = views(ls@);
    let mut files: Vec<FileHighlight> = Vec::new();
    let mut current: Option<Vec<char>> = None;
    let mut i: usize = 0;
    assert(lv.take(0) =~= Seq::<Seq<char>>::empty());
    assert(fviews(files@) =~= Seq::<FileView>::empty());
    while i < ls.len()
        invariant
            lv == views(ls@),
            lv == lines(input@),
            i <= ls.len(),
            fviews(files@) == diff_fold(lv.take(i as int)).files,
            diff_fold(lv.take(i as int)).current == match current {
                Some(p) => Some(p@),
                None => None::<Seq<char>>,
            },
            paths_distinct(fviews(files@)),
            current_known(diff_fold(lv.take(i as int))),
        decreases ls.len() - i,
    {
        let line = &ls[i];
        let ghost st = diff_fold(lv.take(i as int));
        assert(lv.take(i + 1).drop_last() =~= lv.take(i as int));
        assert(lv.take(i + 1).last() == line@);
        assert(line@.skip(0) =~= line@);
        if starts_with_str_at(line, 0, "diff --git ") {
            let start = chars_of("diff --git ").len();
            let rest = slice_chars(line, start, line.len());
            assert(rest@ =~= line@.skip("diff --git "@.len() as int));
            let words = runs_of(&rest, RunKind::Word);
            let word = if words.len() > 1 {
                slice_chars(&words[1], 0, words[1].len())
            } else {
                chars_of("unknown")
            };
            assert(words.len() > 1 ==> words@[1]@.subrange(0, words@[1]@.len() as int)
                =~= words@[1]@);
            let k = strip_repeated_from(&word, 0, "b/");
            assert(word@.skip(0) =~= word@);
            let path = slice_chars(&word, k, word.len());
            assert(path@ =~= word@.skip(k as int));
            open_file_exec(&mut files, &path);
            current = Some(path);
        } else if starts_with_str_at(line, 0, "+++ b/") {
            let start = chars_of("+++ b/").len();
            let path = slice_chars(line, start, line.len());
            assert(path@ =~= line@.skip("+++ b/"@.len() as int));
            open_file_exec(&mut files, &path);
            current = Some(path);
        } else {
            match &current {
                None => {},
                Some(p) => {
                    proof {
                        lemma_find_file(fviews(files@), p@);
                    }
                    match find_exec(&files, p) {
                        None => {},
                        Some(j) => {
                            if starts_with_str_at(line, 0, "new file mode") {
                                set_kind(&mut files, j, "added");
                            } else if starts_with_str_at(line, 0, "deleted file mode") {
                                set_kind(&mut files, j, "deleted");
                            } else if starts_with_str_at(line, 0, "@@") {
                                let h = string_of(line.as_slice());
                                add_highlight(&mut files, j, h);
                            } else if starts_with_str_at(line, 0, "+") {
                                let start = chars_of("+").len();
                                let added = slice_chars(line, start, line.len());
                                assert(added@ =~= line@.skip("+"@.len() as int));
                                assert(added@.skip(0) =~= added@);
                                if !starts_with_str_at(&added, 0, "+++") {
                                    let (a, b) = trim_range(&added, 0, added.len());
                                    assert(added@.subrange(0, added@.len() as int) =~= added@);
                                    if bytes_exceed(&added, a, b, 12) {
                                        let mut h = String::new();
                                        push_str(&mut h, "added: ");
                                        let t = string_of(slice_chars(&added, a, b).as_slice());
                                        push_str(&mut h, t.as_str());
                                        add_highlight(&mut files, j, h);
                                    }
                                }
                            }
                            proof {
                                lemma_find_file(fviews(files@), p@);
                                assert(paths_distinct(fviews(files@))) by {
                                    assert forall|a: int, b: int|
                                        0 <= a < b < fviews(files@).len() implies fviews(
                                        files@,
                                    )[a].path != fviews(files@)[b].path by {
                                        assert(fviews(files@)[a].path == st.files[a].path);
                                        assert(fviews(files@)[b].path == st.files[b].path);
                                    }
                                }
                                assert(find_file(fviews(files@), p@) >= 0) by {
                                    assert(fviews(files@)[j as int].path == p@);
                                    if find_file(fviews(files@), p@) < 0 {
                                        assert(false);
                                    }
                                }
                            }
                        },
                    }
                },
            }
        }
        i = i + 1;
    }
    assert(lv.take(ls.len() as int) =~= lv);
    let ghost fs = fviews(files@);
    let mut paths: Vec<Vec<char>> = Vec::new();
    let mut zs: Vec<usize> = Vec::new();
    let mut j: usize = 0;
    while j < files.len()
        invariant
            fs == fviews(files@),
            j <= files.len(),
            paths.len() == j,
            zs.len() == j,
            forall|k: int| 0 <= k < j ==> #[trigger] paths@[k]@ == fs[k].path,
            forall|k: int| 0 <= k < j ==> #[trigger] zs@[k] == 0,
        decreases files.len() - j,
    {
        paths.push(chars_of(files[j].path.as_str()));
        zs.push(0);
        j = j + 1;
    }
    let ghost pv = fs.map_values(|f: FileView| f.path);
    assert(views(paths@) =~= pv);
    assert(nats(zs@) =~= zeros(fs.len()));
    let n = files.len();
    let idx = rank_select(&paths, &zs, n);
    let ghost spec = diff_files(input@);
    let mut out: Vec<FileHighlight> = Vec::new();
    let mut k: usize = 0;
    assert(fviews(out@) =~= Seq::<FileView>::empty());
    while k < idx.len()
        invariant
            fs == fviews(files@),
            k <= idx.len(),
            idx.len() == spec.len(),
            spec == ranked_indices(pv, zeros(fs.len()), fs.len()).map_values(|i: int| capped(fs[i])),
            forall|q: int| 0 <= q < idx.len() ==> #[trigger] idx@[q] < files.len() && idx@[q] as int
                == ranked_indices(pv, zeros(fs.len()), fs.len())[q],
            fviews(out@) == spec.take(k as int),
        decreases idx.len() - k,
    {
        let f = &files[idx[k]];
        let c = FileHighlight {
            path: f.path.clone(),
            kind: f.kind.clone(),
            highlights: copy_strings(&f.highlights, 5),
        };
        let ghost before = fviews(out@);
        out.push(c);
        assert(c@ == capped(fs[idx@[k as int] as int])) by {
            assert(c@.highlights =~= capped(fs[idx@[k as int] as int]).highlights);
        }
        assert(fviews(out@) =~= before.push(c@));
        assert(spec.take(k + 1) =~= spec.take(k as int).push(c@));
        k = k + 1;
    }
    assert(spec.take(idx.len() as int) =~= spec);
    out
}


// ---------------------------------------------------------------- JSON

/// A control char (general category `Cc`), as `char::is_control` tests.
pub open spec fn is_control(c: char) -> bool {
    c <= '\u{1F}' || ('\u{7F}' <= c && c <= '\u{9F}')
}

/// A lowercase hexadecimal digit.
pub open spec fn hex_digit(d: nat) -> char {
    if d < 10 {
        digit(d)
    } else if d == 10 {
        'a'
    } else if d == 11 {
        'b'
    } else if d == 12 {
        'c'
    } else if d == 13 {
        'd'
    } else if d == 14 {
        'e'
    } else {
        'f'
    }
}

/// Four lowercase hexadecimal digits of `n` (`{:04x}` for `n < 0x10000`).
pub open spec fn hex4(n: nat) -> Seq<char> {
    seq![hex_digit((n / 4096) % 16), hex_digit((n / 256) % 16), hex_digit((n / 16) % 16), hex_digit(n % 16)]
}

/// How a char stands inside a JSON string.
pub open spec fn esc(c: char) -> Seq<char> {
    if c == '\\' {
        seq!['\\', '\\']
    } else if c == '"' {
        seq!['\\', '"']
    } else if c == '\n' {
        seq!['\\', 'n']
    } else if c == '\r' {
        seq!['\\', 'r']
    } else if c == '\t' {
        seq!['\\', 't']
    } else if is_control(c) {
        seq!['\\', 'u'] + hex4(c as nat)
    } else {
        seq![c]
    }
}

/// The text escaped for a JSON string.
pub open spec fn escape(s: Seq<char>) -> Seq<char>
    decreases s.len(),
{
    if s.len() == 0 {
        seq![]
    } else {
        escape(s.drop_last()) + esc(s.last())
    }
}

fn hex_char(d: u32) -> (c: char)
    requires
        d < 16,
    ensures
        c == hex_digit(d as nat),
{
    if d < 10 {
        let v = dec_chars(d as u64);
        assert(dec(d as nat) =~= seq![digit(d as nat)]);
        v[0]
    } else if d == 10 {
        'a'
    } else if d == 11 {
        'b'
    } else if d == 12 {
        'c'
    } else if d == 13 {
        'd'
    } else if d == 14 {
        'e'
    } else {
        'f'
    }
}

fn push_esc(out: &mut Vec<char>, c: char)
    ensures
        final(out)@ == old(out)@ + esc(c),
{
    if c == '\\' {
        out.push('\\');
        out.push('\\');
    } else if c == '"' {
        out.push('\\');
        out.push('"');
    } else if c == '\n' {
        out.push('\\');
        out.push('n');
    } else if c == '\r' {
        out.push('\\');
        out.push('r');
    } else if c == '\t' {
        out.push('\\');
        out.push('t');
    } else if c <= '\u{1F}' || ('\u{7F}' <= c && c <= '\u{9F}') {
        let n = c as u32;
        out.push('\\');
        out.push('u');
        out.push(hex_char((n / 4096) % 16));
        out.push(hex_char((n / 256) % 16));
        out.push(hex_char((n / 16) % 16));
        out.push(hex_char(n % 16));
    } else {
        out.push(c);
    }
    assert(out@ =~= old(out)@ + esc(c));
}

fn escape_into(out: &mut Vec<char>, s: &Vec<char>)
    ensures
        final(out)@ == old(out)@ + escape(s@),
{
    let mut i: usize = 0;
    assert(s@.take(0) =~= Seq::<char>::empty());
    assert(old(out)@ + escape(Seq::<char>::empty()) =~= old(out)@);
    while i < s.len()
        invariant
            i <= s.len(),
            out@ == old(out)@ + escape(s@.take(i as int)),
        decreases s.len() - i,
    {
        push_esc(out, s[i]);
        assert(s@.take(i + 1).drop_last() =~= s@.take(i as int));
        assert(s@.take(i + 1).last() == s@[i as int]);
        assert(out@ =~= old(out)@ + escape(s@.take(i + 1)));
        i = i + 1;
    }
    assert(s@.take(s.len() as int) =~= s@);
}

/// Escapes text for a JSON string: backslash, quote, newline, carriage return and tab by
/// their short escapes, other control chars as `\\u` and four hex digits.
pub fn json_escape(input: &str) -> (r: String)
    ensures
        r@ == escape(input@),
{
    let s = chars_of(input);
    let mut out: Vec<char> = Vec::new();
    escape_into(&mut out, &s);
    assert(out@ =~= escape(input@));
    string_of(out.as_slice())
}

/// The value of a hexadecimal digit.
pub open spec fn hex_val(c: char) -> nat {
    if '0' <= c && c <= '9' {
        (c as int - 48) as nat
    } else if 'a' <= c && c <= 'f' {
        (c as int - 87) as nat
    } else if 'A' <= c && c <= 'F' {
        (c as int - 55) as nat
    } else {
        0
    }
}

/// The number four hexadecimal digits stand for.
pub open spec fn hex4_value(t: Seq<char>) -> nat {
    hex_val(t[0]) * 4096 + hex_val(t[1]) * 256 + hex_val(t[2]) * 16 + hex_val(t[3])
}

/// The char a short JSON escape `\e` stands for.
pub open spec fn unescaped(e: char) -> char {
    if e == 'n' {
        '\n'
    } else if e == 'r' {
        '\r'
    } else if e == 't' {
        '\t'
    } else if e == 'b' {
        '\u{8}'
    } else if e == 'f' {
        '\u{C}'
    } else {
        e
    }
}

/// Reads the body of a JSON string back into text.
pub open spec fn unescape(t: Seq<char>) -> Seq<char>
    decreases t.len(),
{
    if t.len() == 0 {
        seq![]
    } else if t[0] == '\\' && t.len() >= 2 {
        if t[1] == 'u' && t.len() >= 6 {
            seq![(hex4_value(t.subrange(2, 6)) as u32) as char] + unescape(t.skip(6))
        } else {
            seq![unescaped(t[1])] + unescape(t.skip(2))
        }
    } else {
        seq![t[0]] + unescape(t.skip(1))
    }
}

proof fn lemma_hex_digit_val(d: nat)
    requires
        d < 16,
    ensures
        hex_val(hex_digit(d)) == d,
{
}

proof fn lemma_hex4_value(n: u32)
    requires
        n < 0x10000,
    ensures
        hex4_value(hex4(n as nat)) == n,
{
    lemma_hex_digit_val(((n / 4096) % 16) as nat);
    lemma_hex_digit_val(((n / 256) % 16) as nat);
    lemma_hex_digit_val(((n / 16) % 16) as nat);
    lemma_hex_digit_val((n % 16) as nat);
    assert(((n / 4096) % 16) * 4096 + ((n / 256) % 16) * 256 + ((n / 16) % 16) * 16 + n % 16 == n)
        by (bit_vector)
        requires
            n < 0x10000,
    ;
}

proof fn lemma_unescape_esc(c: char, rest: Seq<char>)
    ensures
        unescape(esc(c) + rest) == seq![c] + unescape(rest),
{
    let t = esc(c) + rest;
    if c == '\\' || c == '"' || c == '\n' || c == '\r' || c == '\t' {
        assert(t.skip(2) =~= rest);
    } else if is_control(c) {
        let u = c as u32;
        lemma_hex4_value(u);
        assert(t.subrange(2, 6) =~= hex4(u as nat));
        assert(t.skip(6) =~= rest);
        vstd::utf8::char_u32_cast(c, u);
    } else {
        assert(t.skip(1) =~= rest);
    }
}

proof fn lemma_escape_front(s: Seq<char>)
    requires
        s.len() > 0,
    ensures
        escape(s) == esc(s[0]) + escape(s.drop_first()),
    decreases s.len(),
{
    let t = s.drop_first();
    if s.len() > 1 {
        lemma_escape_front(s.drop_last());
        assert(s.drop_last().drop_first() =~= t.drop_last());
        assert(s.drop_last()[0] == s[0]);
        assert(t.last() == s.last());
        assert(escape(t) == escape(t.drop_last()) + esc(t.last()));
    } else {
        assert(t.len() == 0);
        assert(s.drop_last().len() == 0);
        assert(escape(s.drop_last()) == Seq::<char>::empty());
        assert(s.last() == s[0]);
    }
}

/// Reading the escaped text back as the body of a JSON string gives the text again.
pub proof fn lemma_json_escape_roundtrip(s: Seq<char>)
    ensures
        unescape(escape(s)) == s,
    decreases s.len(),
{
    if s.len() > 0 {
        lemma_escape_front(s);
        lemma_unescape_esc(s[0], escape(s.drop_first()));
        lemma_json_escape_roundtrip(s.drop_first());
        assert(seq![s[0]] + s.drop_first() =~= s);
    } else {
        assert(escape(s) == Seq::<char>::empty());
    }
}

/// A string as a JSON string value.
pub open spec fn quoted(x: Seq<char>) -> Seq<char> {
    seq!['"'] + escape(x) + seq!['"']
}

/// Strings as a JSON array.
pub open spec fn json_array(items: Seq<Seq<char>>) -> Seq<char> {
    seq!['['] + join(items.map_values(|x: Seq<char>| quoted(x)), seq![',']) + seq![']']
}

/// Joins the pieces with `sep`, appending them to `out`.
fn json_array_into(out: &mut Vec<char>, items: &Vec<String>)
    ensures
        final(out)@ == old(out)@ + json_array(strs(items@)),
{
    let mut parts: Vec<Vec<char>> = Vec::new();
    let ghost q = strs(items@).map_values(|x: Seq<char>| quoted(x));
    let mut i: usize = 0;
    while i < items.len()
        invariant
            i <= items.len(),
            q == strs(items@).map_values(|x: Seq<char>| quoted(x)),
            views(parts@) == q.take(i as int),
        decreases items.len() - i,
    {
        let mut p: Vec<char> = Vec::new();
        p.push('"');
        let s = chars_of(items[i].as_str());
        escape_into(&mut p, &s);
        p.push('"');
        assert(p@ =~= quoted(items@[i as int]@));
        let ghost before = views(parts@);
        parts.push(p);
        assert(views(parts@) =~= before.push(p@));
        assert(q.take(i + 1) =~= q.take(i as int).push(p@));
        i = i + 1;
    }
    assert(q.take(items.len() as int) =~= q);
    let joined = join_chars(&parts, ",");
    out.push('[');
    extend_chars(out, &joined);
    out.push(']');
    proof {
        reveal_strlit(",");
        assert(","@ =~= seq![',']);
    }
    assert(out@ =~= old(out)@ + json_array(strs(items@)));
}

/// The JSON object of a file highlight.
pub open spec fn file_json(f: FileView) -> Seq<char> {
    "{\"path\":\""@ + escape(f.path) + "\",\"kind\":\""@ + escape(f.kind) + "\",\"highlights\":"@
        + json_array(f.highlights) + "}"@
}

impl FileHighlight {
    /// The file highlight as a JSON object.
    pub fn to_json(&self) -> (r: String)
        ensures
            r@ == file_json(self@),
    {
        let mut out: Vec<char> = Vec::new();
        extend_str(&mut out, "{\"path\":\"");
        escape_into(&mut out, &chars_of(self.path.as_str()));
        extend_str(&mut out, "\",\"kind\":\"");
        escape_into(&mut out, &chars_of(self.kind.as_str()));
        extend_str(&mut out, "\",\"highlights\":");
        json_array_into(&mut out, &self.highlights);
        extend_str(&mut out, "}");
        assert(out@ =~= file_json(self@));
        string_of(out.as_slice())
    }
}

/// The outcome of a summary: its mode, its text, its keywords and highlights, the files it
/// names, and the LLM tokens it spent.
#[derive(Debug, Clone)]
pub struct SummaryResult {
    pub mode: SummaryMode,
    pub summary: String,
    pub keywords: Vec<String>,
    pub highlights: Vec<String>,
    pub files: Vec<FileHighlight>,
    pub token_usage: u32,
}

/// What a `SummaryResult` holds, as text.
pub struct SummaryView {
    pub mode: SummaryMode,
    pub summary: Seq<char>,
    pub keywords: Seq<Seq<char>>,
    pub highlights: Seq<Seq<char>>,
    pub files: Seq<FileView>,
    pub token_usage: nat,
}

impl View for SummaryResult {
    type V = SummaryView;

    open spec fn view(&self) -> SummaryView {
        SummaryView {
            mode: self.mode,
            summary: self.summary@,
            keywords: strs(self.keywords@),
            highlights: strs(self.highlights@),
            files: fviews(self.files@),
            token_usage: self.token_usage as nat,
        }
    }
}

/// The JSON object of a summary.
pub open spec fn summary_json(r: SummaryView) -> Seq<char> {
    "{\"mode\":\""@ + mode_name(r.mode) + "\",\"summary\":\""@ + escape(r.summary)
        + "\",\"keywords\":"@ + json_array(r.keywords) + ",\"highlights\":"@ + json_array(
        r.highlights,
    ) + ",\"files\":["@ + join(r.files.map_values(|f: FileView| file_json(f)), seq![','])
        + "],\"token_usage\":"@ + dec(r.token_usage) + "}"@
}

/// The banner label of a mode.
pub open spec fn mode_label(m: SummaryMode) -> Seq<char> {
    match m {
        SummaryMode::Text => "RECAP"@,
        SummaryMode::Code => "CODE"@,
        SummaryMode::Diff => "DIFF"@,
    }
}

impl SummaryResult {
    /// The summary as a JSON object.
    pub fn to_json(&self) -> (r: String)
        ensures
            r@ == summary_json(self@),
    {
        let mut out: Vec<char> = Vec::new();
        extend_str(&mut out, "{\"mode\":\"");
        extend_str(&mut out, self.mode.as_str());
        extend_str(&mut out, "\",\"summary\":\"");
        escape_into(&mut out, &chars_of(self.summary.as_str()));
        extend_str(&mut out, "\",\"keywords\":");
        json_array_into(&mut out, &self.keywords);
        extend_str(&mut out, ",\"highlights\":");
        json_array_into(&mut out, &self.highlights);
        extend_str(&mut out, ",\"files\":[");
        let ghost head = out@;
        let mut parts: Vec<Vec<char>> = Vec::new();
        let ghost fj = fviews(self.files@).map_values(|f: FileView| file_json(f));
        let mut i: usize = 0;
        while i < self.files.len()
            invariant
                i <= self.files.len(),
                fj == fviews(self.files@).map_values(|f: FileView| file_json(f)),
                views(parts@) == fj.take(i as int),
            decreases self.files.len() - i,
        {
            let j = self.files[i].to_json();
            let p = chars_of(j.as_str());
            let ghost before = views(parts@);
            parts.push(p);
            assert(views(parts@) =~= before.push(p@));
            assert(fj.take(i + 1) =~= fj.take(i as int).push(p@));
            i = i + 1;
        }
        assert(fj.take(self.files.len() as int) =~= fj);
        let joined = join_chars(&parts, ",");
        extend_chars(&mut out, &joined);
        extend_str(&mut out, "],\"token_usage\":");
        let d = dec_chars(self.token_usage as u64);
        extend_chars(&mut out, &d);
        extend_str(&mut out, "}");
        proof {
            reveal_strlit(",");
            assert(","@ =~= seq![',']);
        }
        assert(out@ =~= summary_json(self@));
        string_of(out.as_slice())
    }

    /// The one-line banner: the mode's label, a colon, and the summary.
    pub fn to_banner(&self) -> (r: String)
        ensures
            r@ == mode_label(self.mode) + ": "@ + self.summary@,
    {
        let label = match self.mode {
            SummaryMode::Text => "RECAP",
            SummaryMode::Code => "CODE",
            SummaryMode::Diff => "DIFF",
        };
        let mut r = String::new();
        push_str(&mut r, label);
        push_str(&mut r, ": ");
        push_str(&mut r, self.summary.as_str());
        r
    }
}


// ---------------------------------------------------------------- summaries

/// The first line that is not empty after trimming, trimmed.
pub open spec fn first_nonempty(ls: Seq<Seq<char>>) -> Option<Seq<char>>
    decreases ls.len(),
{
    if ls.len() == 0 {
        None
    } else if trim(ls[0]).len() > 0 {
        Some(trim(ls[0]))
    } else {
        first_nonempty(ls.drop_first())
    }
}

/// The first line of the input that is not blank, trimmed.
pub fn first_non_empty_line(input: &str) -> (r: Option<&str>)
    ensures
        match r {
            Some(x) => first_nonempty(lines(input@)) == Some(x@),
            None => first_nonempty(lines(input@)) is None,
        },
{
    let s = chars_of(input);
    let mut i: usize = 0;
    assert(s@.skip(0) =~= s@);
    while i < s.len()
        invariant
            s@ == input@,
            i <= s.len(),
            first_nonempty(lines(s@)) == first_nonempty(lines(s@.skip(i as int))),
        decreases s.len() - i,
    {
        let ghost t = s@.skip(i as int);
        let mut k = i;
        while k < s.len() && s[k] != '\n'
            invariant
                i <= k <= s.len(),
                t == s@.skip(i as int),
                forall|j: int| 0 <= j < k - i ==> #[trigger] t[j] != '\n',
            decreases s.len() - k,
        {
            k = k + 1;
        }
        proof {
            crate::text::lemma_count_until(t, '\n', k - i);
        }
        let end = if k < s.len() && k > i && s[k - 1] == '\r' {
            k - 1
        } else {
            k
        };
        let ghost piece = if k < s.len() {
            crate::text::strip_cr(t.take(k - i))
        } else {
            t
        };
        assert(piece =~= s@.subrange(i as int, end as int));
        assert(lines(t)[0] == piece);
        let (a, b) = trim_range(&s, i, end);
        if a < b {
            return Some(input.substring_char(a, b));
        }
        if k < s.len() {
            assert(t.skip(k - i + 1) =~= s@.skip(k + 1));
            assert(lines(t).drop_first() =~= lines(s@.skip(k + 1)));
            i = k + 1;
        } else {
            assert(lines(t).drop_first() =~= Seq::<Seq<char>>::empty());
            assert(s@.skip(s.len() as int) =~= Seq::<char>::empty());
            i = k;
        }
    }
    assert(s@.skip(i as int) =~= Seq::<char>::empty());
    None
}

/// The file entry of a text summary.
pub open spec fn file_view_for(p: Seq<char>) -> FileView {
    FileView { path: p, kind: kind_from_extension(path_extension(p)), highlights: seq![] }
}

/// A text summary: six keywords, the three best sentences, and their join as summary (the
/// first non-blank line, or a fixed note, when no sentence qualifies).
pub open spec fn text_summary(s: Seq<char>, path: Option<Seq<char>>) -> SummaryView {
    let kws = keywords(s, 6);
    let hl = best_sentences(s, kws, 3);
    SummaryView {
        mode: SummaryMode::Text,
        summary: if hl.len() == 0 {
            match first_nonempty(lines(s)) {
                Some(l) => l,
                None => "No summary available."@,
            }
        } else {
            join(hl, " "@)
        },
        keywords: kws,
        highlights: hl,
        files: match path {
            Some(p) => seq![file_view_for(p)],
            None => seq![],
        },
        token_usage: 0,
    }
}

/// The highlights of a code summary before the fallback to sentences.
pub open spec fn code_highlights(syms: Seq<Seq<char>>, docs: Seq<Seq<char>>) -> Seq<Seq<char>> {
    (if syms.len() > 0 {
        seq!["Defines "@ + dec(syms.len()) + " notable symbol(s): "@ + join(syms, ", "@) + "."@]
    } else {
        seq![]
    }) + docs.map_values(|d: Seq<char>| "Doc/comment: "@ + d)
}

/// The keyword source of a code summary: the symbols, a newline, the comment texts.
pub open spec fn code_keyword_text(syms: Seq<Seq<char>>, docs: Seq<Seq<char>>) -> Seq<char> {
    join(syms, " "@) + "\n"@ + join(docs, " "@)
}

/// A code summary: the declared symbols and first comment texts as highlights (the best
/// sentences when there are none), keywords from symbols and comments.
pub open spec fn code_summary(s: Seq<char>, path: Option<Seq<char>>) -> SummaryView {
    let syms = code_symbols(s);
    let docs = doc_lines(s, 4);
    let kws = keywords(code_keyword_text(syms, docs), 6);
    let h = code_highlights(syms, docs);
    let hl = if h.len() == 0 {
        best_sentences(s, kws, 3)
    } else {
        h
    };
    SummaryView {
        mode: SummaryMode::Code,
        summary: if hl.len() == 0 {
            "Code summary unavailable; no symbols or comments detected."@
        } else {
            join(hl, " "@)
        },
        keywords: kws,
        highlights: hl,
        files: match path {
            Some(p) => seq![
                FileView {
                    path: p,
                    kind: "code"@,
                    highlights: hl.take(
                        if hl.len() < 3 {
                            hl.len() as int
                        } else {
                            3
                        },
                    ),
                },
            ],
            None => seq![],
        },
        token_usage: 0,
    }
}

/// The sentence that describes one changed file.
pub open spec fn diff_line(f: FileView) -> Seq<char> {
    f.kind + " file "@ + f.path + " with "@ + dec(f.highlights.len()) + " highlight(s)."@
}

/// A diff summary: one sentence per changed file (the best sentences when there is none),
/// keywords from those sentences.
pub open spec fn diff_summary(s: Seq<char>) -> SummaryView {
    let files = diff_files(s);
    let h = files.map_values(|f: FileView| diff_line(f));
    let hl = if h.len() == 0 {
        best_sentences(s, keywords(s, 6), 3)
    } else {
        h
    };
    SummaryView {
        mode: SummaryMode::Diff,
        summary: if hl.len() == 0 {
            "Diff summary unavailable; no file changes detected."@
        } else {
            join(hl, " "@)
        },
        keywords: keywords(join(hl, " "@), 6),
        highlights: hl,
        files: files,
        token_usage: 0,
    }
}

/// The summary of the input in a mode.
pub open spec fn summary_of(s: Seq<char>, mode: SummaryMode, path: Option<Seq<char>>) -> SummaryView {
    match mode {
        SummaryMode::Text => text_summary(s, path),
        SummaryMode::Code => code_summary(s, path),
        SummaryMode::Diff => diff_summary(s),
    }
}

/// An optional path as text.
pub open spec fn opt_view(p: Option<&str>) -> Option<Seq<char>> {
    match p {
        Some(x) => Some(x@),
        None => None,
    }
}

fn summarize_text(input: &str, path: Option<&str>) -> (r: SummaryResult)
    ensures
        r@ == text_summary(input@, opt_view(path)),
{
    let s = chars_of(input);
    let kws = keywords_of(&s, 6);
    let hl = best_sentences_of(&s, &kws, 3);
    let summary = if hl.len() == 0 {
        match first_non_empty_line(input) {
            Some(l) => str_string(l),
            None => str_string("No summary available."),
        }
    } else {
        let j = join_chars(&hl, " ");
        string_of(j.as_slice())
    };
    let mut files: Vec<FileHighlight> = Vec::new();
    match path {
        Some(p) => {
            let f = file_from_path(p);
            files.push(f);
            assert(f@.highlights =~= Seq::<Seq<char>>::empty());
            assert(fviews(files@) =~= seq![file_view_for(p@)]);
        },
        None => {
            assert(fviews(files@) =~= Seq::<FileView>::empty());
        },
    }
    let r = SummaryResult {
        mode: SummaryMode::Text,
        summary,
        keywords: strings_of(&kws),
        highlights: strings_of(&hl),
        files,
        token_usage: 0,
    };
    assert(r@.summary == text_summary(input@, opt_view(path)).summary);
    r
}

fn summarize_code(input: &str, path: Option<&str>) -> (r: SummaryResult)
    ensures
        r@ == code_summary(input@, opt_view(path)),
{
    broadcast use lemma_views_push;

    let s = chars_of(input);
    let syms = extract_code_symbols(&s);
    let docs_s = extract_doc_lines(input, 4);
    let mut docs: Vec<Vec<char>> = Vec::new();
    let mut i: usize = 0;
    while i < docs_s.len()
        invariant
            i <= docs_s.len(),
            views(docs@) == strs(docs_s@).take(i as int),
        decreases docs_s.len() - i,
    {
        let d = chars_of(docs_s[i].as_str());
        docs.push(d);
        assert(strs(docs_s@).take(i + 1) =~= strs(docs_s@).take(i as int).push(d@));
        i = i + 1;
    }
    assert(strs(docs_s@).take(docs_s.len() as int) =~= strs(docs_s@));
    let ghost sy = code_symbols(input@);
    let ghost dl = doc_lines(input@, 4);
    let mut kt = join_chars(&syms, " ");
    kt.push('\n');
    let jd = join_chars(&docs, " ");
    extend_chars(&mut kt, &jd);
    proof {
        reveal_strlit("\n");
        assert("\n"@ =~= seq!['\n']);
    }
    assert(kt@ =~= code_keyword_text(sy, dl));
    let kws = keywords_of(&kt, 6);
    let mut hl: Vec<Vec<char>> = Vec::new();
    if syms.len() > 0 {
        let mut h: Vec<char> = Vec::new();
        extend_str(&mut h, "Defines ");
        let n = dec_chars(syms.len() as u64);
        extend_chars(&mut h, &n);
        extend_str(&mut h, " notable symbol(s): ");
        let js = join_chars(&syms, ", ");
        extend_chars(&mut h, &js);
        extend_str(&mut h, ".");
        hl.push(h);
    }
    let ghost h1 = views(hl@);
    let mut i: usize = 0;
    while i < docs.len()
        invariant
            i <= docs.len(),
            views(docs@) == dl,
            views(hl@) == h1 + dl.map_values(|d: Seq<char>| "Doc/comment: "@ + d).take(i as int),
        decreases docs.len() - i,
    {
        let mut h: Vec<char> = Vec::new();
        extend_str(&mut h, "Doc/comment: ");
        extend_chars(&mut h, &docs[i]);
        hl.push(h);
        assert(dl.map_values(|d: Seq<char>| "Doc/comment: "@ + d).take(i + 1) =~= dl.map_values(
            |d: Seq<char>| "Doc/comment: "@ + d,
        ).take(i as int).push(h@));
        i = i + 1;
    }
    assert(dl.map_values(|d: Seq<char>| "Doc/comment: "@ + d).take(docs.len() as int)
        =~= dl.map_values(|d: Seq<char>| "Doc/comment: "@ + d));
    assert(views(hl@) =~= code_highlights(sy, dl));
    if hl.len() == 0 {
        hl = best_sentences_of(&s, &kws, 3);
    }
    let summary = if hl.len() == 0 {
        str_string("Code summary unavailable; no symbols or comments detected.")
    } else {
        let j = join_chars(&hl, " ");
        string_of(j.as_slice())
    };
    let highlights = strings_of(&hl);
    let mut files: Vec<FileHighlight> = Vec::new();
    match path {
        Some(p) => {
            let f = FileHighlight {
                path: str_string(p),
                kind: str_string("code"),
                highlights: copy_strings(&highlights, 3),
            };
            files.push(f);
            assert(fviews(files@) =~= code_summary(input@, opt_view(path)).files);
        },
        None => {
            assert(fviews(files@) =~= Seq::<FileView>::empty());
        },
    }
    SummaryResult {
        mode: SummaryMode::Code,
        summary,
        keywords: strings_of(&kws),
        highlights,
        files,
        token_usage: 0,
    }
}

fn summarize_diff(input: &str) -> (r: SummaryResult)
    ensures
        r@ == diff_summary(input@),
{
    broadcast use lemma_views_push;

    let s = chars_of(input);
    let files = parse_diff_files(input);
    let ghost fs = diff_files(input@);
    let ghost h1 = fs.map_values(|f: FileView| diff_line(f));
    let mut hl: Vec<Vec<char>> = Vec::new();
    let mut i: usize = 0;
    while i < files.len()
        invariant
            i <= files.len(),
            fviews(files@) == fs,
            h1 == fs.map_values(|f: FileView| diff_line(f)),
            views(hl@) == h1.take(i as int),
        decreases files.len() - i,
    {
        let f = &files[i];
        let mut h: Vec<char> = Vec::new();
        extend_str(&mut h, f.kind.as_str());
        extend_str(&mut h, " file ");
        extend_str(&mut h, f.path.as_str());
        extend_str(&mut h, " with ");
        let n = dec_chars(f.highlights.len() as u64);
        extend_chars(&mut h, &n);
        extend_str(&mut h, " highlight(s).");
        assert(h@ =~= diff_line(fs[i as int]));
        hl.push(h);
        assert(h1.take(i + 1) =~= h1.take(i as int).push(h@));
        i = i + 1;
    }
    assert(h1.take(files.len() as int) =~= h1);
    if hl.len() == 0 {
        let k = keywords_of(&s, 6);
        hl = best_sentences_of(&s, &k, 3);
    }
    let joined = join_chars(&hl, " ");
    let kws = keywords_of(&joined, 6);
    let summary = if hl.len() == 0 {
        str_string("Diff summary unavailable; no file changes detected.")
    } else {
        string_of(joined.as_slice())
    };
    SummaryResult {
        mode: SummaryMode::Diff,
        summary,
        keywords: strings_of(&kws),
        highlights: strings_of(&hl),
        files,
        token_usage: 0,
    }
}

/// Summarizes the input without an LLM: as prose, as code or as a unified diff. The result
/// reports zero token usage.
pub fn summarize(input: &str, mode: SummaryMode, path: Option<&str>) -> (r: SummaryResult)
    ensures
        r@ == summary_of(input@, mode, opt_view(path)),
        r.mode == mode,
        r.token_usage == 0,
{
    match mode {
        SummaryMode::Text => summarize_text(input, path),
        SummaryMode::Code => summarize_code(input, path),
        SummaryMode::Diff => summarize_diff(input),
    }
}

/// Fast summaries spend no LLM tokens: every summary, of any mode and input, reports zero,
/// and its JSON ends with `"token_usage":0}`.
pub proof fn lemma_fast_summaries_spend_no_tokens(s: Seq<char>, mode: SummaryMode, path: Option<Seq<char>>)
    ensures
        summary_of(s, mode, path).token_usage == 0,
        exists|p: Seq<char>| summary_json(summary_of(s, mode, path)) == p + ",\"token_usage\":0}"@,
{
    let r = summary_of(s, mode, path);
    let p = "{\"mode\":\""@ + mode_name(r.mode) + "\",\"summary\":\""@ + escape(r.summary)
        + "\",\"keywords\":"@ + json_array(r.keywords) + ",\"highlights\":"@ + json_array(
        r.highlights,
    ) + ",\"files\":["@ + join(r.files.map_values(|f: FileView| file_json(f)), seq![','])
        + "]"@;
    reveal_strlit(",\"token_usage\":");
    reveal_strlit(",\"token_usage\":0}");
    reveal_strlit("}");
    reveal_strlit("],\"token_usage\":");
    reveal_strlit("]");
    assert(dec(0) =~= seq!['0']);
    assert(summary_json(r) =~= p + ",\"token_usage\":0}"@);
}

/// A diff summary lists the diff's files; when there are some it gives one highlight per
/// file (its kind, its path and how many highlights it has) and the summary joins them; an
/// empty input gives the note that no file changed.
pub proof fn lemma_diff_summary(s: Seq<char>)
    ensures
        diff_summary(s).files == diff_files(s),
        diff_files(s).len() > 0 ==> {
            &&& diff_summary(s).highlights.len() == diff_files(s).len()
            &&& forall|i: int|
                0 <= i < diff_files(s).len() ==> #[trigger] diff_summary(s).highlights[i]
                    == diff_line(diff_files(s)[i])
            &&& diff_summary(s).summary == join(diff_summary(s).highlights, " "@)
        },
        s.len() == 0 ==> diff_summary(s).summary == "Diff summary unavailable; no file changes detected."@,
{
    if s.len() == 0 {
        assert(lines(s) =~= Seq::<Seq<char>>::empty());
        assert(diff_fold(lines(s)).files =~= Seq::<FileView>::empty());
        assert(sentences(s) =~= Seq::<Seq<char>>::empty());
    }
}

/// What one line of a file's section adds to its highlights: a hunk header (`@@`) as it
/// stands; an added line (`+`, not `++++`) whose trimmed text is longer than twelve bytes,
/// as `added: ` and that text; nothing otherwise.
pub open spec fn line_highlight(line: Seq<char>) -> Seq<Seq<char>> {
    if has_prefix(line, "@@"@) {
        seq![line]
    } else if has_prefix(line, "+"@) && !has_prefix(line.skip(1), "+++"@) && byte_len(
        trim(line.skip(1)),
    ) > 12 {
        seq!["added: "@ + trim(line.skip(1))]
    } else {
        seq![]
    }
}

/// The highlights the lines of a file's section give, in order.
pub open spec fn section_highlights(body: Seq<Seq<char>>) -> Seq<Seq<char>>
    decreases body.len(),
{
    if body.len() == 0 {
        seq![]
    } else {
        section_highlights(body.drop_last()) + line_highlight(body.last())
    }
}

/// No line of a body opens another file.
pub open spec fn opens_no_file(body: Seq<Seq<char>>) -> bool {
    forall|i: int|
        0 <= i < body.len() ==> !has_prefix(#[trigger] body[i], "diff --git "@) && !has_prefix(
            body[i],
            "+++ b/"@,
        )
}

proof fn lemma_section_fold(p: Seq<char>, body: Seq<Seq<char>>)
    requires
        opens_no_file(body),
    ensures
        ({
            let st = diff_fold(seq!["+++ b/"@ + p] + body);
            &&& st.files.len() == 1
            &&& st.files[0].path == p
            &&& st.files[0].highlights == section_highlights(body)
            &&& st.current == Some(p)
        }),
    decreases body.len(),
{
    let h = "+++ b/"@ + p;
    reveal_strlit("+++ b/");
    reveal_strlit("diff --git ");
    if body.len() == 0 {
        let ls = seq![h];
        assert(ls.drop_last() =~= Seq::<Seq<char>>::empty());
        assert(has_prefix(h, "+++ b/"@)) by {
            assert(h.take(6) =~= "+++ b/"@);
        }
        assert(!has_prefix(h, "diff --git "@)) by {
            if has_prefix(h, "diff --git "@) {
                assert(h[0] == '+');
                assert(h.take(11)[0] == 'd');
            }
        }
        assert(h.skip(6) =~= p);
        assert(find_file(Seq::<FileView>::empty(), p) == -1);
        assert(ls =~= seq![h] + body);
        assert("+++ b/"@.len() == 6);
        assert(diff_fold(ls.drop_last()) == DiffState { files: Seq::<FileView>::empty(), current: None });
        assert(diff_fold(ls) == diff_step(diff_fold(ls.drop_last()), h));
        assert(diff_fold(ls).files =~= seq![new_file(p)]);
        assert(section_highlights(body) =~= Seq::<Seq<char>>::empty());
    } else {
        let b = body.drop_last();
        let x = body.last();
        assert(opens_no_file(b)) by {
            assert forall|i: int| 0 <= i < b.len() implies !has_prefix(#[trigger] b[i], "diff --git "@)
                && !has_prefix(b[i], "+++ b/"@) by {
                assert(b[i] == body[i]);
            }
        }
        lemma_section_fold(p, b);
        let ls = seq![h] + body;
        assert(ls.drop_last() =~= seq![h] + b);
        assert(ls.last() == x);
        let st = diff_fold(seq![h] + b);
        assert(st.files.drop_last() =~= Seq::<FileView>::empty());
        assert(find_file(st.files.drop_last(), p) == -1);
        assert(find_file(st.files, p) == 0);
        assert(!has_prefix(x, "diff --git "@) && !has_prefix(x, "+++ b/"@)) by {
            assert(x == body[body.len() - 1]);
        }
        reveal_strlit("@@");
        reveal_strlit("+");
        reveal_strlit("new file mode");
        reveal_strlit("deleted file mode");
        if has_prefix(x, "new file mode"@) {
            assert(x.take(13)[0] == x[0]);
            assert("new file mode"@[0] == 'n');
            assert(x[0] == 'n');
            assert(!has_prefix(x, "@@"@) && !has_prefix(x, "+"@)) by {
                if has_prefix(x, "@@"@) {
                    assert(x.take(2)[0] == '@');
                }
                if has_prefix(x, "+"@) {
                    assert(x.take(1)[0] == '+');
                }
            }
            assert(x.take(13)[0] == x[0]);
        } else if has_prefix(x, "deleted file mode"@) {
            assert(x.take(17)[0] == x[0]);
            assert("deleted file mode"@[0] == 'd');
            assert(!has_prefix(x, "@@"@) && !has_prefix(x, "+"@)) by {
                if has_prefix(x, "@@"@) {
                    assert(x.take(2)[0] == '@');
                }
                if has_prefix(x, "+"@) {
                    assert(x.take(1)[0] == '+');
                }
            }
        } else if has_prefix(x, "@@"@) {
        } else {
        }
        let st2 = diff_fold(ls);
        assert(st2 == diff_step(st, x));
        assert("+"@.len() == 1);
        assert(st2.files.len() == 1);
        assert(st2.files[0].path == p);
        assert(st2.current == Some(p));
        assert(st2.files[0].highlights == st.files[0].highlights + line_highlight(x));
        assert(section_highlights(body) == section_highlights(b) + line_highlight(x));
        assert(st2.files[0].highlights =~= section_highlights(body));
    }
}

/// The files of a diff that opens one file (`+++ b/` and its path) and whose other lines
/// open no file: that one file, and as highlights the first five, in diff order, of its
/// hunk headers and of its added lines longer than twelve bytes (as `added: ` and the
/// trimmed text).
pub proof fn lemma_one_file_diff(s: Seq<char>, p: Seq<char>, body: Seq<Seq<char>>)
    requires
        lines(s) == seq!["+++ b/"@ + p] + body,
        opens_no_file(body),
    ensures
        diff_files(s).len() == 1,
        diff_files(s)[0].path == p,
        diff_files(s)[0].highlights == section_highlights(body).take(
            if section_highlights(body).len() < 5 {
                section_highlights(body).len() as int
            } else {
                5
            },
        ),
{
    lemma_section_fold(p, body);
    let fs = diff_fold(lines(s)).files;
    let paths = fs.map_values(|f: FileView| f.path);
    assert(crate::rank::distinct(paths));
    lemma_ranked_indices(paths, zeros(fs.len()), fs.len());
    let r = ranked_indices(paths, zeros(fs.len()), fs.len());
    assert(r.len() == 1);
    assert(r[0] == 0);
}

/// A code summary with symbols or comments: its highlights are the symbols line (when the
/// code declares symbols) and then `Doc/comment: ` and each of the first four comment texts
/// in order, and its summary is the highlights joined by spaces, so every comment text
/// that `extract_doc_lines` finds appears there.
pub proof fn lemma_code_summary_keeps_comments(s: Seq<char>, path: Option<Seq<char>>)
    requires
        code_symbols(s).len() > 0 || doc_lines(s, 4).len() > 0,
    ensures
        ({
            let r = code_summary(s, path);
            let syms = code_symbols(s);
            let docs = doc_lines(s, 4);
            let off: int = if syms.len() > 0 {
                1
            } else {
                0
            };
            &&& r.highlights.len() == off + docs.len()
            &&& syms.len() > 0 ==> r.highlights[0] == "Defines "@ + dec(syms.len())
                + " notable symbol(s): "@ + join(syms, ", "@) + "."@
            &&& forall|i: int|
                0 <= i < docs.len() ==> r.highlights[off + i] == "Doc/comment: "@ + #[trigger] docs[i]
            &&& r.summary == join(r.highlights, " "@)
        }),
{
    let syms = code_symbols(s);
    let docs = doc_lines(s, 4);
    let h = code_highlights(syms, docs);
    assert(h.len() > 0);
}

/// A text summary: the six top keywords; at most three highlights, taken from the text's
/// sentences in their order; the highlights joined as the summary (the first non-blank line,
/// or a note, when there is none); and the file of the path, when one is given.
pub proof fn lemma_text_summary(s: Seq<char>, path: Option<Seq<char>>)
    ensures
        text_summary(s, path).keywords == keywords(s, 6),
        text_summary(s, path).highlights.len() <= 3,
        exists|idx: Seq<int>|
            increasing_into(idx, sentences(s).len() as int) && idx.len() == text_summary(
                s,
                path,
            ).highlights.len() && forall|k: int|
                0 <= k < idx.len() ==> #[trigger] text_summary(s, path).highlights[k]
                    == sentences(s)[idx[k]],
        text_summary(s, path).summary == if text_summary(s, path).highlights.len() == 0 {
            match first_nonempty(lines(s)) {
                Some(l) => l,
                None => "No summary available."@,
            }
        } else {
            join(text_summary(s, path).highlights, " "@)
        },
        text_summary(s, path).files == match path {
            Some(p) => seq![file_view_for(p)],
            None => Seq::<FileView>::empty(),
        },
{
    lemma_best_sentences(s, keywords(s, 6), 3);
}

/// Tokenizing the tokens joined by spaces gives the same tokens.
pub proof fn lemma_tokens_rejoined(s: Seq<char>)
    ensures
        tokens(join(tokens(s), " "@)) == tokens(s),
{
    let r = runs(s, RunKind::Token);
    let t = tokens(s);
    crate::text::lemma_runs_elements(s, RunKind::Token);
    assert forall|k: int| 0 <= k < t.len() implies (#[trigger] t[k]).len() > 0 && forall|i: int|
        0 <= i < t[k].len() ==> crate::text::in_run(RunKind::Token, #[trigger] t[k][i]) by {
        assert(t[k] == ascii_lower_seq(r[k]));
        assert forall|i: int| 0 <= i < t[k].len() implies crate::text::in_run(
            RunKind::Token,
            #[trigger] t[k][i],
        ) by {
            assert(t[k][i] == ascii_lower(r[k][i]));
            assert(crate::text::in_run(RunKind::Token, r[k][i]));
        }
    }
    reveal_strlit(" ");
    assert(" "@ =~= seq![' ']);
    crate::text::lemma_runs_join(t, RunKind::Token, ' ');
    let u = runs(join(t, " "@), RunKind::Token);
    assert(u == t);
    assert forall|k: int| 0 <= k < t.len() implies #[trigger] ascii_lower_seq(u[k]) == t[k] by {
        assert(ascii_lower_seq(t[k]) =~= t[k]);
    }
    assert(tokens(join(t, " "@)) =~= t);
}

// ---------------------------------------------------------------- reading JSON back

/// Chars of a JSON string body before its closing quote, a backslash escaping the char
/// after it; `None` when no closing quote comes.
pub open spec fn body_len(t: Seq<char>) -> Option<nat>
    decreases t.len(),
{
    if t.len() == 0 {
        None
    } else if t[0] == '"' {
        Some(0)
    } else if t[0] == '\\' {
        if t.len() < 2 {
            None
        } else {
            match body_len(t.skip(2)) {
                Some(n) => Some(n + 2),
                None => None,
            }
        }
    } else {
        match body_len(t.skip(1)) {
            Some(n) => Some(n + 1),
            None => None,
        }
    }
}

/// The JSON string at the start of `t`, decoded, and the text after it.
pub open spec fn read_string(t: Seq<char>) -> Option<(Seq<char>, Seq<char>)> {
    if t.len() > 0 && t[0] == '"' {
        match body_len(t.skip(1)) {
            Some(n) => Some((unescape(t.subrange(1, n + 1int)), t.skip(n + 2int))),
            None => None,
        }
    } else {
        None
    }
}

proof fn lemma_body_len_esc(c: char, x: Seq<char>)
    ensures
        body_len(esc(c) + x) == match body_len(x) {
            Some(n) => Some(n + esc(c).len()),
            None => None::<nat>,
        },
{
    let t = esc(c) + x;
    if c == '\\' || c == '"' || c == '\n' || c == '\r' || c == '\t' {
        assert(t.skip(2) =~= x);
    } else if is_control(c) {
        let h = hex4(c as nat);
        assert(t.skip(2) =~= h + x);
        let d0 = hex_digit((c as nat / 4096) % 16);
        let d1 = hex_digit((c as nat / 256) % 16);
        let d2 = hex_digit((c as nat / 16) % 16);
        let d3 = hex_digit(c as nat % 16);
        assert(d0 != '"' && d0 != '\\' && d1 != '"' && d1 != '\\');
        assert(d2 != '"' && d2 != '\\' && d3 != '"' && d3 != '\\');
        let u = h + x;
        let u1 = u.skip(1);
        let u2 = u.skip(2);
        let u3 = u.skip(3);
        assert(u[0] == d0 && u1[0] == d1 && u2[0] == d2 && u3[0] == d3);
        assert(u1.skip(1) =~= u2);
        assert(u2.skip(1) =~= u3);
        assert(u3.skip(1) =~= x);
        assert(body_len(u3) == match body_len(x) {
            Some(n) => Some(n + 1),
            None => None::<nat>,
        });
        assert(body_len(u2) == match body_len(x) {
            Some(n) => Some(n + 2),
            None => None::<nat>,
        });
        assert(body_len(u1) == match body_len(x) {
            Some(n) => Some(n + 3),
            None => None::<nat>,
        });
        assert(body_len(u) == match body_len(x) {
            Some(n) => Some(n + 4),
            None => None::<nat>,
        });
        assert(esc(c).len() == 6);
    } else {
        assert(t.skip(1) =~= x);
    }
}

proof fn lemma_body_len_escape(s: Seq<char>, x: Seq<char>)
    ensures
        body_len(escape(s) + x) == match body_len(x) {
            Some(n) => Some(n + escape(s).len()),
            None => None::<nat>,
        },
    decreases s.len(),
{
    if s.len() == 0 {
        assert(escape(s) == Seq::<char>::empty());
        assert(escape(s) + x =~= x);
    } else {
        lemma_escape_front(s);
        lemma_body_len_escape(s.drop_first(), x);
        lemma_body_len_esc(s[0], escape(s.drop_first()) + x);
        assert(escape(s) + x =~= esc(s[0]) + (escape(s.drop_first()) + x));
    }
}

/// A quoted string reads back as the string, whatever follows it.
pub proof fn lemma_read_quoted(s: Seq<char>, rest: Seq<char>)
    ensures
        read_string(quoted(s) + rest) == Some((s, rest)),
{
    let t = quoted(s) + rest;
    let e = escape(s);
    assert(t.skip(1) =~= e + (seq!['"'] + rest));
    lemma_body_len_escape(s, seq!['"'] + rest);
    assert(body_len(seq!['"'] + rest) == Some(0nat));
    assert(t.subrange(1, e.len() + 1int) =~= e);
    assert(t.skip(e.len() + 2int) =~= rest);
    lemma_json_escape_roundtrip(s);
}

proof fn lemma_join_front(ps: Seq<Seq<char>>, sep: Seq<char>)
    requires
        ps.len() >= 2,
    ensures
        join(ps, sep) == ps[0] + sep + join(ps.drop_first(), sep),
    decreases ps.len(),
{
    let t = ps.drop_first();
    if ps.len() == 2 {
        assert(t.len() == 1);
        assert(join(t, sep) == t[0]);
        assert(ps.drop_last().len() == 1);
        assert(join(ps.drop_last(), sep) == ps[0]);
    } else {
        lemma_join_front(ps.drop_last(), sep);
        assert(ps.drop_last().drop_first() =~= t.drop_last());
        assert(t.last() == ps.last());
        assert(join(t, sep) == join(t.drop_last(), sep) + sep + t.last());
    }
}

/// Items read one after the other, separated by commas, each by `item`.
pub open spec fn read_items<A>(t: Seq<char>, item: spec_fn(Seq<char>) -> Option<(A, Seq<char>)>) -> Option<
    (Seq<A>, Seq<char>),
>
    decreases t.len(),
{
    match item(t) {
        Some((v, rest)) => if rest.len() >= t.len() {
            None
        } else if rest.len() > 0 && rest[0] == ',' {
            match read_items(rest.skip(1), item) {
                Some((vs, r)) => Some((seq![v] + vs, r)),
                None => None,
            }
        } else {
            Some((seq![v], rest))
        },
        None => None,
    }
}

/// A JSON array at the start of `t`, its items read by `item`, and the text after it.
pub open spec fn read_array<A>(t: Seq<char>, item: spec_fn(Seq<char>) -> Option<(A, Seq<char>)>) -> Option<
    (Seq<A>, Seq<char>),
> {
    if t.len() > 0 && t[0] == '[' {
        let u = t.skip(1);
        if u.len() > 0 && u[0] == ']' {
            Some((Seq::<A>::empty(), u.skip(1)))
        } else {
            match read_items(u, item) {
                Some((vs, r)) => if r.len() > 0 && r[0] == ']' {
                    Some((vs, r.skip(1)))
                } else {
                    None
                },
                None => None,
            }
        }
    } else {
        None
    }
}

proof fn lemma_read_items<A>(
    xs: Seq<A>,
    enc: spec_fn(A) -> Seq<char>,
    item: spec_fn(Seq<char>) -> Option<(A, Seq<char>)>,
    rest: Seq<char>,
)
    requires
        xs.len() > 0,
        forall|x: A, r: Seq<char>| #[trigger] item(enc(x) + r) == Some((x, r)),
        forall|x: A| (#[trigger] enc(x)).len() > 0,
        rest.len() == 0 || rest[0] != ',',
    ensures
        read_items(join(xs.map_values(enc), seq![',']) + rest, item) == Some((xs, rest)),
    decreases xs.len(),
{
    let ps = xs.map_values(enc);
    let x0 = xs[0];
    if xs.len() == 1 {
        assert(join(ps, seq![',']) == enc(x0));
        assert(item(enc(x0) + rest) == Some((x0, rest)));
        assert(seq![x0] =~= xs);
    } else {
        lemma_join_front(ps, seq![',']);
        let tail = xs.drop_first();
        assert(ps.drop_first() =~= tail.map_values(enc));
        let j = join(tail.map_values(enc), seq![',']);
        lemma_read_items(tail, enc, item, rest);
        let t = join(ps, seq![',']) + rest;
        let after0 = seq![','] + j + rest;
        assert(t =~= enc(x0) + after0);
        assert(item(enc(x0) + after0) == Some((x0, after0)));
        assert(after0.skip(1) =~= j + rest);
        assert(seq![x0] + tail =~= xs);
    }
}

proof fn lemma_read_array<A>(
    xs: Seq<A>,
    enc: spec_fn(A) -> Seq<char>,
    item: spec_fn(Seq<char>) -> Option<(A, Seq<char>)>,
    rest: Seq<char>,
)
    requires
        forall|x: A, r: Seq<char>| #[trigger] item(enc(x) + r) == Some((x, r)),
        forall|x: A| (#[trigger] enc(x)).len() > 0 && enc(x)[0] != ']',
    ensures
        read_array(seq!['['] + join(xs.map_values(enc), seq![',']) + seq![']'] + rest, item) == Some(
            (xs, rest),
        ),
{
    let t = seq!['['] + join(xs.map_values(enc), seq![',']) + seq![']'] + rest;
    if xs.len() == 0 {
        assert(join(xs.map_values(enc), seq![',']) =~= Seq::<char>::empty());
        assert(t.skip(1).skip(1) =~= rest);
        assert(xs =~= Seq::<A>::empty());
    } else {
        let j = join(xs.map_values(enc), seq![',']);
        lemma_read_items(xs, enc, item, seq![']'] + rest);
        assert(t.skip(1) =~= j + (seq![']'] + rest));
        if xs.len() == 1 {
            assert(j == enc(xs[0]));
        } else {
            lemma_join_front(xs.map_values(enc), seq![',']);
        }
        assert(j[0] == enc(xs[0])[0]);
        assert((seq![']'] + rest).skip(1) =~= rest);
    }
}

/// A JSON string reader.
pub open spec fn string_item() -> spec_fn(Seq<char>) -> Option<(Seq<char>, Seq<char>)> {
    |u: Seq<char>| read_string(u)
}

/// An array of strings reads back as the strings, whatever follows it.
pub proof fn lemma_read_string_array(items: Seq<Seq<char>>, rest: Seq<char>)
    ensures
        read_array(json_array(items) + rest, string_item()) == Some((items, rest)),
{
    let enc = |x: Seq<char>| quoted(x);
    assert forall|x: Seq<char>, r: Seq<char>| #[trigger] string_item()(enc(x) + r) == Some((x, r)) by {
        lemma_read_quoted(x, r);
    }
    lemma_read_array(items, enc, string_item(), rest);
    assert(items.map_values(|x: Seq<char>| quoted(x)) =~= items.map_values(enc));
}

/// A decimal digit.
pub open spec fn is_digit(c: char) -> bool {
    '0' <= c && c <= '9'
}

/// How many decimal digits `t` starts with.
pub open spec fn digits_len(t: Seq<char>) -> nat
    decreases t.len(),
{
    if t.len() > 0 && is_digit(t[0]) {
        1 + digits_len(t.drop_first())
    } else {
        0
    }
}

/// The number decimal digits stand for.
pub open spec fn digits_value(d: Seq<char>) -> nat
    decreases d.len(),
{
    if d.len() == 0 {
        0
    } else {
        digits_value(d.drop_last()) * 10 + hex_val(d.last())
    }
}

/// The JSON number (a whole one) at the start of `t`, and the text after it.
pub open spec fn read_nat(t: Seq<char>) -> Option<(nat, Seq<char>)> {
    let k = digits_len(t);
    if k > 0 {
        Some((digits_value(t.take(k as int)), t.skip(k as int)))
    } else {
        None
    }
}

proof fn lemma_dec_digits(n: nat)
    ensures
        dec(n).len() > 0,
        forall|i: int| 0 <= i < dec(n).len() ==> is_digit(#[trigger] dec(n)[i]),
        digits_value(dec(n)) == n,
    decreases n,
{
    if n < 10 {
        lemma_hex_digit_val(n);
        assert(hex_digit(n) == digit(n));
        assert(dec(n).drop_last() =~= Seq::<char>::empty());
        assert(dec(n).last() == digit(n));
        assert(digits_value(dec(n).drop_last()) == 0);
    } else {
        lemma_dec_digits(n / 10);
        lemma_hex_digit_val(n % 10);
        assert(hex_digit(n % 10) == digit(n % 10));
        let d = dec(n);
        assert(d.drop_last() =~= dec(n / 10));
        assert(d.last() == digit(n % 10));
        assert(n == (n / 10) * 10 + n % 10) by (nonlinear_arith);
        assert forall|i: int| 0 <= i < d.len() implies is_digit(#[trigger] d[i]) by {
            if i < d.len() - 1 {
                assert(d[i] == dec(n / 10)[i]);
            }
        }
    }
}

proof fn lemma_digits_len(t: Seq<char>, k: int)
    requires
        0 <= k <= t.len(),
        forall|i: int| 0 <= i < k ==> is_digit(#[trigger] t[i]),
        k == t.len() || !is_digit(t[k]),
    ensures
        digits_len(t) == k,
    decreases k,
{
    if k > 0 {
        let u = t.drop_first();
        assert forall|i: int| 0 <= i < k - 1 implies is_digit(#[trigger] u[i]) by {
            assert(u[i] == t[i + 1]);
        }
        lemma_digits_len(u, k - 1);
    }
}

/// A number written in decimal reads back as the number when no digit follows it.
pub proof fn lemma_read_dec(n: nat, rest: Seq<char>)
    requires
        rest.len() == 0 || !is_digit(rest[0]),
    ensures
        read_nat(dec(n) + rest) == Some((n, rest)),
{
    let d = dec(n);
    let t = d + rest;
    lemma_dec_digits(n);
    assert forall|i: int| 0 <= i < d.len() implies is_digit(#[trigger] t[i]) by {
        assert(t[i] == d[i]);
    }
    if rest.len() > 0 {
        assert(t[d.len() as int] == rest[0]);
    }
    lemma_digits_len(t, d.len() as int);
    assert(t.take(d.len() as int) =~= d);
    assert(t.skip(d.len() as int) =~= rest);
}

/// The text after `lit`, when `t` starts with it.
pub open spec fn after(t: Seq<char>, lit: Seq<char>) -> Option<Seq<char>> {
    if has_prefix(t, lit) {
        Some(t.skip(lit.len() as int))
    } else {
        None
    }
}

proof fn lemma_after(lit: Seq<char>, x: Seq<char>)
    ensures
        after(lit + x, lit) == Some(x),
{
    assert((lit + x).take(lit.len() as int) =~= lit);
    assert((lit + x).skip(lit.len() as int) =~= x);
}

proof fn lemma_escape_plain(s: Seq<char>)
    requires
        forall|i: int| 0 <= i < s.len() ==> 'a' <= #[trigger] s[i] && s[i] <= 'z',
    ensures
        escape(s) == s,
    decreases s.len(),
{
    if s.len() > 0 {
        lemma_escape_plain(s.drop_last());
        assert(s.drop_last().push(s.last()) =~= s);
    }
}

proof fn lemma_mode_name_plain(m: SummaryMode)
    ensures
        escape(mode_name(m)) == mode_name(m),
{
    reveal_strlit("text");
    reveal_strlit("code");
    reveal_strlit("diff");
    lemma_escape_plain(mode_name(m));
}

/// A JSON file object at the start of `t` (`path`, `kind` and `highlights`, in that order),
/// and the text after it.
pub open spec fn read_file(t: Seq<char>) -> Option<(FileView, Seq<char>)> {
    match after(t, "{\"path\":"@) {
        None => None,
        Some(t1) => match read_string(t1) {
            None => None,
            Some((p, t2)) => match after(t2, ",\"kind\":"@) {
                None => None,
                Some(t3) => match read_string(t3) {
                    None => None,
                    Some((k, t4)) => match after(t4, ",\"highlights\":"@) {
                        None => None,
                        Some(t5) => match read_array(t5, string_item()) {
                            None => None,
                            Some((h, t6)) => match after(t6, "}"@) {
                                None => None,
                                Some(t7) => Some((FileView { path: p, kind: k, highlights: h }, t7)),
                            },
                        },
                    },
                },
            },
        },
    }
}

/// A file's JSON object reads back as the file, whatever follows it.
pub proof fn lemma_read_file(f: FileView, rest: Seq<char>)
    ensures
        read_file(file_json(f) + rest) == Some((f, rest)),
{
    let l1 = "{\"path\":"@;
    let l2 = ",\"kind\":"@;
    let l3 = ",\"highlights\":"@;
    let l4 = "}"@;
    reveal_strlit("{\"path\":");
    reveal_strlit(",\"kind\":");
    reveal_strlit(",\"highlights\":");
    reveal_strlit("}");
    reveal_strlit("{\"path\":\"");
    reveal_strlit("\",\"kind\":\"");
    reveal_strlit("\",\"highlights\":");
    let t7 = rest;
    let t6 = l4 + t7;
    let t5 = json_array(f.highlights) + t6;
    let t4 = l3 + t5;
    let t3 = quoted(f.kind) + t4;
    let t2 = l2 + t3;
    let t1 = quoted(f.path) + t2;
    let t0 = l1 + t1;
    assert(file_json(f) + rest =~= t0);
    lemma_after(l1, t1);
    lemma_read_quoted(f.path, t2);
    lemma_after(l2, t3);
    lemma_read_quoted(f.kind, t4);
    lemma_after(l3, t5);
    lemma_read_string_array(f.highlights, t6);
    lemma_after(l4, t7);
}

/// A file reader.
pub open spec fn file_item() -> spec_fn(Seq<char>) -> Option<(FileView, Seq<char>)> {
    |u: Seq<char>| read_file(u)
}

/// The end of a summary's JSON object: the tokens spent, then the closing brace.
pub open spec fn read_tokens_part(t: Seq<char>) -> Option<nat> {
    match after(t, ",\"token_usage\":"@) {
        None => None,
        Some(u) => match read_nat(u) {
            None => None,
            Some((n, v)) => if v == "}"@ {
                Some(n)
            } else {
                None
            },
        },
    }
}

/// The files of a summary's JSON object, then its end.
pub open spec fn read_files_part(t: Seq<char>) -> Option<(Seq<FileView>, nat)> {
    match after(t, ",\"files\":"@) {
        None => None,
        Some(u) => match read_array(u, file_item()) {
            None => None,
            Some((fs, v)) => match read_tokens_part(v) {
                None => None,
                Some(n) => Some((fs, n)),
            },
        },
    }
}

/// The highlights of a summary's JSON object, then the rest.
pub open spec fn read_highlights_part(t: Seq<char>) -> Option<(Seq<Seq<char>>, Seq<FileView>, nat)> {
    match after(t, ",\"highlights\":"@) {
        None => None,
        Some(u) => match read_array(u, string_item()) {
            None => None,
            Some((h, v)) => match read_files_part(v) {
                None => None,
                Some((fs, n)) => Some((h, fs, n)),
            },
        },
    }
}

/// The keywords of a summary's JSON object, then the rest.
pub open spec fn read_keywords_part(t: Seq<char>) -> Option<
    (Seq<Seq<char>>, Seq<Seq<char>>, Seq<FileView>, nat),
> {
    match after(t, ",\"keywords\":"@) {
        None => None,
        Some(u) => match read_array(u, string_item()) {
            None => None,
            Some((k, v)) => match read_highlights_part(v) {
                None => None,
                Some((h, fs, n)) => Some((k, h, fs, n)),
            },
        },
    }
}

/// The summary text of a summary's JSON object, then the rest.
pub open spec fn read_summary_part(t: Seq<char>) -> Option<
    (Seq<char>, Seq<Seq<char>>, Seq<Seq<char>>, Seq<FileView>, nat),
> {
    match after(t, ",\"summary\":"@) {
        None => None,
        Some(u) => match read_string(u) {
            None => None,
            Some((sm, v)) => match read_keywords_part(v) {
                None => None,
                Some((k, h, fs, n)) => Some((sm, k, h, fs, n)),
            },
        },
    }
}

/// What a summary's JSON object holds, its keys in order: the mode's name, the summary,
/// the keywords, the highlights, the files and the tokens spent.
pub open spec fn read_summary_json(t: Seq<char>) -> Option<
    (Seq<char>, Seq<char>, Seq<Seq<char>>, Seq<Seq<char>>, Seq<FileView>, nat),
> {
    match after(t, "{\"mode\":"@) {
        None => None,
        Some(u) => match read_string(u) {
            None => None,
            Some((m, v)) => match read_summary_part(v) {
                None => None,
                Some((sm, k, h, fs, n)) => Some((m, sm, k, h, fs, n)),
            },
        },
    }
}

/// The files of a summary as a JSON array.
pub open spec fn files_array(fs: Seq<FileView>) -> Seq<char> {
    seq!['['] + join(fs.map_values(|f: FileView| file_json(f)), seq![',']) + seq![']']
}

/// How the pieces of a summary's JSON object nest, its literals cut at the quotes and brackets.
proof fn lemma_summary_layout(
    m: Seq<char>,
    s: Seq<char>,
    k: Seq<char>,
    h: Seq<char>,
    f: Seq<char>,
    d: Seq<char>,
)
    ensures
        "{\"mode\":\""@ + m + "\",\"summary\":\""@ + s + "\",\"keywords\":"@ + k
            + ",\"highlights\":"@ + h + ",\"files\":["@ + f + "],\"token_usage\":"@ + d + "}"@
            == "{\"mode\":"@ + (seq!['"'] + m + seq!['"']) + (",\"summary\":"@ + (seq!['"'] + s
            + seq!['"']) + (",\"keywords\":"@ + k + (",\"highlights\":"@ + h + (",\"files\":"@ + (
        seq!['['] + f + seq![']']) + (",\"token_usage\":"@ + d + "}"@))))),
{
    let q = seq!['"'];
    let l1 = "{\"mode\":"@;
    let l2 = ",\"summary\":"@;
    let l3 = ",\"keywords\":"@;
    let l4 = ",\"highlights\":"@;
    let l5 = ",\"files\":"@;
    let l6 = ",\"token_usage\":"@;
    let l7 = "}"@;
    let a = "{\"mode\":\""@;
    let b = "\",\"summary\":\""@;
    let c = "\",\"keywords\":"@;
    let e = ",\"files\":["@;
    let g = "],\"token_usage\":"@;
    assert(a == l1 + q) by {
        reveal_strlit("{\"mode\":\"");
        reveal_strlit("{\"mode\":");
        assert(a =~= l1 + q);
    }
    assert(b == q + l2 + q) by {
        reveal_strlit("\",\"summary\":\"");
        reveal_strlit(",\"summary\":");
        assert(b =~= q + l2 + q);
    }
    assert(c == q + l3) by {
        reveal_strlit("\",\"keywords\":");
        reveal_strlit(",\"keywords\":");
        assert(c =~= q + l3);
    }
    assert(e == l5 + seq!['[']) by {
        reveal_strlit(",\"files\":[");
        reveal_strlit(",\"files\":");
        assert(e =~= l5 + seq!['[']);
    }
    assert(g == seq![']'] + l6) by {
        reveal_strlit("],\"token_usage\":");
        reveal_strlit(",\"token_usage\":");
        assert(g =~= seq![']'] + l6);
    }
    let tail = l6 + d + l7;
    let x5 = l5 + (seq!['['] + f + seq![']']) + tail;
    let x4 = l4 + h + x5;
    let x3 = l3 + k + x4;
    let x2 = l2 + (q + s + q) + x3;
    assert(a + m + b + s + c + k + l4 + h + e + f + g + d + l7 =~= l1 + (q + m + q) + x2);
}

proof fn lemma_summary_json_parts(r: SummaryView)
    ensures
        summary_json(r) == "{\"mode\":"@ + quoted(mode_name(r.mode)) + (",\"summary\":"@ + quoted(
            r.summary,
        ) + (",\"keywords\":"@ + json_array(r.keywords) + (",\"highlights\":"@ + json_array(
            r.highlights,
        ) + (",\"files\":"@ + files_array(r.files) + (",\"token_usage\":"@ + dec(r.token_usage)
            + "}"@))))),
{
    lemma_mode_name_plain(r.mode);
    lemma_summary_layout(
        mode_name(r.mode),
        escape(r.summary),
        json_array(r.keywords),
        json_array(r.highlights),
        join(r.files.map_values(|f: FileView| file_json(f)), seq![',']),
        dec(r.token_usage),
    );
}

proof fn lemma_read_files_part(fs: Seq<FileView>, n: nat)
    ensures
        read_files_part(",\"files\":"@ + files_array(fs) + (",\"token_usage\":"@ + dec(n) + "}"@))
            == Some((fs, n)),
{
    let enc = |f: FileView| file_json(f);
    let tail = ",\"token_usage\":"@ + dec(n) + "}"@;
    reveal_strlit("}");
    lemma_after(",\"files\":"@, files_array(fs) + tail);
    assert(",\"files\":"@ + files_array(fs) + tail =~= ",\"files\":"@ + (files_array(fs) + tail));
    assert forall|f: FileView, x: Seq<char>| #[trigger] file_item()(enc(f) + x) == Some((f, x)) by {
        lemma_read_file(f, x);
    }
    assert forall|f: FileView| (#[trigger] enc(f)).len() > 0 && enc(f)[0] != ']' by {
        reveal_strlit("{\"path\":\"");
        assert(enc(f)[0] == '{');
    }
    assert(fs.map_values(|f: FileView| file_json(f)) =~= fs.map_values(enc));
    lemma_read_array(fs, enc, file_item(), tail);
    lemma_after(",\"token_usage\":"@, dec(n) + "}"@);
    assert(",\"token_usage\":"@ + dec(n) + "}"@ =~= ",\"token_usage\":"@ + (dec(n) + "}"@));
    lemma_read_dec(n, "}"@);
}

proof fn lemma_read_highlights_part(h: Seq<Seq<char>>, fs: Seq<FileView>, n: nat, t: Seq<char>)
    requires
        read_files_part(t) == Some((fs, n)),
    ensures
        read_highlights_part(",\"highlights\":"@ + json_array(h) + t) == Some((h, fs, n)),
{
    lemma_after(",\"highlights\":"@, json_array(h) + t);
    assert(",\"highlights\":"@ + json_array(h) + t =~= ",\"highlights\":"@ + (json_array(h) + t));
    lemma_read_string_array(h, t);
}

proof fn lemma_read_keywords_part(
    k: Seq<Seq<char>>,
    h: Seq<Seq<char>>,
    fs: Seq<FileView>,
    n: nat,
    t: Seq<char>,
)
    requires
        read_highlights_part(t) == Some((h, fs, n)),
    ensures
        read_keywords_part(",\"keywords\":"@ + json_array(k) + t) == Some((k, h, fs, n)),
{
    lemma_after(",\"keywords\":"@, json_array(k) + t);
    assert(",\"keywords\":"@ + json_array(k) + t =~= ",\"keywords\":"@ + (json_array(k) + t));
    lemma_read_string_array(k, t);
}

proof fn lemma_read_summary_part(
    sm: Seq<char>,
    k: Seq<Seq<char>>,
    h: Seq<Seq<char>>,
    fs: Seq<FileView>,
    n: nat,
    t: Seq<char>,
)
    requires
        read_keywords_part(t) == Some((k, h, fs, n)),
    ensures
        read_summary_part(",\"summary\":"@ + quoted(sm) + t) == Some((sm, k, h, fs, n)),
{
    lemma_after(",\"summary\":"@, quoted(sm) + t);
    assert(",\"summary\":"@ + quoted(sm) + t =~= ",\"summary\":"@ + (quoted(sm) + t));
    lemma_read_quoted(sm, t);
}

proof fn lemma_read_mode_part(
    m: Seq<char>,
    sm: Seq<char>,
    k: Seq<Seq<char>>,
    h: Seq<Seq<char>>,
    fs: Seq<FileView>,
    n: nat,
    t: Seq<char>,
)
    requires
        read_summary_part(t) == Some((sm, k, h, fs, n)),
    ensures
        read_summary_json("{\"mode\":"@ + quoted(m) + t) == Some((m, sm, k, h, fs, n)),
{
    lemma_after("{\"mode\":"@, quoted(m) + t);
    assert("{\"mode\":"@ + quoted(m) + t =~= "{\"mode\":"@ + (quoted(m) + t));
    lemma_read_quoted(m, t);
}

/// Reading a summary's JSON object back gives every field of the summary: the mode's
/// name, the summary text, the keywords, the highlights, each file's path, kind and
/// highlights, and the tokens spent.
pub proof fn lemma_summary_json_reads_back(r: SummaryView)
    ensures
        read_summary_json(summary_json(r)) == Some(
            (mode_name(r.mode), r.summary, r.keywords, r.highlights, r.files, r.token_usage),
        ),
{
    lemma_summary_json_parts(r);
    let t10 = ",\"files\":"@ + files_array(r.files) + (",\"token_usage\":"@ + dec(r.token_usage)
        + "}"@);
    lemma_read_files_part(r.files, r.token_usage);
    let t8 = ",\"highlights\":"@ + json_array(r.highlights) + t10;
    lemma_read_highlights_part(r.highlights, r.files, r.token_usage, t10);
    let t6 = ",\"keywords\":"@ + json_array(r.keywords) + t8;
    lemma_read_keywords_part(r.keywords, r.highlights, r.files, r.token_usage, t8);
    let t4 = ",\"summary\":"@ + quoted(r.summary) + t6;
    lemma_read_summary_part(r.summary, r.keywords, r.highlights, r.files, r.token_usage, t6);
    lemma_read_mode_part(
        mode_name(r.mode),
        r.summary,
        r.keywords,
        r.highlights,
        r.files,
        r.token_usage,
        t4,
    );
}

} // verus!
