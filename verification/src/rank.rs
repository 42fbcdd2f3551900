//! Ranking of distinct words by a count, most frequent first, ties by word order.
use vstd::prelude::*;
use crate::text::{lex_lt, lex_less, views, lemma_lex_irreflexive, lemma_lex_asymmetric,
    lemma_lex_transitive, lemma_lex_total};

verus! {

/// `(wa, ca)` ranks before `(wb, cb)`: a higher count first, then the smaller word.
pub open spec fn ranks_before(wa: Seq<char>, ca: nat, wb: Seq<char>, cb: nat) -> bool {
    ca > cb || (ca == cb && lex_lt(wa, wb))
}

/// How many of the first `n` entries rank before `(w, c)`.
pub open spec fn rank_prefix(
    words: Seq<Seq<char>>,
    counts: Seq<nat>,
    w: Seq<char>,
    c: nat,
    n: int,
) -> nat
    decreases n,
{
    if n <= 0 {
        0
    } else {
        rank_prefix(words, counts, w, c, n - 1) + if ranks_before(
            words[n - 1],
            counts[n - 1],
            w,
            c,
        ) {
            1nat
        } else {
            0nat
        }
    }
}

/// The rank of entry `i`: how many entries rank before it.
pub open spec fn rank_of(words: Seq<Seq<char>>, counts: Seq<nat>, i: int) -> nat {
    rank_prefix(words, counts, words[i], counts[i], words.len() as int)
}

/// Counts as natural numbers.
pub open spec fn nats(c: Seq<usize>) -> Seq<nat> {
    c.map_values(|x: usize| x as nat)
}

/// No word occurs twice.
pub open spec fn distinct(words: Seq<Seq<char>>) -> bool {
    forall|i: int, j: int| 0 <= i < j < words.len() ==> words[i] != words[j]
}

/// How many of the first `n` flags are set.
pub open spec fn count_true(m: Seq<bool>, n: int) -> nat
    decreases n,
{
    if n <= 0 {
        0
    } else {
        count_true(m, n - 1) + if m[n - 1] {
            1nat
        } else {
            0nat
        }
    }
}

proof fn lemma_count_true_update(m: Seq<bool>, j: int, n: int)
    requires
        0 <= j < m.len(),
        !m[j],
        0 <= n <= m.len(),
    ensures
        count_true(m.update(j, true), n) == count_true(m, n) + if j < n {
            1nat
        } else {
            0nat
        },
    decreases n,
{
    if n > 0 {
        lemma_count_true_update(m, j, n - 1);
    }
}

proof fn lemma_count_true_full(m: Seq<bool>, n: int)
    requires
        0 <= n <= m.len(),
        forall|j: int| 0 <= j < n ==> m[j],
    ensures
        count_true(m, n) == n,
    decreases n,
{
    if n > 0 {
        lemma_count_true_full(m, n - 1);
    }
}

proof fn lemma_rank_is_count(
    words: Seq<Seq<char>>,
    counts: Seq<nat>,
    w: Seq<char>,
    c: nat,
    m: Seq<bool>,
    n: int,
)
    requires
        0 <= n <= words.len(),
        words.len() == counts.len(),
        words.len() == m.len(),
        forall|j: int| 0 <= j < n ==> (ranks_before(words[j], counts[j], w, c) == m[j]),
    ensures
        rank_prefix(words, counts, w, c, n) == count_true(m, n),
    decreases n,
{
    if n > 0 {
        lemma_rank_is_count(words, counts, w, c, m, n - 1);
    }
}

proof fn lemma_before_asymmetric(wa: Seq<char>, ca: nat, wb: Seq<char>, cb: nat)
    ensures
        !(ranks_before(wa, ca, wb, cb) && ranks_before(wb, cb, wa, ca)),
{
    lemma_lex_asymmetric(wa, wb);
}

proof fn lemma_before_transitive(
    wa: Seq<char>,
    ca: nat,
    wb: Seq<char>,
    cb: nat,
    wc: Seq<char>,
    cc: nat,
)
    requires
        ranks_before(wa, ca, wb, cb),
        ranks_before(wb, cb, wc, cc),
    ensures
        ranks_before(wa, ca, wc, cc),
{
    if ca == cb && cb == cc {
        lemma_lex_transitive(wa, wb, wc);
    }
}

proof fn lemma_before_total(wa: Seq<char>, ca: nat, wb: Seq<char>, cb: nat)
    requires
        wa != wb,
    ensures
        ranks_before(wa, ca, wb, cb) || ranks_before(wb, cb, wa, ca),
{
    lemma_lex_total(wa, wb);
}

/// The entry whose rank is `k`.
pub open spec fn rank_index(words: Seq<Seq<char>>, counts: Seq<nat>, k: int) -> int {
    choose|i: int| 0 <= i < words.len() && rank_of(words, counts, i) == k
}

/// The smaller of `limit` and `n`.
pub open spec fn min_nat(limit: nat, n: nat) -> nat {
    if limit < n {
        limit
    } else {
        n
    }
}

/// The entries of rank `0, 1, ..` up to `limit` of them: the entries sorted by
/// `ranks_before` and cut after `limit`.
pub open spec fn ranked_indices(words: Seq<Seq<char>>, counts: Seq<nat>, limit: nat) -> Seq<int> {
    Seq::new(min_nat(limit, words.len()), |k: int| rank_index(words, counts, k))
}

proof fn lemma_rank_monotone(words: Seq<Seq<char>>, counts: Seq<nat>, a: int, b: int, n: int)
    requires
        words.len() == counts.len(),
        0 <= a < words.len(),
        0 <= b < words.len(),
        0 <= n <= words.len(),
        ranks_before(words[a], counts[a], words[b], counts[b]),
    ensures
        rank_prefix(words, counts, words[b], counts[b], n) >= rank_prefix(
            words,
            counts,
            words[a],
            counts[a],
            n,
        ) + if a < n {
            1nat
        } else {
            0nat
        },
    decreases n,
{
    if n > 0 {
        lemma_rank_monotone(words, counts, a, b, n - 1);
        let j = n - 1;
        if ranks_before(words[j], counts[j], words[a], counts[a]) {
            lemma_before_transitive(
                words[j],
                counts[j],
                words[a],
                counts[a],
                words[b],
                counts[b],
            );
        }
        if j == a {
            lemma_lex_irreflexive(words[a]);
        }
    }
}

/// Distinct entries have distinct ranks.
pub proof fn lemma_rank_injective(words: Seq<Seq<char>>, counts: Seq<nat>, a: int, b: int)
    requires
        words.len() == counts.len(),
        distinct(words),
        0 <= a < words.len(),
        0 <= b < words.len(),
        a != b,
    ensures
        rank_of(words, counts, a) != rank_of(words, counts, b),
{
    if a < b {
        assert(words[a] != words[b]);
    } else {
        assert(words[b] != words[a]);
    }
    lemma_before_total(words[a], counts[a], words[b], counts[b]);
    if ranks_before(words[a], counts[a], words[b], counts[b]) {
        lemma_rank_monotone(words, counts, a, b, words.len() as int);
    } else {
        lemma_rank_monotone(words, counts, b, a, words.len() as int);
    }
}

/// Whether entry `a` ranks before entry `b`.
fn before_exec(words: &Vec<Vec<char>>, counts: &Vec<usize>, a: usize, b: usize) -> (r: bool)
    requires
        a < words.len(),
        b < words.len(),
        words.len() == counts.len(),
    ensures
        r == ranks_before(
            words@[a as int]@,
            counts@[a as int] as nat,
            words@[b as int]@,
            counts@[b as int] as nat,
        ),
{
    counts[a] > counts[b] || (counts[a] == counts[b] && lex_less(&words[a], &words[b]))
}

/// Indices of the best `limit` entries in rank order: `idx[k]` is the entry of rank `k`.
pub fn rank_select(words: &Vec<Vec<char>>, counts: &Vec<usize>, limit: usize) -> (idx: Vec<usize>)
    requires
        words.len() == counts.len(),
        distinct(views(words@)),
    ensures
        idx.len() == if limit < words.len() {
            limit as int
        } else {
            words.len() as int
        },
        forall|k: int|
            0 <= k < idx.len() ==> #[trigger] idx@[k] < words.len() && rank_of(
                views(words@),
                nats(counts@),
                idx@[k] as int,
            ) == k,
        forall|k: int|
            0 <= k < idx.len() ==> #[trigger] idx@[k] as int == ranked_indices(
                views(words@),
                nats(counts@),
                limit as nat,
            )[k],
{
    let ghost ws = views(words@);
    let ghost cs = nats(counts@);
    let n = words.len();
    let rounds = if limit < n {
        limit
    } else {
        n
    };
    let mut taken: Vec<bool> = Vec::new();
    while taken.len() < n
        invariant
            taken.len() <= n,
            forall|j: int| 0 <= j < taken.len() ==> !taken@[j],
        decreases n - taken.len(),
    {
        taken.push(false);
    }
    proof {
        assert(count_true(taken@, 0) == 0);
        lemma_count_true_zero(taken@, n as int);
    }
    let mut idx: Vec<usize> = Vec::new();
    while idx.len() < rounds
        invariant
            ws == views(words@),
            cs == nats(counts@),
            words.len() == n,
            counts.len() == n,
            distinct(ws),
            rounds <= n,
            taken.len() == n,
            idx.len() <= rounds,
            count_true(taken@, n as int) == idx.len(),
            forall|k: int|
                0 <= k < idx.len() ==> #[trigger] idx@[k] < n && taken@[idx@[k] as int]
                    && rank_of(ws, cs, idx@[k] as int) == k,
            forall|t: int, u: int|
                0 <= t < n && 0 <= u < n && taken@[t] && !taken@[u] ==> ranks_before(
                    ws[t],
                    cs[t],
                    ws[u],
                    cs[u],
                ),
        decreases rounds - idx.len(),
    {
        let mut best: usize = n;
        let mut j: usize = 0;
        while j < n
            invariant
                ws == views(words@),
                cs == nats(counts@),
                words.len() == n,
                counts.len() == n,
                taken.len() == n,
                distinct(ws),
                j <= n,
                best == n || (best < j && !taken@[best as int]),
                best == n ==> forall|i: int| 0 <= i < j ==> taken@[i],
                best < n ==> forall|i: int|
                    0 <= i < j && !taken@[i] && i != best ==> ranks_before(
                        ws[best as int],
                        cs[best as int],
                        ws[i],
                        cs[i],
                    ),
            decreases n - j,
        {
            if !taken[j] {
                if best == n {
                    best = j;
                } else if before_exec(words, counts, j, best) {
                    proof {
                        assert forall|i: int|
                            0 <= i < j + 1 && !taken@[i] && i != j implies ranks_before(
                            ws[j as int],
                            cs[j as int],
                            ws[i],
                            cs[i],
                        ) by {
                            if i != best {
                                lemma_before_transitive(
                                    ws[j as int],
                                    cs[j as int],
                                    ws[best as int],
                                    cs[best as int],
                                    ws[i],
                                    cs[i],
                                );
                            }
                        }
                    }
                    best = j;
                } else {
                    proof {
                        lemma_before_total(
                            ws[j as int],
                            cs[j as int],
                            ws[best as int],
                            cs[best as int],
                        );
                    }
                }
            }
            j = j + 1;
        }
        if best == n {
            proof {
                lemma_count_true_full(taken@, n as int);
            }
            assert(false);
        }
        proof {
            let b = best as int;
            assert forall|i: int| 0 <= i < n implies (ranks_before(
                ws[i],
                cs[i],
                ws[b],
                cs[b],
            ) == taken@[i]) by {
                if taken@[i] {
                } else if i == b {
                    lemma_lex_irreflexive(ws[b]);
                } else {
                    lemma_before_asymmetric(ws[b], cs[b], ws[i], cs[i]);
                }
            }
            lemma_rank_is_count(ws, cs, ws[b], cs[b], taken@, n as int);
            lemma_count_true_update(taken@, b, n as int);
        }
        let ghost old_taken = taken@;
        taken.set(best, true);
        assert(taken@ == old_taken.update(best as int, true));
        idx.push(best);
        proof {
            assert forall|t: int, u: int|
                0 <= t < n && 0 <= u < n && taken@[t] && !taken@[u] implies ranks_before(
                ws[t],
                cs[t],
                ws[u],
                cs[u],
            ) by {
                if t != best as int {
                    assert(old_taken[t]);
                }
            }
        }
    }
    proof {
        assert forall|k: int| 0 <= k < idx.len() implies #[trigger] idx@[k] as int
            == ranked_indices(ws, cs, limit as nat)[k] by {
            let w = idx@[k] as int;
            assert(0 <= w < ws.len() && rank_of(ws, cs, w) == k);
            let i = rank_index(ws, cs, k);
            assert(0 <= i < ws.len() && rank_of(ws, cs, i) == k);
            if i != idx@[k] as int {
                lemma_rank_injective(ws, cs, i, idx@[k] as int);
            }
        }
    }
    idx
}

proof fn lemma_count_true_zero(m: Seq<bool>, n: int)
    requires
        0 <= n <= m.len(),
        forall|j: int| 0 <= j < n ==> !m[j],
    ensures
        count_true(m, n) == 0,
    decreases n,
{
    if n > 0 {
        lemma_count_true_zero(m, n - 1);
    }
}

proof fn lemma_rank_prefix_bound(words: Seq<Seq<char>>, counts: Seq<nat>, i: int, n: int)
    requires
        words.len() == counts.len(),
        0 <= i < words.len(),
        0 <= n <= words.len(),
    ensures
        rank_prefix(words, counts, words[i], counts[i], n) + (if i < n {
            1nat
        } else {
            0nat
        }) <= n,
    decreases n,
{
    if n > 0 {
        lemma_rank_prefix_bound(words, counts, i, n - 1);
        if n - 1 == i {
            lemma_lex_irreflexive(words[i]);
        }
    }
}

/// An entry ranks before another exactly when its rank is smaller.
proof fn lemma_rank_order(words: Seq<Seq<char>>, counts: Seq<nat>, a: int, b: int)
    requires
        words.len() == counts.len(),
        distinct(words),
        0 <= a < words.len(),
        0 <= b < words.len(),
        rank_of(words, counts, a) < rank_of(words, counts, b),
    ensures
        ranks_before(words[a], counts[a], words[b], counts[b]),
{
    if a == b {
    } else {
        if a < b {
            assert(words[a] != words[b]);
        } else {
            assert(words[b] != words[a]);
        }
        lemma_before_total(words[a], counts[a], words[b], counts[b]);
        if ranks_before(words[b], counts[b], words[a], counts[a]) {
            lemma_rank_monotone(words, counts, b, a, words.len() as int);
        }
    }
}

/// Every rank below the number of entries belongs to an entry.
proof fn lemma_rank_onto(words: Seq<Seq<char>>, counts: Seq<nat>, k: int)
    requires
        words.len() == counts.len(),
        distinct(words),
        0 <= k < words.len(),
    ensures
        exists|i: int| 0 <= i < words.len() && rank_of(words, counts, i) == k,
{
    let n = words.len() as int;
    let x = vstd::set_lib::set_int_range(0, n);
    let f = |i: int| rank_of(words, counts, i) as int;
    vstd::set_lib::lemma_int_range(0, n);
    assert(vstd::relations::injective_on(f, x)) by {
        assert forall|a: int, b: int| x.contains(a) && x.contains(b) && #[trigger] f(a) == #[trigger] f(b)
            implies a == b by {
            if a != b {
                lemma_rank_injective(words, counts, a, b);
            }
        }
    }
    let y = x.map(f);
    vstd::set_lib::lemma_map_size(x, y, f);
    assert(y.subset_of(x)) by {
        assert forall|v: int| y.contains(v) implies x.contains(v) by {
            let i = choose|i: int| x.contains(i) && f(i) == v;
            lemma_rank_prefix_bound(words, counts, i, n);
        }
    }
    vstd::set_lib::lemma_subset_equality(y, x);
    assert(x.contains(k));
    assert(y.contains(k));
    let i = choose|i: int| x.contains(i) && f(i) == k;
    assert(0 <= i < words.len() && rank_of(words, counts, i) == k);
}

/// The ranked entries are the entries of rank `0, 1, ..`, each ranking before the next, and
/// every entry left out ranks after all of them.
pub proof fn lemma_ranked_indices(words: Seq<Seq<char>>, counts: Seq<nat>, limit: nat)
    requires
        words.len() == counts.len(),
        distinct(words),
    ensures
        ranked_indices(words, counts, limit).len() == min_nat(limit, words.len()),
        forall|k: int|
            0 <= k < ranked_indices(words, counts, limit).len() ==> {
                let i = #[trigger] ranked_indices(words, counts, limit)[k];
                0 <= i < words.len() && rank_of(words, counts, i) == k
            },
        forall|a: int, b: int|
            0 <= a < b < ranked_indices(words, counts, limit).len() ==> {
                let i = #[trigger] ranked_indices(words, counts, limit)[a];
                let j = #[trigger] ranked_indices(words, counts, limit)[b];
                i != j && ranks_before(words[i], counts[i], words[j], counts[j])
            },
        forall|j: int, k: int|
            #![trigger words[j], ranked_indices(words, counts, limit)[k]]
            0 <= j < words.len() && !ranked_indices(words, counts, limit).contains(j) && 0 <= k
                < ranked_indices(words, counts, limit).len() ==> {
                let i = ranked_indices(words, counts, limit)[k];
                ranks_before(words[i], counts[i], words[j], counts[j])
            },
{
    let r = ranked_indices(words, counts, limit);
    assert forall|k: int| 0 <= k < r.len() implies {
        let i = #[trigger] r[k];
        0 <= i < words.len() && rank_of(words, counts, i) == k
    } by {
        lemma_rank_onto(words, counts, k);
    }
    assert forall|a: int, b: int| 0 <= a < b < r.len() implies {
        let i = #[trigger] r[a];
        let j = #[trigger] r[b];
        i != j && ranks_before(words[i], counts[i], words[j], counts[j])
    } by {
        lemma_rank_onto(words, counts, a);
        lemma_rank_onto(words, counts, b);
        lemma_rank_order(words, counts, r[a], r[b]);
    }
    assert forall|j: int, k: int|
        #![trigger words[j], r[k]]
        0 <= j < words.len() && !r.contains(j) && 0 <= k < r.len() implies {
        let i = r[k];
        ranks_before(words[i], counts[i], words[j], counts[j])
    } by {
        lemma_rank_onto(words, counts, k);
        let rj = rank_of(words, counts, j);
        if rj < r.len() {
            lemma_rank_onto(words, counts, rj as int);
            let i2 = r[rj as int];
            if i2 != j {
                lemma_rank_injective(words, counts, i2, j);
            }
            assert(r.contains(j));
        }
        lemma_rank_order(words, counts, r[k], j);
    }
}

} // verus!
