//! Counting the bigrams of a corpus of normalized names.
use vstd::prelude::*;
use vstd::string::StrSliceExecFns;
use crate::alphabet::{all_symbols, char_to_index, symbol_of, ALPHABET_SIZE};

verus! {

/// Number of cells of the 27 by 27 table.
pub const CELLS: usize = 729;

/// How often the pair `(i, j)` of alphabet indices occurs at adjacent
/// positions of `s`.
pub open spec fn pair_count(s: Seq<char>, i: nat, j: nat) -> nat
    decreases s.len(),
{
    if s.len() < 2 {
        0
    } else {
        pair_count(s.drop_last(), i, j) + if symbol_of(s[s.len() - 2]) == Some(i) && symbol_of(
            s.last(),
        ) == Some(j) {
            1nat
        } else {
            0nat
        }
    }
}

/// How often the pair `(i, j)` occurs over all names of a corpus.
pub open spec fn corpus_count(names: Seq<Seq<char>>, i: nat, j: nat) -> nat
    decreases names.len(),
{
    if names.len() == 0 {
        0
    } else {
        corpus_count(names.drop_last(), i, j) + pair_count(names.last(), i, j)
    }
}

/// The number of adjacent pairs in a sequence.
pub open spec fn pairs_in(s: Seq<char>) -> nat {
    if s.len() < 2 {
        0
    } else {
        (s.len() - 1) as nat
    }
}

/// The number of adjacent pairs over all names of a corpus.
pub open spec fn corpus_pairs(names: Seq<Seq<char>>) -> nat
    decreases names.len(),
{
    if names.len() == 0 {
        0
    } else {
        corpus_pairs(names.drop_last()) + pairs_in(names.last())
    }
}

/// The sum of the first `n` cells of row `i` of a flat 27 by 27 table.
pub open spec fn row_sum(cells: Seq<u64>, i: int, n: int) -> int
    decreases n,
{
    if n <= 0 {
        0
    } else {
        row_sum(cells, i, n - 1) + cells[i * 27 + n - 1]
    }
}

/// The characters of every name of a vector.
pub open spec fn texts(names: Seq<String>) -> Seq<Seq<char>> {
    names.map_values(|s: String| s@)
}

/// Observed bigram counts: a flat 27 by 27 table, the cell of `(i, j)` at
/// `27 * i + j`, and the total of each row.
pub struct BigramCounts {
    pub cells: Vec<u64>,
    pub totals: Vec<u64>,
}

impl BigramCounts {
    /// The table has its 729 cells and 27 rows, and each row total is the
    /// sum of the row.
    pub open spec fn wf(&self) -> bool {
        &&& self.cells@.len() == CELLS
        &&& self.totals@.len() == ALPHABET_SIZE
        &&& forall|i: int| 0 <= i < 27 ==> #[trigger] self.totals@[i] == row_sum(self.cells@, i, 27)
    }

    /// The count of the pair `(i, j)`.
    pub open spec fn count(&self, i: int, j: int) -> nat {
        self.cells@[i * 27 + j] as nat
    }

    /// The count of the pair of alphabet indices `(first, second)`.
    pub fn get(&self, first: usize, second: usize) -> (r: u64)
        requires
            self.wf(),
            first < ALPHABET_SIZE,
            second < ALPHABET_SIZE,
        ensures
            r == self.count(first as int, second as int),
    {
        self.cells[first * ALPHABET_SIZE + second]
    }

    /// The number of counted pairs whose first symbol is `first`.
    pub fn row_total(&self, first: usize) -> (r: u64)
        requires
            self.wf(),
            first < ALPHABET_SIZE,
        ensures
            r == row_sum(self.cells@, first as int, 27),
    {
        self.totals[first]
    }
}

/// Changing one cell changes the sum of its own row by the difference and
/// leaves the other rows as they were.
pub proof fn lemma_row_sum_update(cells: Seq<u64>, i: int, j: int, v: u64, r: int, n: int)
    requires
        cells.len() == 729,
        0 <= i < 27,
        0 <= j < 27,
        0 <= r < 27,
        0 <= n <= 27,
    ensures
        row_sum(cells.update(i * 27 + j, v), r, n) == row_sum(cells, r, n) + if r == i && j < n {
            v - cells[i * 27 + j]
        } else {
            0
        },
    decreases n,
{
    if n > 0 {
        lemma_row_sum_update(cells, i, j, v, r, n - 1);
        assert(r * 27 + n - 1 == i * 27 + j <==> (r == i && j == n - 1)) by (nonlinear_arith)
            requires
                0 <= i < 27,
                0 <= j < 27,
                0 <= r < 27,
                0 < n <= 27,
        ;
    }
}

/// A row sum is never negative.
pub proof fn lemma_row_sum_nonneg(cells: Seq<u64>, i: int, n: int)
    ensures
        row_sum(cells, i, n) >= 0,
    decreases n,
{
    if n > 0 {
        lemma_row_sum_nonneg(cells, i, n - 1);
    }
}

/// The pair counts of a prefix grow by the last pair of the next prefix.
proof fn lemma_pair_count_step(s: Seq<char>, p: int, i: nat, j: nat)
    requires
        1 <= p < s.len(),
    ensures
        pair_count(s.take(p + 1), i, j) == pair_count(s.take(p), i, j) + if symbol_of(s[p - 1])
            == Some(i) && symbol_of(s[p]) == Some(j) {
            1nat
        } else {
            0nat
        },
{
    assert(s.take(p + 1).drop_last() =~= s.take(p));
}

/// The pair counts of a corpus prefix grow by the next name.
proof fn lemma_corpus_step(names: Seq<Seq<char>>, k: int)
    requires
        0 <= k < names.len(),
    ensures
        forall|i: nat, j: nat|
            #[trigger] corpus_count(names.take(k + 1), i, j) == corpus_count(names.take(k), i, j)
                + pair_count(names[k], i, j),
        corpus_pairs(names.take(k + 1)) == corpus_pairs(names.take(k)) + pairs_in(names[k]),
{
    assert(names.take(k + 1).drop_last() =~= names.take(k));
}

/// The pairs of a corpus prefix are no more than those of the corpus.
proof fn lemma_corpus_pairs_prefix(names: Seq<Seq<char>>, k: int)
    requires
        0 <= k <= names.len(),
    ensures
        corpus_pairs(names.take(k)) <= corpus_pairs(names),
    decreases names.len() - k,
{
    if k < names.len() {
        lemma_corpus_step(names, k);
        lemma_corpus_pairs_prefix(names, k + 1);
    } else {
        assert(names.take(k) =~= names);
    }
}

/// An all-zero table has all row sums zero.
proof fn lemma_row_sum_zero(cells: Seq<u64>, i: int, n: int)
    requires
        cells.len() == 729,
        0 <= i < 27,
        0 <= n <= 27,
        forall|c: int| 0 <= c < 729 ==> cells[c] == 0,
    ensures
        row_sum(cells, i, n) == 0,
    decreases n,
{
    if n > 0 {
        lemma_row_sum_zero(cells, i, n - 1);
    }
}

/// Counts every adjacent pair of symbols over all names, the pair of two
/// boundary symbols included.
pub fn count_bigrams(names: &Vec<String>) -> (r: BigramCounts)
    requires
        forall|k: int| 0 <= k < names@.len() ==> all_symbols(#[trigger] names@[k]@),
        corpus_pairs(texts(names@)) <= u64::MAX,
    ensures
        r.wf(),
        forall|i: int, j: int|
            0 <= i < 27 && 0 <= j < 27 ==> #[trigger] r.count(i, j) == corpus_count(
                texts(names@),
                i as nat,
                j as nat,
            ),
{
    let ghost corpus = texts(names@);
    let mut cells: Vec<u64> = Vec::new();
    let mut c: usize = 0;
    while c < CELLS
        invariant
            c <= CELLS,
            cells@.len() == c,
            forall|x: int| 0 <= x < c ==> cells@[x] == 0,
        decreases CELLS - c,
    {
        cells.push(0);
        c = c + 1;
    }
    let mut totals: Vec<u64> = Vec::new();
    let mut t: usize = 0;
    while t < ALPHABET_SIZE
        invariant
            t <= ALPHABET_SIZE,
            totals@.len() == t,
            forall|x: int| 0 <= x < t ==> totals@[x] == 0,
        decreases ALPHABET_SIZE - t,
    {
        totals.push(0);
        t = t + 1;
    }
    proof {
        assert forall|i: int| 0 <= i < 27 implies #[trigger] totals@[i] == row_sum(cells@, i, 27) by {
            lemma_row_sum_zero(cells@, i, 27);
        }
        assert(corpus.take(0) =~= Seq::<Seq<char>>::empty());
    }
    let mut seen: u64 = 0;
    let mut k: usize = 0;
    while k < names.len()
        invariant
            corpus == texts(names@),
            forall|q: int| 0 <= q < names@.len() ==> all_symbols(#[trigger] names@[q]@),
            corpus_pairs(corpus) <= u64::MAX,
            k <= names@.len(),
            cells@.len() == CELLS,
            totals@.len() == ALPHABET_SIZE,
            forall|i: int| 0 <= i < 27 ==> #[trigger] totals@[i] == row_sum(cells@, i, 27),
            forall|i: int| 0 <= i < 27 ==> #[trigger] totals@[i] <= seen,
            forall|x: int| 0 <= x < 729 ==> #[trigger] cells@[x] <= seen,
            forall|i: int, j: int|
                0 <= i < 27 && 0 <= j < 27 ==> #[trigger] cells@[i * 27 + j] == corpus_count(
                    corpus.take(k as int),
                    i as nat,
                    j as nat,
                ),
            seen == corpus_pairs(corpus.take(k as int)),
        decreases names@.len() - k,
    {
        let name = &names[k];
        let ghost s = name@;
        assert(corpus[k as int] == s);
        proof {
            lemma_corpus_step(corpus, k as int);
            lemma_corpus_pairs_prefix(corpus, k as int + 1);
        }
        let text = name.as_str();
        let n = text.unicode_len();
        let mut p: usize = 1;
        if n < 2 {
            p = n;
        }
        proof {
            if n >= 2 {
                assert(s.take(1).len() < 2);
            }
        }
        while p < n
            invariant
                corpus == texts(names@),
                all_symbols(s),
                s == corpus[k as int],
                k < names@.len(),
                n == s.len(),
                p <= n,
                n >= 2 ==> 1 <= p,
                n < 2 ==> p == n,
                text@ == s,
                pairs_in(s.take(p as int)) == 0 || n >= 2,
                seen as int + pairs_in(s) - pairs_in(s.take(p as int)) <= u64::MAX,
                cells@.len() == CELLS,
                totals@.len() == ALPHABET_SIZE,
                forall|i: int| 0 <= i < 27 ==> #[trigger] totals@[i] == row_sum(cells@, i, 27),
                forall|i: int| 0 <= i < 27 ==> #[trigger] totals@[i] <= seen,
                forall|x: int| 0 <= x < 729 ==> #[trigger] cells@[x] <= seen,
                forall|i: int, j: int|
                    0 <= i < 27 && 0 <= j < 27 ==> #[trigger] cells@[i * 27 + j] == corpus_count(
                        corpus.take(k as int),
                        i as nat,
                        j as nat,
                    ) + pair_count(s.take(p as int), i as nat, j as nat),
                seen == corpus_pairs(corpus.take(k as int)) + pairs_in(s.take(p as int)),
            decreases n - p,
        {
            let a = text.get_char(p - 1);
            let b = text.get_char(p);
            assert(all_symbols(s) ==> symbol_of(s[p - 1]) is Some);
            assert(symbol_of(s[p as int]) is Some);
            let first = match char_to_index(a) {
                Some(x) => x,
                None => 0,
            };
            let second = match char_to_index(b) {
                Some(x) => x,
                None => 0,
            };
            let cell = first * ALPHABET_SIZE + second;
            let ghost before = cells@;
            let old_count = cells[cell];
            let old_total = totals[first];
            assert(pairs_in(s.take(p + 1)) == pairs_in(s.take(p as int)) + 1);
            let new_count = old_count + 1;
            proof {
                lemma_pair_count_step(s, p as int, first as nat, second as nat);
                assert forall|i: int| 0 <= i < 27 implies #[trigger] row_sum(
                    before.update(cell as int, new_count),
                    i,
                    27,
                ) == row_sum(before, i, 27) + if i == first {
                    1int
                } else {
                    0int
                } by {
                    lemma_row_sum_update(before, first as int, second as int, new_count, i, 27);
                }
            }
            cells.set(cell, new_count);
            totals.set(first, old_total + 1);
            seen = seen + 1;
            proof {
                assert forall|i: int, j: int|
                    0 <= i < 27 && 0 <= j < 27 implies #[trigger] cells@[i * 27 + j]
                    == corpus_count(corpus.take(k as int), i as nat, j as nat) + pair_count(
                    s.take(p + 1),
                    i as nat,
                    j as nat,
                ) by {
                    lemma_pair_count_step(s, p as int, i as nat, j as nat);
                    assert(i * 27 + j == cell <==> (i == first && j == second)) by (nonlinear_arith)
                        requires
                            0 <= i < 27,
                            0 <= j < 27,
                            first < 27,
                            second < 27,
                            cell == first * 27 + second,
                    ;
                }
            }
            p = p + 1;
        }
        proof {
            assert(s.take(n as int) =~= s);
        }
        k = k + 1;
    }
    proof {
        assert(corpus.take(names@.len() as int) =~= corpus);
    }
    BigramCounts { cells, totals }
}

} // verus!
