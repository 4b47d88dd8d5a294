//! The smoothed transition model: exact cell weights over exact row masses.
use vstd::prelude::*;
use crate::alphabet::{all_symbols, ALPHABET_SIZE};
use crate::counts::{
    count_bigrams, corpus_count, corpus_pairs, lemma_row_sum_nonneg, lemma_row_sum_update, row_sum, texts,
    BigramCounts, CELLS,
};

verus! {

/// The additive smoothing constant, the non-negative rational
/// `numerator / denominator`.
#[derive(Clone, Copy, Debug, PartialEq, Eq)]
pub struct Smoothing {
    pub numerator: u32,
    pub denominator: u32,
}

impl Smoothing {
    /// The smoothing constant `numerator / denominator`, or `None` when the
    /// denominator is zero.
    pub fn ratio(numerator: u32, denominator: u32) -> (r: Option<Smoothing>)
        ensures
            r is Some <==> denominator > 0,
            r matches Some(s) ==> s.numerator == numerator && s.denominator == denominator,
    {
        if denominator == 0 {
            None
        } else {
            Some(Smoothing { numerator, denominator })
        }
    }

    /// The whole-number smoothing constant `n`.
    pub fn whole(n: u32) -> (r: Smoothing)
        ensures
            r.numerator == n,
            r.denominator == 1,
    {
        Smoothing { numerator: n, denominator: 1 }
    }
}

/// A probability as the exact fraction `num / den`.
#[derive(Clone, Copy, Debug, PartialEq, Eq)]
pub struct Ratio {
    pub num: u128,
    pub den: u128,
}

/// A smoothed bigram model. The probability of `(i, j)` is
/// `weight(i, j) / mass(i)`, where, for smoothing `s = n / d` and observed
/// count `c`, `weight(i, j) = n + c * d`, that is `d * (s + c)`; the
/// boundary-to-boundary cell has weight zero.
pub struct BigramModel {
    pub smoothing: Smoothing,
    pub counts: BigramCounts,
}

impl BigramModel {
    /// The counts are a well-formed table and the boundary-to-boundary cell
    /// holds no count.
    pub open spec fn wf(&self) -> bool {
        &&& self.counts.wf()
        &&& self.counts.count(0, 0) == 0
    }

    /// The observed count of `(i, j)`.
    pub open spec fn count(&self, i: int, j: int) -> nat {
        self.counts.count(i, j)
    }

    /// The observed count of pairs starting with `i`.
    pub open spec fn total(&self, i: int) -> nat {
        self.counts.totals@[i] as nat
    }

    /// The smoothed weight of the cell `(i, j)`, scaled by the smoothing
    /// denominator.
    pub open spec fn weight(&self, i: int, j: int) -> nat {
        if i == 0 && j == 0 {
            0
        } else {
            (self.smoothing.numerator as nat + self.count(i, j) * self.smoothing.denominator as nat) as nat
        }
    }

    /// The number of cells of row `i` that take smoothing.
    pub open spec fn smoothed_cells(i: int) -> nat {
        if i == 0 {
            26
        } else {
            27
        }
    }

    /// The total weight of row `i`, scaled as the weights are.
    pub open spec fn mass(&self, i: int) -> nat {
        (Self::smoothed_cells(i) * self.smoothing.numerator as nat + self.total(i)
            * self.smoothing.denominator as nat) as nat
    }

    /// The sum of the first `n` weights of row `i`.
    pub open spec fn weight_sum(&self, i: int, n: int) -> nat
        decreases n,
    {
        if n <= 0 {
            0
        } else {
            self.weight_sum(i, n - 1) + self.weight(i, n - 1)
        }
    }

    /// The probability of `(i, j)` as a fraction.
    pub open spec fn prob(&self, i: int, j: int) -> (nat, nat) {
        (self.weight(i, j), self.mass(i))
    }

    /// The smoothed weight of `(first, second)`.
    pub fn weight_of(&self, first: usize, second: usize) -> (r: u128)
        requires
            self.wf(),
            first < ALPHABET_SIZE,
            second < ALPHABET_SIZE,
        ensures
            r == self.weight(first as int, second as int),
    {
        if first == 0 && second == 0 {
            return 0;
        }
        let c = self.counts.get(first, second);
        proof {
            assert(c as int * self.smoothing.denominator as int <= u64::MAX as int * u32::MAX as int)
                by (nonlinear_arith);
        }
        self.smoothing.numerator as u128 + c as u128 * self.smoothing.denominator as u128
    }

    /// The total weight of row `first`.
    pub fn mass_of(&self, first: usize) -> (r: u128)
        requires
            self.wf(),
            first < ALPHABET_SIZE,
        ensures
            r == self.mass(first as int),
    {
        let cells: u128 = if first == 0 {
            26
        } else {
            27
        };
        let t = self.counts.totals[first];
        proof {
            assert(t as int * self.smoothing.denominator as int <= u64::MAX as int * u32::MAX as int)
                by (nonlinear_arith);
        }
        cells * self.smoothing.numerator as u128 + t as u128 * self.smoothing.denominator as u128
    }

    /// The probability of the transition from `first` to `second`.
    pub fn probability(&self, first: usize, second: usize) -> (r: Ratio)
        requires
            self.wf(),
            first < ALPHABET_SIZE,
            second < ALPHABET_SIZE,
        ensures
            (r.num as nat, r.den as nat) == self.prob(first as int, second as int),
    {
        Ratio { num: self.weight_of(first, second), den: self.mass_of(first) }
    }
}

/// The sum of a sequence of weights.
pub open spec fn weights_total(w: Seq<u128>) -> int
    decreases w.len(),
{
    if w.len() == 0 {
        0
    } else {
        weights_total(w.drop_last()) + w.last()
    }
}

impl BigramModel {
    /// The 27 weights of row `first`, in column order.
    pub fn row_weights(&self, first: usize) -> (r: Vec<u128>)
        requires
            self.wf(),
            first < ALPHABET_SIZE,
        ensures
            r@.len() == ALPHABET_SIZE,
            forall|j: int| 0 <= j < 27 ==> #[trigger] r@[j] == self.weight(first as int, j),
            weights_total(r@) == self.mass(first as int),
            weights_total(r@) <= u128::MAX,
    {
        let mass = self.mass_of(first);
        let mut r: Vec<u128> = Vec::new();
        let mut j: usize = 0;
        while j < ALPHABET_SIZE
            invariant
                self.wf(),
                first < ALPHABET_SIZE,
                j <= ALPHABET_SIZE,
                r@.len() == j,
                forall|q: int| 0 <= q < j ==> #[trigger] r@[q] == self.weight(first as int, q),
                weights_total(r@) == self.weight_sum(first as int, j as int),
            decreases ALPHABET_SIZE - j,
        {
            let w = self.weight_of(first, j);
            let ghost before = r@;
            r.push(w);
            assert(r@.drop_last() =~= before);
            j = j + 1;
        }
        proof {
            lemma_rows_are_distributions(*self, first as int);
        }
        r
    }
}

/// The sum of the weights of a row is its mass, and the boundary-to-boundary
/// weight is zero: each row is a distribution, summing to one whenever its
/// mass is positive, which positive smoothing guarantees.
pub proof fn lemma_rows_are_distributions(m: BigramModel, i: int)
    requires
        m.wf(),
        0 <= i < 27,
    ensures
        m.weight_sum(i, 27) == m.mass(i),
        m.weight(0, 0) == 0,
        m.smoothing.numerator > 0 ==> m.mass(i) > 0,
{
    lemma_weight_sum(m, i, 27);
    assert(m.smoothing.numerator > 0 ==> m.mass(i) > 0) by (nonlinear_arith)
        requires
            m.mass(i) == BigramModel::smoothed_cells(i) * m.smoothing.numerator + m.total(i)
                * m.smoothing.denominator,
            BigramModel::smoothed_cells(i) >= 26,
    ;
}

proof fn lemma_weight_sum(m: BigramModel, i: int, n: int)
    requires
        m.wf(),
        0 <= i < 27,
        0 <= n <= 27,
    ensures
        m.weight_sum(i, n) == (if i == 0 && n > 0 {
            n - 1
        } else {
            n
        }) * m.smoothing.numerator + row_sum(m.counts.cells@, i, n) * m.smoothing.denominator,
    decreases n,
{
    if n > 0 {
        lemma_weight_sum(m, i, n - 1);
        let sn = m.smoothing.numerator as int;
        let sd = m.smoothing.denominator as int;
        let c = m.counts.cells@[i * 27 + n - 1] as int;
        let rs = row_sum(m.counts.cells@, i, n - 1);
        assert(m.count(i, n - 1) == c);
        assert(row_sum(m.counts.cells@, i, n) == rs + c);
        let k: int = if i == 0 && n > 0 { n - 1 } else { n };
        let k0: int = if i == 0 && n - 1 > 0 { n - 2 } else { n - 1 };
        let w = m.weight(i, n - 1) as int;
        if i == 0 && n == 1 {
            assert(c == 0);
            assert(w == 0);
            assert(rs == 0);
        } else {
            assert(w == sn + c * sd);
            assert(k == k0 + 1);
        }
        assert(k0 * sn + rs * sd + w == k * sn + (rs + c) * sd) by (nonlinear_arith)
            requires
                (k == k0 && c == 0 && w == 0) || (k == k0 + 1 && w == sn + c * sd),
        ;
        assert(m.weight_sum(i, n - 1) == k0 * sn + rs * sd);
        assert(m.weight_sum(i, n) == m.weight_sum(i, n - 1) + w);
        assert(row_sum(m.counts.cells@, i, n) == rs + c);
    } else {
        assert(0 * m.smoothing.numerator + 0 * m.smoothing.denominator == 0);
    }
}

proof fn lemma_expand(a: int, b: int, x: int, y: int)
    ensures
        (a + b) * (x + y) == a * x + a * y + b * x + b * y,
{
    assert((a + b) * (x + y) == a * x + a * y + b * x + b * y) by (nonlinear_arith);
}

proof fn lemma_regroup(a: int, b: int, c: int, d: int)
    ensures
        (a * b) * (c * d) == (a * c) * (b * d),
        (a * b) * (c * d) == (c * b) * (a * d),
{
    assert((a * b) * (c * d) == (a * c) * (b * d)) by (nonlinear_arith);
    assert((a * b) * (c * d) == (c * b) * (a * d)) by (nonlinear_arith);
}

proof fn lemma_cross_difference(n1: int, d1: int, n2: int, d2: int, c: int, k: int, t: int)
    ensures
        (n1 + c * d1) * (k * n2 + t * d2) - (n2 + c * d2) * (k * n1 + t * d1) == (n2 * d1 - n1
            * d2) * (c * k - t),
{
    lemma_expand(n1, c * d1, k * n2, t * d2);
    lemma_expand(n2, c * d2, k * n1, t * d1);
    lemma_expand(n2 * d1, -(n1 * d2), c * k, -t);
    assert(n1 * (k * n2) == n2 * (k * n1)) by (nonlinear_arith);
    lemma_regroup(c, d1, t, d2);
    lemma_regroup(c, d2, t, d1);
    assert((c * d1) * (k * n2) == (n2 * d1) * (c * k)) by (nonlinear_arith);
    assert((c * d2) * (k * n1) == (n1 * d2) * (c * k)) by (nonlinear_arith);
    assert(n1 * (t * d2) == (n1 * d2) * t) by (nonlinear_arith);
    assert(n2 * (t * d1) == (n2 * d1) * t) by (nonlinear_arith);
    assert((n2 * d1) * (-t) == -((n2 * d1) * t)) by (nonlinear_arith);
    assert((-(n1 * d2)) * (c * k) == -((n1 * d2) * (c * k))) by (nonlinear_arith);
    assert((-(n1 * d2)) * (-t) == (n1 * d2) * t) by (nonlinear_arith);
}

/// For a fixed corpus, a larger smoothing constant gives an unseen pair at
/// least the probability that a smaller one gives, and gives a pair whose
/// count is at least its row's share (`count * cells >= total`, `cells` the
/// number of smoothed cells of the row) at most that probability; a strictly
/// larger constant gives an unseen pair of an observed row strictly more. The
/// fractions are compared crosswise: `w1 / m1 <= w2 / m2` as
/// `w1 * m2 <= w2 * m1`.
pub proof fn lemma_smoothing_monotone(lo: BigramModel, hi: BigramModel, i: int, j: int)
    requires
        lo.wf(),
        hi.wf(),
        lo.counts.cells@ == hi.counts.cells@,
        lo.counts.totals@ == hi.counts.totals@,
        lo.smoothing.denominator > 0,
        hi.smoothing.denominator > 0,
        lo.smoothing.numerator * hi.smoothing.denominator <= hi.smoothing.numerator
            * lo.smoothing.denominator,
        0 <= i < 27,
        0 <= j < 27,
    ensures
        lo.count(i, j) == 0 ==> lo.weight(i, j) * hi.mass(i) <= hi.weight(i, j) * lo.mass(i),
        lo.count(i, j) * BigramModel::smoothed_cells(i) >= lo.total(i) ==> lo.weight(i, j)
            * hi.mass(i) >= hi.weight(i, j) * lo.mass(i),
        lo.count(i, j) == 0 && !(i == 0 && j == 0) && lo.total(i) > 0 && lo.smoothing.numerator
            * hi.smoothing.denominator < hi.smoothing.numerator * lo.smoothing.denominator
            ==> lo.weight(i, j) * hi.mass(i) < hi.weight(i, j) * lo.mass(i),
{
    let n1 = lo.smoothing.numerator as int;
    let d1 = lo.smoothing.denominator as int;
    let n2 = hi.smoothing.numerator as int;
    let d2 = hi.smoothing.denominator as int;
    let c = lo.count(i, j) as int;
    let t = lo.total(i) as int;
    let k = BigramModel::smoothed_cells(i) as int;
    assert(hi.count(i, j) == c);
    assert(hi.total(i) == t);
    let m1 = lo.mass(i) as int;
    let m2 = hi.mass(i) as int;
    assert(m1 == k * n1 + t * d1);
    assert(m2 == k * n2 + t * d2);
    if i == 0 && j == 0 {
        assert(lo.weight(i, j) == 0 && hi.weight(i, j) == 0);
        assert(c == 0);
        assert(c * k >= t ==> t == 0);
        assert(t == 0 ==> m1 * 0 == 0 && m2 * 0 == 0);
    } else {
        let w1 = n1 + c * d1;
        let w2 = n2 + c * d2;
        assert(lo.weight(i, j) == w1);
        assert(hi.weight(i, j) == w2);
        lemma_cross_difference(n1, d1, n2, d2, c, k, t);
        assert(w1 * m2 - w2 * m1 == (n2 * d1 - n1 * d2) * (c * k - t));
        assert(c == 0 ==> (n2 * d1 - n1 * d2) * (c * k - t) <= 0) by (nonlinear_arith)
            requires
                n1 * d2 <= n2 * d1,
                t >= 0,
        ;
        assert(c * k >= t ==> (n2 * d1 - n1 * d2) * (c * k - t) >= 0) by (nonlinear_arith)
            requires
                n1 * d2 <= n2 * d1,
        ;
        assert(c == 0 && t > 0 && n1 * d2 < n2 * d1 ==> (n2 * d1 - n1 * d2) * (c * k - t) < 0)
            by (nonlinear_arith);
    }
}

/// Builds the smoothed model of a corpus of normalized names. Every observed
/// pair counts once, except the boundary-to-boundary pair, which is never
/// counted nor smoothed.
pub fn create_bigram_matrix(names: &Vec<String>, smoothing: Smoothing) -> (r: BigramModel)
    requires
        smoothing.denominator > 0,
        forall|k: int| 0 <= k < names@.len() ==> all_symbols(#[trigger] names@[k]@),
        corpus_pairs(texts(names@)) <= u64::MAX,
    ensures
        r.wf(),
        r.smoothing == smoothing,
        forall|i: int, j: int|
            0 <= i < 27 && 0 <= j < 27 ==> #[trigger] r.count(i, j) == if i == 0 && j == 0 {
                0
            } else {
                corpus_count(texts(names@), i as nat, j as nat)
            },
{
    let counts = count_bigrams(names);
    let ghost counted = counts;
    let BigramCounts { mut cells, mut totals } = counts;
    let self_loops = cells[0];
    let ghost before = cells@;
    proof {
        assert(before[0] == before[0int * 27 + 0]);
        assert forall|i: int| 0 <= i < 27 implies #[trigger] row_sum(before.update(0, 0), i, 27)
            == row_sum(before, i, 27) - if i == 0 {
            before[0] as int
        } else {
            0
        } by {
            lemma_row_sum_update(before, 0, 0, 0, i, 27);
        }
        lemma_row_sum_nonneg(before.update(0, 0), 0, 27);
    }
    cells.set(0, 0);
    let t0 = totals[0];
    totals.set(0, t0 - self_loops);
    let r = BigramModel { smoothing, counts: BigramCounts { cells, totals } };
    assert forall|i: int, j: int| 0 <= i < 27 && 0 <= j < 27 && !(i == 0 && j == 0) implies
        #[trigger] r.count(i, j) == corpus_count(texts(names@), i as nat, j as nat) by {
        assert(counted.count(i, j) == corpus_count(texts(names@), i as nat, j as nat));
        assert(i * 27 + j != 0) by (nonlinear_arith)
            requires
                0 <= i < 27,
                0 <= j < 27,
                !(i == 0 && j == 0),
        ;
    }
    assert(r.counts.cells@.len() == CELLS);
    r
}

} // verus!
