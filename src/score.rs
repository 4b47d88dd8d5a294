//! The likelihood of a word under a model, as its exact transition factors.
use vstd::prelude::*;
use vstd::string::StrSliceExecFns;
use crate::alphabet::{all_symbols, char_to_index, index_of, symbol_of};
use crate::model::{BigramModel, Ratio};

verus! {

/// The probability of the `k`-th transition of `word`.
pub open spec fn transition(m: BigramModel, word: Seq<char>, k: int) -> (nat, nat) {
    m.prob(index_of(word[k]) as int, index_of(word[k + 1]) as int)
}

/// The number of adjacent pairs of a word.
pub open spec fn transitions_in(word: Seq<char>) -> nat {
    if word.len() < 2 {
        0
    } else {
        (word.len() - 1) as nat
    }
}

/// The probability of each adjacent pair of `word`, in order.
pub open spec fn word_factors(m: BigramModel, word: Seq<char>) -> Seq<(nat, nat)> {
    Seq::new(transitions_in(word), |k: int| transition(m, word, k))
}

/// The product of a sequence of fractions, as numerator and denominator;
/// the empty product is `1 / 1`.
pub open spec fn product(f: Seq<(nat, nat)>) -> (nat, nat)
    decreases f.len(),
{
    if f.len() == 0 {
        (1, 1)
    } else {
        let rest = product(f.drop_last());
        (rest.0 * f.last().0, rest.1 * f.last().1)
    }
}

/// Whether `r` is the sequence of transition factors of `word` under `m`.
pub open spec fn factors_of(r: Seq<Ratio>, m: BigramModel, word: Seq<char>) -> bool {
    &&& r.len() == transitions_in(word)
    &&& forall|k: int|
        0 <= k < r.len() ==> (#[trigger] r[k].num as nat, r[k].den as nat) == transition(
            m,
            word,
            k,
        )
}

/// The likelihood of a word: the probability of each of its adjacent pairs,
/// whose product is the likelihood (see `product`). A word shorter than two
/// characters has no pair, so its likelihood is the empty product, one.
pub fn likelihood_of_word(word: &str, model: &BigramModel) -> (r: Vec<Ratio>)
    requires
        model.wf(),
        all_symbols(word@),
    ensures
        factors_of(r@, *model, word@),
{
    let n = word.unicode_len();
    let mut r: Vec<Ratio> = Vec::new();
    if n < 2 {
        return r;
    }
    let mut k: usize = 0;
    while k + 1 < n
        invariant
            n == word@.len(),
            n >= 2,
            k + 1 <= n,
            model.wf(),
            all_symbols(word@),
            r@.len() == k,
            forall|q: int|
                0 <= q < k ==> (#[trigger] r@[q].num as nat, r@[q].den as nat) == transition(
                    *model,
                    word@,
                    q,
                ),
        decreases n - k,
    {
        let a = word.get_char(k);
        let b = word.get_char(k + 1);
        assert(symbol_of(word@[k as int]) is Some);
        assert(symbol_of(word@[k + 1]) is Some);
        let first = match char_to_index(a) {
            Some(x) => x,
            None => 0,
        };
        let second = match char_to_index(b) {
            Some(x) => x,
            None => 0,
        };
        let p = model.probability(first, second);
        r.push(p);
        k = k + 1;
    }
    r
}

/// Scoring is deterministic: two results for the same word and model are
/// the same factors.
pub proof fn lemma_score_deterministic(
    m: BigramModel,
    word: Seq<char>,
    r1: Seq<Ratio>,
    r2: Seq<Ratio>,
)
    requires
        factors_of(r1, m, word),
        factors_of(r2, m, word),
    ensures
        r1 == r2,
{
    assert forall|k: int| 0 <= k < r1.len() implies r1[k] == r2[k] by {
        assert((r1[k].num as nat, r1[k].den as nat) == transition(m, word, k));
        assert((r2[k].num as nat, r2[k].den as nat) == transition(m, word, k));
    }
    assert(r1 =~= r2);
}

/// The word made of two boundary symbols has the single factor of the
/// boundary-to-boundary cell, so its likelihood is zero; a word shorter than
/// two characters has the empty product, one.
pub proof fn lemma_degenerate_words(m: BigramModel, word: Seq<char>)
    requires
        m.wf(),
    ensures
        product(word_factors(m, seq!['.', '.'])).0 == 0,
        word_factors(m, seq!['.', '.']).len() == 1,
        word.len() < 2 ==> product(word_factors(m, word)) == (1nat, 1nat),
{
    let f = word_factors(m, seq!['.', '.']);
    assert(f.len() == 1);
    assert(f[0] == m.prob(0, 0));
    assert(f.drop_last().len() == 0);
    assert(product(f.drop_last()) == (1nat, 1nat));
    assert(f.last().0 == 0);
    assert(product(f).0 == 1nat * f.last().0);
    if word.len() < 2 {
        assert(word_factors(m, word).len() == 0);
    }
}

} // verus!
