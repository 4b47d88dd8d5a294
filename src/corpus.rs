//! Building a model straight from raw name strings.
use vstd::prelude::*;
use vstd::string::StrSliceExecFns;
use crate::alphabet::{all_symbols, char_to_index, symbol_of};
use crate::counts::{corpus_count, corpus_pairs, pairs_in, texts};
use crate::model::{create_bigram_matrix, BigramModel, Smoothing};
use crate::normalize::{clean_name, normalized};

verus! {

/// Why a corpus of raw names gives no model.
#[derive(Clone, Copy, Debug, PartialEq, Eq)]
pub enum ModelError {
    /// A cleaned name holds a letter outside `a` to `z`.
    UnsupportedLetter,
    /// The corpus holds more pairs than a 64-bit count can hold.
    CorpusTooLarge,
}

/// The normalized forms of a corpus of raw names.
pub open spec fn cleaned_corpus(names: Seq<String>) -> Seq<Seq<char>> {
    Seq::new(names.len(), |k: int| normalized(names[k]@))
}

/// Whether every name of a corpus is made of alphabet symbols.
pub open spec fn corpus_in_alphabet(corpus: Seq<Seq<char>>) -> bool {
    forall|k: int| 0 <= k < corpus.len() ==> all_symbols(#[trigger] corpus[k])
}

/// Whether a string is made of alphabet symbols alone.
pub fn in_alphabet(s: &str) -> (r: bool)
    ensures
        r == all_symbols(s@),
{
    let n = s.unicode_len();
    let mut i: usize = 0;
    while i < n
        invariant
            n == s@.len(),
            i <= n,
            forall|q: int| 0 <= q < i ==> symbol_of(#[trigger] s@[q]) is Some,
        decreases n - i,
    {
        if char_to_index(s.get_char(i)).is_none() {
            return false;
        }
        i = i + 1;
    }
    true
}

/// Normalizes every raw name and builds the smoothed model of the result.
/// Fails with `UnsupportedLetter` exactly when some cleaned name holds a
/// character outside the alphabet, and otherwise with `CorpusTooLarge`
/// exactly when the pairs of the corpus do not fit a 64-bit count.
pub fn build_model(names: &Vec<String>, smoothing: Smoothing) -> (r: Result<
    BigramModel,
    ModelError,
>)
    requires
        smoothing.denominator > 0,
    ensures
        r is Ok <==> corpus_in_alphabet(cleaned_corpus(names@)) && corpus_pairs(
            cleaned_corpus(names@),
        ) <= u64::MAX,
        r == Err::<BigramModel, ModelError>(ModelError::UnsupportedLetter) <==> !corpus_in_alphabet(
            cleaned_corpus(names@),
        ),
        r matches Ok(m) ==> {
            &&& m.wf()
            &&& m.smoothing == smoothing
            &&& forall|i: int, j: int|
                0 <= i < 27 && 0 <= j < 27 ==> #[trigger] m.count(i, j) == if i == 0 && j == 0 {
                    0
                } else {
                    corpus_count(cleaned_corpus(names@), i as nat, j as nat)
                }
        },
{
    let ghost corpus = cleaned_corpus(names@);
    let mut cleaned: Vec<String> = Vec::new();
    let mut supported = true;
    let mut fits = true;
    let mut pairs: u64 = 0;
    let mut k: usize = 0;
    proof {
        assert(corpus.take(0) =~= Seq::<Seq<char>>::empty());
    }
    while k < names.len()
        invariant
            corpus == cleaned_corpus(names@),
            k <= names@.len(),
            texts(cleaned@) =~= corpus.take(k as int),
            supported == corpus_in_alphabet(corpus.take(k as int)),
            fits ==> pairs == corpus_pairs(corpus.take(k as int)),
            !fits ==> corpus_pairs(corpus.take(k as int)) > u64::MAX,
        decreases names@.len() - k,
    {
        let c = clean_name(names[k].as_str());
        let ok = in_alphabet(c.as_str());
        let n = c.as_str().unicode_len();
        proof {
            assert(corpus.take(k + 1).drop_last() =~= corpus.take(k as int));
            assert(corpus[k as int] == c@);
        }
        let step: u64 = if n < 2 {
            0
        } else {
            (n - 1) as u64
        };
        assert(step == pairs_in(c@));
        if fits && pairs <= u64::MAX - step {
            pairs = pairs + step;
        } else {
            fits = false;
        }
        supported = supported && ok;
        let ghost before = cleaned@;
        cleaned.push(c);
        proof {
            assert(texts(cleaned@) =~= texts(before).push(c@));
            assert(corpus.take(k + 1) =~= corpus.take(k as int).push(c@));
        }
        k = k + 1;
    }
    proof {
        assert(corpus.take(names@.len() as int) =~= corpus);
    }
    if !supported {
        return Err(ModelError::UnsupportedLetter);
    }
    if !fits {
        return Err(ModelError::CorpusTooLarge);
    }
    assert(forall|q: int| 0 <= q < cleaned@.len() ==> #[trigger] cleaned@[q]@ == corpus[q]);
    Ok(create_bigram_matrix(&cleaned, smoothing))
}

} // verus!
