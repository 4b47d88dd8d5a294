//! Generating names by walking the model as a Markov chain.
use vstd::prelude::*;
use rand::distributions::{Distribution, WeightedError, WeightedIndex};
use crate::alphabet::{
    char_of, index_of, int_to_char, is_letter, lemma_char_round_trip, lemma_symbol_round_trip,
    BOUNDARY,
};
use crate::model::{lemma_rows_are_distributions, weights_total, BigramModel};
use crate::normalize::{is_normalized_name, push_char};

verus! {

#[verifier::external_type_specification]
#[verifier::external_body]
pub struct ExWeightedError(WeightedError);

/// Why generation stopped without a name.
#[derive(Clone, Copy, Debug, PartialEq, Eq)]
pub enum GenerateError {
    /// A row to draw from had no weight at all.
    InvalidDistribution,
    /// The name reached the length limit before its closing boundary.
    TooLong,
}

/// Relies on rand's `WeightedIndex::new` and `WeightedIndex::sample`, drawn
/// with `thread_rng`: construction fails exactly when there is no weight or
/// all weights are zero (unsigned weights are never invalid); a draw returns
/// an index whose weight is positive, since it picks the first index whose
/// running total exceeds a uniform value below the total. Summing the
/// weights must not overflow.
#[verifier::external_body]
fn sample_next_char(weights: &Vec<u128>) -> (r: Result<usize, WeightedError>)
    requires
        weights_total(weights@) <= u128::MAX,
    ensures
        (r is Ok) == (weights@.len() > 0 && weights_total(weights@) > 0),
        r is Ok ==> r->Ok_0 < weights@.len() && weights@[r->Ok_0 as int] > 0,
{
    let dist = WeightedIndex::new(weights.iter())?;
    Ok(dist.sample(&mut rand::thread_rng()))
}

/// Whether every transition of `s` has positive weight under `m`.
pub open spec fn feasible(m: BigramModel, s: Seq<char>) -> bool {
    forall|q: int|
        0 <= q < s.len() - 1 ==> m.weight(index_of(#[trigger] s[q]) as int, index_of(s[q + 1]) as int)
            > 0
}

/// Generates one name: starting at the boundary, draws each next symbol from
/// the row of the current one until the boundary is drawn. The result is a
/// normalized name with at least one letter, no two adjacent boundary
/// symbols, and only transitions of positive weight: exactly the name that
/// its own draws produce (see `name_from_draws`). It has at most `max_len`
/// characters. `TooLong` comes when the boundary is not drawn in time, and
/// always when `max_len <= 1`; `InvalidDistribution` comes when a row to draw
/// from has no weight, always when the boundary row has none, and never
/// under positive smoothing.
pub fn generate(model: &BigramModel, max_len: usize) -> (r: Result<String, GenerateError>)
    requires
        model.wf(),
    ensures
        r matches Ok(s) ==> {
            &&& is_normalized_name(s@)
            &&& 3 <= s@.len() <= max_len
            &&& forall|q: int| 0 <= q < s@.len() - 1 ==> !(#[trigger] s@[q] == '.' && s@[q + 1] == '.')
            &&& feasible(*model, s@)
            &&& drawn_name(*model, draws_of(s@)) == Ok::<Seq<char>, GenerateError>(s@)
        },
        max_len < 3 ==> r is Err,
        max_len <= 1 ==> r == Err::<String, GenerateError>(GenerateError::TooLong),
        max_len >= 2 && model.mass(0) == 0 ==> r == Err::<String, GenerateError>(
            GenerateError::InvalidDistribution,
        ),
        model.smoothing.numerator > 0 ==> r != Err::<String, GenerateError>(
            GenerateError::InvalidDistribution,
        ),
{
    let mut name = String::new();
    push_char(&mut name, BOUNDARY);
    let mut len: usize = 1;
    let mut current: usize = 0;
    while len < max_len
        invariant
            model.wf(),
            name@.len() == len,
            1 <= len,
            len <= max_len || len == 1,
            name@[0] == '.',
            forall|q: int| 0 < q < len ==> is_letter(#[trigger] name@[q]),
            current < 27,
            current == index_of(name@[len - 1]),
            feasible(*model, name@),
            max_len >= 2 && model.mass(0) == 0 ==> len == 1,
        decreases max_len - len,
    {
        proof {
            lemma_rows_are_distributions(*model, current as int);
        }
        let weights = model.row_weights(current);
        let next = match sample_next_char(&weights) {
            Ok(i) => i,
            Err(_) => {
                return Err(GenerateError::InvalidDistribution);
            },
        };
        assert(model.weight(current as int, next as int) > 0);
        let c = int_to_char(next);
        let ghost before = name@;
        push_char(&mut name, c);
        proof {
            lemma_symbol_round_trip(next as nat);
            assert(name@[len as int] == c);
            assert forall|q: int| 0 <= q < name@.len() - 1 implies model.weight(
                index_of(#[trigger] name@[q]) as int,
                index_of(name@[q + 1]) as int,
            ) > 0 by {
                if q < len - 1 {
                    assert(name@[q] == before[q] && name@[q + 1] == before[q + 1]);
                }
            }
        }
        if next == 0 {
            proof {
                assert(current != 0);
                assert(len >= 2);
                assert forall|q: int| 0 <= q < name@.len() - 1 implies !(#[trigger] name@[q] == '.'
                    && name@[q + 1] == '.') by {
                    if q > 0 {
                        assert(is_letter(name@[q]));
                    } else {
                        assert(is_letter(name@[1]));
                    }
                }
                lemma_name_is_its_draws(*model, name@);
            }
            return Ok(name);
        }
        current = next;
        len = len + 1;
    }
    Err(GenerateError::TooLong)
}

/// `p` in front of a successful walk; an error stays as it is.
pub open spec fn prepend(p: Seq<char>, r: Result<Seq<char>, GenerateError>) -> Result<
    Seq<char>,
    GenerateError,
> {
    match r {
        Ok(t) => Ok(p + t),
        Err(e) => Err(e),
    }
}

/// The characters that the draws from position `k` on produce, starting in
/// state `current`: each draw must be an alphabet index of positive weight
/// in the current row, else `InvalidDistribution`; the walk ends with the
/// first boundary drawn, and runs out with `TooLong`.
pub open spec fn walk_from(m: BigramModel, draws: Seq<usize>, k: int, current: nat) -> Result<
    Seq<char>,
    GenerateError,
>
    decreases draws.len() - k,
{
    if k < 0 || k >= draws.len() {
        Err(GenerateError::TooLong)
    } else {
        let d = draws[k];
        if d >= 27 || m.weight(current as int, d as int) == 0 {
            Err(GenerateError::InvalidDistribution)
        } else if d == 0 {
            Ok(seq!['.'])
        } else {
            prepend(seq![char_of(d as nat)], walk_from(m, draws, k + 1, d as nat))
        }
    }
}

/// The name that a sequence of draws produces from the starting boundary.
pub open spec fn drawn_name(m: BigramModel, draws: Seq<usize>) -> Result<Seq<char>, GenerateError> {
    prepend(seq!['.'], walk_from(m, draws, 0, 0))
}

proof fn lemma_prepend_twice(p: Seq<char>, q: Seq<char>, r: Result<Seq<char>, GenerateError>)
    ensures
        prepend(p, prepend(q, r)) == prepend(p + q, r),
{
    if let Ok(t) = r {
        assert(p + (q + t) =~= (p + q) + t);
    }
}

/// The draws that produce a name: the index of each character after the
/// first.
pub open spec fn draws_of(s: Seq<char>) -> Seq<usize> {
    Seq::new((s.len() - 1) as nat, |k: int| index_of(s[k + 1]) as usize)
}

proof fn lemma_walk_of_name(m: BigramModel, s: Seq<char>, k: int)
    requires
        is_normalized_name(s),
        feasible(m, s),
        0 <= k < s.len() - 1,
    ensures
        walk_from(m, draws_of(s), k, index_of(s[k])) == Ok::<Seq<char>, GenerateError>(
            s.subrange(k + 1, s.len() as int),
        ),
    decreases s.len() - k,
{
    let d = draws_of(s);
    let c = s[k + 1];
    if k + 1 < s.len() - 1 {
        assert(is_letter(c));
        lemma_char_round_trip(c);
        lemma_walk_of_name(m, s, k + 1);
        assert(d[k] == index_of(c));
        assert(d[k] != 0);
        assert(seq![c] + s.subrange(k + 2, s.len() as int) =~= s.subrange(k + 1, s.len() as int));
    } else {
        assert(c == '.');
        assert(d[k] == 0);
        assert(seq!['.'] =~= s.subrange(k + 1, s.len() as int));
    }
}

/// A name whose inner characters are letters and whose transitions all have
/// positive weight is exactly what its own draws produce.
pub proof fn lemma_name_is_its_draws(m: BigramModel, s: Seq<char>)
    requires
        is_normalized_name(s),
        feasible(m, s),
    ensures
        drawn_name(m, draws_of(s)) == Ok::<Seq<char>, GenerateError>(s),
{
    lemma_walk_of_name(m, s, 0);
    assert(seq!['.'] + s.subrange(1, s.len() as int) =~= s);
}

/// Generates one name from given draws instead of random ones: the same
/// walk as `generate`, where the `k`-th step takes `draws[k]`. The result is
/// exactly `drawn_name`; a name that comes out is a normalized name whose
/// transitions all have positive weight.
pub fn name_from_draws(model: &BigramModel, draws: &Vec<usize>) -> (r: Result<String, GenerateError>)
    requires
        model.wf(),
    ensures
        r matches Ok(s) ==> drawn_name(*model, draws@) == Ok::<Seq<char>, GenerateError>(s@),
        r matches Err(e) ==> drawn_name(*model, draws@) == Err::<Seq<char>, GenerateError>(e),
        r matches Ok(s) ==> {
            &&& is_normalized_name(s@)
            &&& s@.len() >= 3
            &&& forall|q: int| 0 <= q < s@.len() - 1 ==> !(#[trigger] s@[q] == '.' && s@[q + 1] == '.')
            &&& feasible(*model, s@)
        },
{
    let mut name = String::new();
    push_char(&mut name, BOUNDARY);
    let mut current: usize = 0;
    let mut k: usize = 0;
    proof {
        assert(seq!['.'] + Seq::<char>::empty() =~= seq!['.']);
        lemma_prepend_twice(seq!['.'], Seq::empty(), walk_from(*model, draws@, 0, 0));
    }
    while k < draws.len()
        invariant
            model.wf(),
            k <= draws@.len(),
            name@.len() == k + 1,
            name@[0] == '.',
            forall|q: int| 0 < q < name@.len() ==> is_letter(#[trigger] name@[q]),
            current < 27,
            current == index_of(name@[k as int]),
            feasible(*model, name@),
            drawn_name(*model, draws@) == prepend(name@, walk_from(*model, draws@, k as int, current as nat)),
        decreases draws@.len() - k,
    {
        let d = draws[k];
        if d >= 27 {
            return Err(GenerateError::InvalidDistribution);
        }
        if model.weight_of(current, d) == 0 {
            return Err(GenerateError::InvalidDistribution);
        }
        let c = int_to_char(d);
        let ghost before = name@;
        push_char(&mut name, c);
        proof {
            lemma_symbol_round_trip(d as nat);
            lemma_prepend_twice(before, seq![c], walk_from(*model, draws@, k + 1, d as nat));
            assert(before + seq![c] =~= name@);
            assert forall|q: int| 0 <= q < name@.len() - 1 implies model.weight(
                index_of(#[trigger] name@[q]) as int,
                index_of(name@[q + 1]) as int,
            ) > 0 by {
                if q < k {
                    assert(name@[q] == before[q] && name@[q + 1] == before[q + 1]);
                }
            }
        }
        if d == 0 {
            proof {
                assert(current != 0);
                assert(k >= 1);
                assert forall|q: int| 0 <= q < name@.len() - 1 implies !(#[trigger] name@[q] == '.'
                    && name@[q + 1] == '.') by {
                    if q > 0 {
                        assert(is_letter(name@[q]));
                    } else {
                        assert(is_letter(name@[1]));
                    }
                }
            }
            return Ok(name);
        }
        current = d;
        k = k + 1;
    }
    Err(GenerateError::TooLong)
}

} // verus!
