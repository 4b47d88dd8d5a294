//! Turning raw name strings into boundary-delimited lowercase names.
use vstd::prelude::*;
use vstd::string::StrSliceExecFns;
use vstd::string::StringExecFns;
use crate::alphabet::{all_symbols, is_letter, BOUNDARY};

verus! {

/// Whether `char::is_alphabetic` holds of a character.
pub uninterp spec fn alphabetic(c: char) -> bool;

/// What `str::to_lowercase` returns for a string.
pub uninterp spec fn lowercase_of(s: Seq<char>) -> Seq<char>;

/// Relies on `char::is_alphabetic`: whether the character has Unicode's Alphabetic property.
#[verifier::external_body]
fn is_alphabetic(c: char) -> (r: bool)
    ensures
        r == alphabetic(c),
{
    c.is_alphabetic()
}

/// Relies on `str::to_lowercase`: the lowercase mapping of the whole string,
/// a function of its characters alone; the empty string stays empty.
#[verifier::external_body]
fn to_lowercase(s: &str) -> (r: String)
    ensures
        r@ == lowercase_of(s@),
        s@.len() == 0 ==> r@.len() == 0,
{
    s.to_lowercase()
}

/// Relies on `String::push`: appends one character at the end.
#[verifier::external_body]
pub(crate) fn push_char(s: &mut String, c: char)
    ensures
        final(s)@ == old(s)@.push(c),
{
    s.push(c)
}

/// The characters of `s` that are alphabetic, in order.
pub open spec fn alphabetic_only(s: Seq<char>) -> Seq<char> {
    s.filter(|c: char| alphabetic(c))
}

/// The normalized form of a raw name: the lowercased alphabetic content
/// between two boundary symbols.
pub open spec fn normalized(s: Seq<char>) -> Seq<char> {
    seq!['.'] + lowercase_of(alphabetic_only(s)) + seq!['.']
}

/// Whether a sequence is a normalized name: it starts and ends with the
/// boundary symbol and holds only letters in between.
pub open spec fn is_normalized_name(s: Seq<char>) -> bool {
    &&& s.len() >= 2
    &&& s[0] == '.'
    &&& s[s.len() - 1] == '.'
    &&& forall|k: int| 0 < k < s.len() - 1 ==> is_letter(#[trigger] s[k])
}

/// Cleans a raw name: keeps its alphabetic characters, lowercases them and
/// wraps the result in boundary symbols. An input with no alphabetic
/// character gives `..`.
pub fn clean_name(name: &str) -> (r: String)
    ensures
        r@ == normalized(name@),
        alphabetic_only(name@).len() == 0 ==> r@ == seq!['.', '.'],
{
    let n = name.unicode_len();
    let mut letters = String::new();
    let mut i: usize = 0;
    while i < n
        invariant
            n == name@.len(),
            i <= n,
            letters@ == alphabetic_only(name@.take(i as int)),
        decreases n - i,
    {
        let c = name.get_char(i);
        proof {
            assert(name@.take(i + 1).drop_last() =~= name@.take(i as int));
            assert(name@.take(i + 1).last() == c);
            reveal(Seq::filter);
        }
        if is_alphabetic(c) {
            push_char(&mut letters, c);
        }
        i = i + 1;
    }
    proof {
        assert(name@.take(n as int) =~= name@);
    }
    let lowered = to_lowercase(letters.as_str());
    let mut r = String::new();
    push_char(&mut r, BOUNDARY);
    r.append(lowered.as_str());
    push_char(&mut r, BOUNDARY);
    proof {
        assert(r@ =~= normalized(name@));
        if alphabetic_only(name@).len() == 0 {
            assert(r@ =~= seq!['.', '.']);
        }
    }
    r
}

/// Every normalized form has at least two characters and starts and ends
/// with the boundary symbol.
pub proof fn lemma_normalized_is_delimited(name: Seq<char>)
    ensures
        normalized(name).len() >= 2,
        normalized(name)[0] == '.',
        normalized(name)[normalized(name).len() - 1] == '.',
{
}

/// A normalized form is a normalized name made of alphabet symbols alone
/// whenever the lowercased alphabetic content is made of the letters `a` to
/// `z`.
pub proof fn lemma_clean_name_shape(name: Seq<char>)
    requires
        forall|k: int|
            0 <= k < lowercase_of(alphabetic_only(name)).len() ==> is_letter(
                #[trigger] lowercase_of(alphabetic_only(name))[k],
            ),
    ensures
        is_normalized_name(normalized(name)),
        all_symbols(normalized(name)),
{
    let content = lowercase_of(alphabetic_only(name));
    let s = normalized(name);
    assert forall|k: int| 0 < k < s.len() - 1 implies is_letter(#[trigger] s[k]) by {
        assert(s[k] == content[k - 1]);
    }
}

} // verus!
