//! The closed alphabet of the model: index 0 is the boundary symbol `.`,
//! indices 1 to 26 are the letters `a` to `z`.
use vstd::prelude::*;

verus! {

/// Number of symbols in the alphabet.
pub const ALPHABET_SIZE: usize = 27;

/// The character that marks the start and the end of a name.
pub const BOUNDARY: char = '.';

/// The index of a character in the alphabet, if it has one.
pub open spec fn symbol_of(c: char) -> Option<nat> {
    if c == '.' {
        Some(0)
    } else if 'a' <= c && c <= 'z' {
        Some((c as nat - 'a' as nat + 1) as nat)
    } else {
        None
    }
}

/// The character that stands for an index of the alphabet.
pub open spec fn char_of(index: nat) -> char {
    if index == 0 {
        '.'
    } else {
        ((index + 'a' as nat - 1) as u8) as char
    }
}

/// Whether `c` is one of the 27 symbols.
pub open spec fn is_symbol(c: char) -> bool {
    symbol_of(c) is Some
}

/// Whether `c` is a lowercase letter `a` to `z`.
pub open spec fn is_letter(c: char) -> bool {
    'a' <= c && c <= 'z'
}

/// Whether every character of `s` belongs to the alphabet.
pub open spec fn all_symbols(s: Seq<char>) -> bool {
    forall|k: int| 0 <= k < s.len() ==> is_symbol(#[trigger] s[k])
}

/// The index of a character known to belong to the alphabet.
pub open spec fn index_of(c: char) -> nat {
    match symbol_of(c) {
        Some(i) => i,
        None => 0,
    }
}

/// The mapping between indices and characters is a bijection on `0..27`.
pub proof fn lemma_symbol_round_trip(index: nat)
    requires
        index < 27,
    ensures
        symbol_of(char_of(index)) == Some(index),
        is_symbol(char_of(index)),
        index > 0 ==> is_letter(char_of(index)),
{
}

/// Every symbol maps back to itself through its index.
pub proof fn lemma_char_round_trip(c: char)
    requires
        is_symbol(c),
    ensures
        index_of(c) < 27,
        char_of(index_of(c)) == c,
{
}

/// The character of an alphabet index.
pub fn int_to_char(index: usize) -> (r: char)
    requires
        index < ALPHABET_SIZE,
    ensures
        r == char_of(index as nat),
        symbol_of(r) == Some(index as nat),
{
    if index == 0 {
        return BOUNDARY;
    }
    ((index as u8) + 96) as char
}

/// The alphabet index of a character, or `None` for a character outside it.
pub fn char_to_index(c: char) -> (r: Option<usize>)
    ensures
        r matches Some(i) ==> symbol_of(c) == Some(i as nat) && i < ALPHABET_SIZE,
        r is None <==> symbol_of(c) is None,
{
    if c == BOUNDARY {
        Some(0)
    } else if 'a' <= c && c <= 'z' {
        Some((c as u32 - 96) as usize)
    } else {
        None
    }
}

} // verus!
