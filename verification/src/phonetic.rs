//! Phonetic codes of keywords, taken from the double metaphone encoder of
//! the `nlp` crate.

use vstd::prelude::*;
use crate::text::{chars_of, is_digit, is_lower};

verus! {

/// The primary and the alternate code that the encoder gives for `word`,
/// or `None` where it gives none.
pub uninterp spec fn double_metaphone_codes(word: Seq<char>) -> Option<(Seq<char>, Seq<char>)>;

/// The word ends in `a`, `o`, `as` or `os`.
pub open spec fn ends_open(word: Seq<char>) -> bool {
    let last = word[word.len() - 1];
    let before = word[word.len() - 2];
    last == 'a' || last == 'o' || (last == 's' && (before == 'a' || before == 'o'))
}

/// After a leading `cc` comes `i`, `e` or `h`, but neither `ia` nor `hu`.
pub open spec fn soft_after_cc(word: Seq<char>) -> bool {
    (word[2] == 'i' || word[2] == 'e' || word[2] == 'h') && !(word[2] == 'h' && word[3] == 'u')
        && !(word[2] == 'i' && word[3] == 'a')
}

/// The words that are given a phonetic code: keywords of more than four
/// characters, but for three shapes on which the encoder looks in front of
/// the first letter of the word: an `x` in second place, a leading `ll`
/// before an open ending, and a leading `cc` before a soft vowel or `h`.
pub open spec fn encodable(word: Seq<char>) -> bool {
    &&& word.len() > 4
    &&& forall|i: int| 0 <= i < word.len() ==> is_lower(#[trigger] word[i]) || is_digit(word[i])
    &&& word[1] != 'x'
    &&& !(word[0] == 'l' && word[1] == 'l' && ends_open(word))
    &&& !(word[0] == 'c' && word[1] == 'c' && soft_after_cc(word))
}

/// The codes under which `word` is filed, if it is filed at all.
pub open spec fn codes_of(word: Seq<char>) -> Option<(Seq<char>, Seq<char>)> {
    if encodable(word) {
        double_metaphone_codes(word)
    } else {
        None
    }
}

/// A pair of codes as character sequences.
pub open spec fn codes_view(codes: Option<(String, String)>) -> Option<(Seq<char>, Seq<char>)> {
    match codes {
        Some(pair) => Some((pair.0@, pair.1@)),
        None => None,
    }
}

/// Calls `nlp::phonetics::metaphone::double_metaphone::double_metaphone`
/// and hands out the two codes of its result. The encoder works on the
/// word alone, so its result is named by [`double_metaphone_codes`]; what
/// the codes look like is not stated. On the shapes that [`encodable`]
/// leaves out the encoder subtracts from the position zero, which stops a
/// build that checks arithmetic.
#[verifier::external_body]
fn double_metaphone(word: &str) -> (codes: Option<(String, String)>)
    requires
        encodable(word@),
    ensures
        codes_view(codes) == double_metaphone_codes(word@),
{
    nlp::phonetics::metaphone::double_metaphone::double_metaphone(word).map(
        |r| (r.primary, r.alternate),
    )
}

/// Whether `word` is [`encodable`].
pub fn is_encodable(word: &str) -> (r: bool)
    ensures
        r == encodable(word@),
{
    let w = chars_of(word);
    let n: usize = w.len();
    if n <= 4 {
        return false;
    }
    let mut i: usize = 0;
    while i < n
        invariant
            i <= n,
            n == w.len(),
            n > 4,
            w@ == word@,
            forall|k: int| 0 <= k < i ==> is_lower(#[trigger] w@[k]) || is_digit(w@[k]),
        decreases n - i,
    {
        let c = w[i];
        if !((c >= 'a' && c <= 'z') || (c >= '0' && c <= '9')) {
            assert(!(is_lower(word@[i as int]) || is_digit(word@[i as int])));
            return false;
        }
        i += 1;
    }
    if w[1] == 'x' {
        return false;
    }
    let last = w[n - 1];
    let before = w[n - 2];
    if w[0] == 'l' && w[1] == 'l' && (last == 'a' || last == 'o' || (last == 's' && (before == 'a'
        || before == 'o'))) {
        return false;
    }
    if w[0] == 'c' && w[1] == 'c' && (w[2] == 'i' || w[2] == 'e' || w[2] == 'h') && !(w[2] == 'h'
        && w[3] == 'u') && !(w[2] == 'i' && w[3] == 'a') {
        return false;
    }
    true
}

/// The phonetic codes of a keyword: those of the encoder where the word is
/// [`encodable`], none otherwise.
pub fn phonetic_codes(word: &str) -> (codes: Option<(String, String)>)
    ensures
        codes_view(codes) == codes_of(word@),
{
    if is_encodable(word) {
        double_metaphone(word)
    } else {
        None
    }
}

} // verus!
