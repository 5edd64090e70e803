//! Capital letters at the start of a text and of each of its parts.

use crate::pieces::{
    join_with, joined, lemma_split_then_joined, lemma_split_weight, split, split_on, texts,
};
use capitalize::Capitalize;
use vstd::prelude::*;

verus! {

/// The upper-case form of a character, as `Capitalize::capitalize_first_only`
/// writes it for the first character of a string. It may be more than one
/// character long.
pub uninterp spec fn uppercase_of(c: char) -> Seq<char>;

/// A text with its first character in upper case and the rest as it was.
/// The empty text stays empty.
pub open spec fn capitalized(text: Seq<char>) -> Seq<char> {
    if text.len() == 0 {
        text
    } else {
        uppercase_of(text.first()) + text.drop_first()
    }
}

/// Every part with its first character in upper case.
pub open spec fn each_capitalized(parts: Seq<Seq<char>>) -> Seq<Seq<char>> {
    Seq::new(parts.len(), |i: int| capitalized(parts[i]))
}

/// `Capitalize::capitalize_first_only` gives the empty string for the
/// empty string. For any other it writes the upper-case form of the first
/// character, which depends on that character alone, and behind it the
/// other characters unchanged.
#[verifier::external_body]
fn first_to_upper(s: &str) -> (upper: String)
    ensures
        s@.len() == 0 ==> upper@ == s@,
        s@.len() > 0 ==> upper@ == uppercase_of(s@.first()) + s@.drop_first(),
{
    s.capitalize_first_only()
}

/// Capitalizes a string: its first character goes to upper case, all others
/// stay as they are.
pub fn capitalize_string(s: &str) -> (capital: String)
    ensures
        capital@ == capitalized(s@),
{
    first_to_upper(s)
}

/// Capitalizes every part of `s` between the occurrences of `sep`: the
/// parts are cut out, each is capitalized by itself, and they are put
/// together again with `sep` between them, as many and in the same order.
#[allow(unused_variables)]
pub fn capitalize_each_substring(s: &str, sep: &str) -> (capital: String)
    ensures
        capital@ == joined(each_capitalized(split(s@, sep@)), sep@),
{
    let parts = split_on(s, sep);
    let mut capitals: Vec<String> = Vec::new();
    let mut done: usize = 0;
    while done < parts.len()
        invariant
            done <= parts.len(),
            capitals.len() == done,
            texts(capitals@) == each_capitalized(texts(parts@).take(done as int)),
        decreases parts.len() - done,
    {
        let capital = capitalize_string(parts[done].as_str());
        proof {
            assert(texts(capitals@.push(capital)) == texts(capitals@).push(capital@));
        }
        capitals.push(capital);
        done = done + 1;
    }
    // The length of `s` in bytes, which fits in `usize`: so does the room
    // that joining asks for.
    let size: usize = s.as_bytes().len();
    proof {
        assert(texts(parts@).take(parts@.len() as int) == texts(parts@));
        lemma_split_weight(s@, sep@);
    }
    join_with(&capitals, sep)
}

/// Where capitalizing changes none of the parts, capitalizing each of them
/// changes nothing.
pub proof fn lemma_capitalized_parts_unchanged(text: Seq<char>, separator: Seq<char>)
    requires
        forall|i: int|
            0 <= i < split(text, separator).len() ==> capitalized(
                #[trigger] split(text, separator)[i],
            ) == split(text, separator)[i],
    ensures
        joined(each_capitalized(split(text, separator)), separator) == text,
{
    assert(each_capitalized(split(text, separator)) == split(text, separator));
    lemma_split_then_joined(text, separator);
}

} // verus!
