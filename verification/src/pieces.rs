//! Cutting a text at a separator and putting the pieces together again.

use crate::text::chars_of;
use itertools::Itertools;
use vstd::prelude::*;
use vstd::utf8::encode_utf8;

verus! {

/// The texts of a sequence of strings.
pub open spec fn texts(parts: Seq<String>) -> Seq<Seq<char>> {
    Seq::new(parts.len(), |i: int| parts[i]@)
}

/// The pieces of `text` between the occurrences of `separator`, found from
/// left to right, each beginning where the one before it ended. There is
/// always one piece more than there are occurrences, so pieces may be
/// empty. The empty separator occurs before every character and at the
/// end: it parts every character from the next and leaves an empty piece
/// at either end.
pub open spec fn split(text: Seq<char>, separator: Seq<char>) -> Seq<Seq<char>>
    decreases text.len(),
{
    if separator.len() == 0 {
        seq![Seq::empty()] + Seq::new(text.len(), |i: int| seq![text[i]]) + seq![Seq::empty()]
    } else if separator.is_prefix_of(text) {
        seq![Seq::empty()] + split(text.skip(separator.len() as int), separator)
    } else if text.len() == 0 {
        seq![Seq::empty()]
    } else {
        let rest = split(text.drop_first(), separator);
        rest.update(0, seq![text.first()] + rest.first())
    }
}

/// The pieces put together, with `separator` between each two of them.
pub open spec fn joined(parts: Seq<Seq<char>>, separator: Seq<char>) -> Seq<char>
    decreases parts.len(),
{
    if parts.len() == 0 {
        Seq::empty()
    } else if parts.len() == 1 {
        parts.first()
    } else {
        parts.first() + separator + joined(parts.drop_first(), separator)
    }
}

/// A text always has a piece.
pub proof fn lemma_split_has_a_piece(text: Seq<char>, separator: Seq<char>)
    ensures
        split(text, separator).len() >= 1,
    decreases text.len(),
{
    if separator.len() == 0 {
    } else if separator.is_prefix_of(text) {
    } else if text.len() == 0 {
    } else {
        lemma_split_has_a_piece(text.drop_first(), separator);
    }
}

/// Putting the pieces of a text together again, with the separator that
/// cut them, gives the text back.
pub proof fn lemma_split_then_joined(text: Seq<char>, separator: Seq<char>)
    ensures
        joined(split(text, separator), separator) == text,
    decreases text.len(),
{
    let parts = split(text, separator);
    lemma_split_has_a_piece(text, separator);
    if separator.len() == 0 {
        let singles = Seq::new(text.len(), |i: int| seq![text[i]]);
        assert(parts.drop_first() == singles + seq![Seq::<char>::empty()]);
        lemma_singles_joined(text);
    } else if separator.is_prefix_of(text) {
        let behind = text.skip(separator.len() as int);
        lemma_split_has_a_piece(behind, separator);
        lemma_split_then_joined(behind, separator);
        assert(parts.drop_first() == split(behind, separator));
    } else if text.len() == 0 {
    } else {
        let rest = split(text.drop_first(), separator);
        lemma_split_has_a_piece(text.drop_first(), separator);
        lemma_split_then_joined(text.drop_first(), separator);
        if rest.len() > 1 {
            assert(parts.drop_first() == rest.drop_first());
        }
        assert(joined(parts, separator) == seq![text.first()] + joined(rest, separator));
    }
}

/// The characters of a text, each a piece of its own and an empty piece
/// behind them, make up the text when nothing stands between them.
proof fn lemma_singles_joined(text: Seq<char>)
    ensures
        joined(
            Seq::new(text.len(), |i: int| seq![text[i]]) + seq![Seq::<char>::empty()],
            Seq::empty(),
        ) == text,
    decreases text.len(),
{
    let parts = Seq::new(text.len(), |i: int| seq![text[i]]) + seq![Seq::<char>::empty()];
    if text.len() > 0 {
        let behind = text.drop_first();
        lemma_singles_joined(behind);
        assert(parts.drop_first() == Seq::new(behind.len(), |i: int| seq![behind[i]])
            + seq![Seq::<char>::empty()]);
    }
}

/// Whether `pattern` stands in `text` at position `at`.
fn stands_at(text: &Vec<char>, at: usize, pattern: &Vec<char>) -> (found: bool)
    requires
        at <= text.len(),
    ensures
        found == pattern@.is_prefix_of(text@.skip(at as int)),
{
    if pattern.len() > text.len() - at {
        return false;
    }
    let mut same: usize = 0;
    while same < pattern.len()
        invariant
            at <= text.len(),
            same <= pattern.len() <= text.len() - at,
            pattern@.take(same as int) == text@.skip(at as int).take(same as int),
        decreases pattern.len() - same,
    {
        if pattern[same] != text[at + same] {
            return false;
        }
        same = same + 1;
    }
    true
}

/// Cuts `text` at every occurrence of `separator`.
pub fn split_on(text: &str, separator: &str) -> (parts: Vec<String>)
    ensures
        texts(parts@) == split(text@, separator@),
{
    let chars = chars_of(text);
    let pattern = chars_of(separator);
    let mut parts: Vec<String> = Vec::new();
    let mut at: usize = 0;
    if pattern.len() == 0 {
        parts.push(String::new());
        while at < chars.len()
            invariant
                at <= chars.len(),
                chars@ == text@,
                texts(parts@) == seq![Seq::<char>::empty()] + Seq::new(
                    at as nat,
                    |i: int| seq![chars@[i]],
                ),
            decreases chars.len() - at,
        {
            let mut single = String::new();
            single.push(chars[at]);
            proof {
                assert(texts(parts@.push(single)) == texts(parts@).push(single@));
            }
            parts.push(single);
            at = at + 1;
        }
        parts.push(String::new());
        return parts;
    }
    let mut piece = String::new();
    proof {
        lemma_split_has_a_piece(text@, separator@);
        assert(text@.skip(0) == text@);
    }
    while at < chars.len()
        invariant
            at <= chars.len(),
            chars@ == text@,
            pattern@ == separator@,
            pattern@.len() > 0,
            split(text@.skip(at as int), separator@).len() >= 1,
            split(text@, separator@) == texts(parts@) + split(
                text@.skip(at as int),
                separator@,
            ).update(0, piece@ + split(text@.skip(at as int), separator@).first()),
        decreases chars.len() - at,
    {
        let ghost ahead = text@.skip(at as int);
        if stands_at(&chars, at, &pattern) {
            proof {
                let behind = ahead.skip(pattern@.len() as int);
                assert(behind == text@.skip(at + pattern@.len()));
                lemma_split_has_a_piece(behind, separator@);
            }
            parts.push(piece);
            piece = String::new();
            at = at + pattern.len();
        } else {
            proof {
                assert(ahead.drop_first() == text@.skip(at + 1));
                lemma_split_has_a_piece(ahead.drop_first(), separator@);
                assert(piece@.push(chars@[at as int]) + split(
                    ahead.drop_first(),
                    separator@,
                ).first() == piece@ + (seq![ahead.first()] + split(
                    ahead.drop_first(),
                    separator@,
                ).first()));
            }
            piece.push(chars[at]);
            at = at + 1;
        }
    }
    parts.push(piece);
    parts
}

/// The number of bytes that a text takes up as a string.
pub open spec fn weight(text: Seq<char>) -> nat {
    encode_utf8(text).len()
}

/// Two texts in a row weigh what they weigh apart.
pub proof fn lemma_weight_adds(first: Seq<char>, second: Seq<char>)
    ensures
        weight(first + second) == weight(first) + weight(second),
    decreases first.len(),
{
    if first.len() == 0 {
    } else {
        assert((first + second).drop_first() == first.drop_first() + second);
        lemma_weight_adds(first.drop_first(), second);
    }
}

/// The separators between the pieces of a text weigh no more than the text.
pub proof fn lemma_split_weight(text: Seq<char>, separator: Seq<char>)
    ensures
        split(text, separator).len() >= 1,
        weight(separator) * (split(text, separator).len() - 1) <= weight(text),
    decreases text.len(),
{
    let parts = split(text, separator);
    lemma_split_has_a_piece(text, separator);
    if separator.len() == 0 {
        assert(weight(separator) * (parts.len() - 1) == 0) by (nonlinear_arith)
            requires
                weight(separator) == 0,
        ;
    } else if separator.is_prefix_of(text) {
        let behind = text.skip(separator.len() as int);
        lemma_split_weight(behind, separator);
        assert(text == separator + behind);
        lemma_weight_adds(separator, behind);
        let fewer = split(behind, separator).len();
        assert(weight(separator) * fewer == weight(separator) * (fewer - 1) + weight(separator))
            by (nonlinear_arith);
    } else if text.len() == 0 {
    } else {
        lemma_split_weight(text.drop_first(), separator);
        lemma_weight_adds(seq![text.first()], text.drop_first());
    }
}

/// The parts put together with `separator` between them, by
/// `Itertools::join`: it writes the first part, then the separator and a
/// part for every part behind the first. It asks for room beforehand, for
/// as many bytes as the separator has, times the number of parts behind the
/// first: that product has to fit in `usize`.
#[verifier::external_body]
pub(crate) fn join_with(parts: &Vec<String>, separator: &str) -> (whole: String)
    requires
        parts.len() > 0 ==> weight(separator@) * (parts.len() - 1) <= usize::MAX,
    ensures
        whole@ == joined(texts(parts@), separator@),
{
    parts.iter().join(separator)
}

} // verus!
