//! Tidying a generated name that was cut short.

use crate::context::PADDING;
use crate::text::chars_of;
use vstd::prelude::*;
use vstd::string::StrSliceExecFns;

verus! {

/// What parts the words of a name.
pub const SEPARATOR: char = ' ';

/// Where `c` stands last in `text`, or -1 if it does not occur.
pub open spec fn last_position(text: Seq<char>, c: char) -> int
    decreases text.len(),
{
    if text.len() == 0 {
        -1
    } else if text.last() == c {
        text.len() - 1
    } else {
        last_position(text.drop_last(), c)
    }
}

/// A name made complete. A padding marker at the end is taken off, and
/// nothing else. Without one, a name of several words loses its last
/// separator and what follows it, which may be a word cut short. A single
/// word stays as it is.
pub open spec fn repaired(text: Seq<char>) -> Seq<char> {
    if text.len() > 0 && text.last() == PADDING {
        text.drop_last()
    } else if text.contains(SEPARATOR) {
        text.take(last_position(text, SEPARATOR))
    } else {
        text
    }
}

/// `last_position` is the greatest position that holds `c`, and is -1
/// exactly when `c` does not occur.
pub proof fn lemma_last_position(text: Seq<char>, c: char)
    ensures
        -1 <= last_position(text, c) < text.len(),
        text.contains(c) <==> last_position(text, c) >= 0,
        last_position(text, c) >= 0 ==> text[last_position(text, c)] == c,
        forall|i: int| last_position(text, c) < i < text.len() ==> text[i] != c,
    decreases text.len(),
{
    if text.len() > 0 {
        let shorter = text.drop_last();
        lemma_last_position(shorter, c);
        if text.last() != c {
            assert forall|i: int| last_position(text, c) < i < text.len() implies text[i]
                != c by {
                if i < shorter.len() {
                    assert(shorter[i] == text[i]);
                }
            }
        }
    }
}

/// A repaired name is the start of the name it was made from.
pub proof fn lemma_repaired_is_prefix(text: Seq<char>)
    ensures
        repaired(text).is_prefix_of(text),
        repaired(text).len() <= text.len(),
{
    lemma_last_position(text, SEPARATOR);
}

/// Makes a generated name complete: takes off the padding marker at its
/// end, or else the last separator and the part of a word behind it.
pub fn ensure_complete_name(n: String) -> (complete: String)
    ensures
        complete@ == repaired(n@),
{
    let chars = chars_of(n.as_str());
    let length = chars.len();
    if length > 0 && chars[length - 1] == PADDING {
        return n.as_str().substring_char(0, length - 1).to_owned();
    }
    let mut end = length;
    assert(chars@.take(length as int) == chars@);
    while end > 0 && chars[end - 1] != SEPARATOR
        invariant
            end <= length,
            length == chars.len(),
            last_position(chars@, SEPARATOR) == last_position(chars@.take(end as int), SEPARATOR),
        decreases end,
    {
        proof {
            assert(chars@.take(end as int).drop_last() == chars@.take(end - 1));
        }
        end = end - 1;
    }
    proof {
        lemma_last_position(chars@, SEPARATOR);
    }
    if end > 0 {
        n.as_str().substring_char(0, end - 1).to_owned()
    } else {
        n
    }
}

} // verus!
