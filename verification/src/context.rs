//! The context of a chain: the last `order` characters seen, with padding
//! markers standing in for the characters before the start of a name.

use vstd::prelude::*;
use vstd::string::StrSliceExecFns;

verus! {

/// The marker that pads the start of every name and signals its end.
pub const PADDING: char = '^';

/// `order` padding markers: the context at the start of a name.
pub open spec fn padding(order: nat) -> Seq<char> {
    Seq::new(order, |i: int| PADDING)
}

/// The context once `text` has been read or produced: the last `order`
/// characters of the padded text.
pub open spec fn context_after(order: nat, text: Seq<char>) -> Seq<char> {
    (padding(order) + text).skip(text.len() as int)
}

/// The context moved on by one character: its first character leaves, `next`
/// enters at the end. The empty context stays empty.
pub open spec fn slid(context: Seq<char>, next: char) -> Seq<char> {
    if context.len() == 0 {
        context
    } else {
        context.drop_first().push(next)
    }
}

/// A context always holds exactly `order` characters, starts out as the
/// padding, and follows the text by sliding.
pub proof fn lemma_context_slides(order: nat, text: Seq<char>, next: char)
    ensures
        context_after(order, text).len() == order,
        context_after(order, Seq::empty()) == padding(order),
        context_after(order, text.push(next)) == slid(context_after(order, text), next),
{
}

/// The context in front of a character is the window of `order`
/// characters that ends just before it in the padded name.
pub proof fn lemma_context_is_window(order: nat, name: Seq<char>, at: int)
    requires
        0 <= at <= name.len(),
    ensures
        context_after(order, name.take(at)) == (padding(order) + name).subrange(at, at + order),
{
}

/// The context at the start of a name.
pub fn initial_context(order: usize) -> (context: String)
    ensures
        context@ == padding(order as nat),
{
    let mut context = String::new();
    let mut written: usize = 0;
    while written < order
        invariant
            written <= order,
            context@ == padding(written as nat),
        decreases order - written,
    {
        context.push(PADDING);
        written = written + 1;
    }
    context
}

/// Moves `context` on by one character.
pub fn slide(context: &str, next: char) -> (moved: String)
    ensures
        moved@ == slid(context@, next),
{
    let length = context.unicode_len();
    if length == 0 {
        String::new()
    } else {
        let mut moved = context.substring_char(1, length).to_owned();
        moved.push(next);
        moved
    }
}

} // verus!
