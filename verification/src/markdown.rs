//! The plain values handed to and taken from the Discount Markdown renderer.

use vstd::prelude::*;
use crate::text::{chars_of, push_all, string_of};

verus! {

/// The length of the text before its first NUL byte, or of the whole text where it holds
/// none: the part of a Markdown source that Discount reads.
pub open spec fn length_before_nul(bytes: Seq<u8>) -> int
    decreases bytes.len(),
{
    if bytes.len() == 0 {
        0
    } else if bytes[0] == 0 {
        0
    } else {
        1 + length_before_nul(bytes.drop_first())
    }
}

/// The length handed to Discount for a Markdown source: the length before the first NUL
/// byte, where it fits in a C `int`; `None` where the source is too large.
pub fn discount_input_length(bytes: &[u8]) -> (length: Option<i32>)
    ensures
        length == (if length_before_nul(bytes@) <= i32::MAX {
            Some(length_before_nul(bytes@) as i32)
        } else {
            None::<i32>
        }),
{
    let mut i: usize = 0;
    assert(bytes@.skip(0) == bytes@);
    while i < bytes.len() && bytes[i] != 0
        invariant
            i <= bytes.len(),
            length_before_nul(bytes@) == i + length_before_nul(bytes@.skip(i as int)),
        decreases bytes.len() - i,
    {
        assert(bytes@.skip(i as int).drop_first() == bytes@.skip(i + 1));
        i = i + 1;
    }
    if i < bytes.len() {
        assert(bytes@.skip(i as int)[0] == bytes@[i as int]);
    }
    if i <= 0x7fff_ffff {
        Some(i as i32)
    } else {
        None
    }
}

/// The length of what Discount rendered, from the count it returned: `None` where the
/// count is negative, which Discount reports for a failure.
pub fn discount_output_length(count: i32) -> (length: Option<usize>)
    ensures
        length == (if count < 0 {
            None::<usize>
        } else {
            Some(count as usize)
        }),
{
    if count < 0 {
        None
    } else {
        Some(count as usize)
    }
}

/// Rendered HTML as a page takes it: followed by one newline.
pub fn with_trailing_newline(rendered: &str) -> (text: String)
    ensures
        text@ == rendered@ + seq!['\n'],
{
    let mut out = chars_of(rendered);
    let newline = ['\n'];
    assert(newline@ == seq!['\n']);
    push_all(&mut out, &newline);
    string_of(&out)
}

} // verus!
