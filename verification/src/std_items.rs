//! The functions of the standard library that the crate calls and that have no contract yet.
use vstd::prelude::*;
use vstd::utf8::encode_scalar;

verus! {

/// `String::push` appends one character to the end of the string.
pub assume_specification[ String::push ](string: &mut String, ch: char)
    ensures
        final(string)@ == old(string)@.push(ch),
;

/// `String::pop` removes the last character and returns it, or returns `None` and leaves an
/// empty string as it is.
pub assume_specification[ String::pop ](string: &mut String) -> (ch: Option<char>)
    ensures
        old(string)@.len() == 0 ==> ch is None && final(string)@ == old(string)@,
        old(string)@.len() > 0 ==> ch == Some(old(string)@.last()) && final(string)@ == old(
            string,
        )@.drop_last(),
;

/// `char::len_utf8` is the number of bytes the character takes in UTF-8.
pub assume_specification[ char::len_utf8 ](ch: char) -> (len: usize)
    ensures
        len == encode_scalar(ch as u32).len(),
;

/// Whether a character has Unicode's `White_Space` property.
pub open spec fn is_white_space(ch: char) -> bool {
    let code = ch as u32;
    ||| 0x9 <= code <= 0xD
    ||| code == 0x20
    ||| code == 0x85
    ||| code == 0xA0
    ||| code == 0x1680
    ||| 0x2000 <= code <= 0x200A
    ||| code == 0x2028
    ||| code == 0x2029
    ||| code == 0x202F
    ||| code == 0x205F
    ||| code == 0x3000
}

/// `char::is_whitespace` tells whether the character has the `White_Space` property, as listed in
/// the Unicode Character Database.
pub assume_specification[ char::is_whitespace ](ch: char) -> (white: bool)
    ensures
        white == is_white_space(ch),
;

} // verus!
