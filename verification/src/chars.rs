//! What the library takes from the characters and strings of the standard
//! library without proof: the class of a character, the width of its
//! encoding, the character of a scalar value, and the growth of a string by
//! one character.

use crate::encoding::utf8_width;
use vstd::prelude::*;
use vstd::utf8::is_scalar;

verus! {

/// Whether `c` has the Unicode property `White_Space`: the space, the
/// controls from tab to carriage return, next line, the no-break spaces, the
/// Ogham space mark, the spaces of fixed width, the line and paragraph
/// separators, the medium mathematical space and the ideographic space.
pub open spec fn is_whitespace_char(c: char) -> bool {
    ||| c == ' '
    ||| '\u{9}' <= c <= '\u{d}'
    ||| c == '\u{85}'
    ||| c == '\u{a0}'
    ||| c == '\u{1680}'
    ||| '\u{2000}' <= c <= '\u{200a}'
    ||| c == '\u{2028}'
    ||| c == '\u{2029}'
    ||| c == '\u{202f}'
    ||| c == '\u{205f}'
    ||| c == '\u{3000}'
}

/// Whether `c` is one of the letters `A` to `Z` and `a` to `z`.
pub open spec fn is_ascii_letter(c: char) -> bool {
    'A' <= c <= 'Z' || 'a' <= c <= 'z'
}

/// Whether `c`, a character beyond ASCII, has the Unicode property
/// `Alphabetic`.
pub uninterp spec fn is_alphabetic_beyond_ascii(c: char) -> bool;

/// Whether `c` has the Unicode property `Alphabetic`. Within ASCII these are
/// the letters; beyond it the tables of the standard library decide.
pub open spec fn is_alphabetic_char(c: char) -> bool {
    if c <= '\u{7f}' {
        is_ascii_letter(c)
    } else {
        is_alphabetic_beyond_ascii(c)
    }
}

/// `char::is_alphabetic` tells whether the character has the Unicode property
/// `Alphabetic`. Within ASCII that is the letters; for the rest its answer
/// is taken as the meaning of [`is_alphabetic_beyond_ascii`].
pub assume_specification[ char::is_alphabetic ](c: char) -> (b: bool)
    ensures
        b == is_alphabetic_char(c),
        c > '\u{7f}' ==> b == is_alphabetic_beyond_ascii(c),
;

/// `char::is_whitespace` tells whether the character has the Unicode property
/// `White_Space`, which twenty-five characters have.
pub assume_specification[ char::is_whitespace ](c: char) -> (b: bool)
    ensures
        b == is_whitespace_char(c),
;

/// `char::len_utf8` returns the number of bytes that the character takes when
/// encoded as UTF-8.
pub assume_specification[ char::len_utf8 ](c: char) -> (n: usize)
    ensures
        n == utf8_width(c),
;

/// `char::from_u32` returns the character with the given scalar value, and
/// nothing where the number is no Unicode scalar value.
pub assume_specification[ char::from_u32 ](i: u32) -> (res: Option<char>)
    ensures
        res is Some == is_scalar(i),
        res matches Some(c) ==> c as u32 == i,
;

/// `String::push` appends the character to the end of the string.
pub assume_specification[ String::push ](s: &mut String, c: char)
    ensures
        final(s)@ == old(s)@.push(c),
;

} // verus!
