//! Whitespace classes used when reading numbers and frequency lists.

use vstd::prelude::*;

verus! {

/// The bytes that `u8::is_ascii_whitespace` accepts: space, horizontal tab,
/// line feed, form feed and carriage return (not vertical tab).
pub open spec fn is_ascii_ws(b: u8) -> bool {
    b == 0x20u8 || b == 0x09u8 || b == 0x0Au8 || b == 0x0Cu8 || b == 0x0Du8
}

/// Whether `b` is one of the five ASCII whitespace bytes.
pub fn is_ascii_whitespace(b: u8) -> (r: bool)
    ensures
        r == is_ascii_ws(b),
        r <==> (b == 0x20 || (0x09 <= b <= 0x0D && b != 0x0B)),
        b > 0x20 ==> !r,
{
    b == 0x20u8 || b == 0x09u8 || b == 0x0Au8 || b == 0x0Cu8 || b == 0x0Du8
}

/// The characters with the Unicode `White_Space` property, which
/// `char::is_whitespace` and `str::trim` use.
pub open spec fn is_unicode_ws(c: char) -> bool {
    let u = c as u32;
    ||| 0x09 <= u <= 0x0D
    ||| u == 0x20
    ||| u == 0x85
    ||| u == 0xA0
    ||| u == 0x1680
    ||| 0x2000 <= u <= 0x200A
    ||| u == 0x2028
    ||| u == 0x2029
    ||| u == 0x202F
    ||| u == 0x205F
    ||| u == 0x3000
}

/// Whether `c` has the Unicode `White_Space` property.
pub fn is_unicode_whitespace(c: char) -> (r: bool)
    ensures
        r == is_unicode_ws(c),
        (c as u32) < 0x80 ==> (r <==> (c == ' ' || ('\t' <= c <= '\r'))),
{
    let u = c as u32;
    (0x09 <= u && u <= 0x0D) || u == 0x20 || u == 0x85 || u == 0xA0 || u == 0x1680 || (0x2000
        <= u && u <= 0x200A) || u == 0x2028 || u == 0x2029 || u == 0x202F || u == 0x205F || u
        == 0x3000
}

/// Law: the bytes that separate the values of a column are exactly space and
/// the control bytes tab, line feed, form feed and carriage return. Vertical
/// tab does not separate, and no byte above space does: digits, letters (such
/// as the `e` of an exponent), signs and the decimal point always belong to a
/// value.
pub proof fn lemma_ascii_separators(b: u8)
    ensures
        is_ascii_ws(b) <==> (b == 0x20 || (0x09 <= b <= 0x0D && b != 0x0B)),
        b > 0x20 ==> !is_ascii_ws(b),
        b < 0x09 ==> !is_ascii_ws(b),
{
}

/// Law: among ASCII characters, the Unicode whitespace is exactly space and
/// the control characters tab through carriage return; every printable ASCII
/// character other than space (digits, letters, `.`, `+`, `-`, `,`) is not
/// whitespace.
pub proof fn lemma_unicode_ws_on_ascii(c: char)
    ensures
        (c as u32) < 0x80 ==> (is_unicode_ws(c) <==> (c == ' ' || ('\t' <= c <= '\r'))),
        0x21 <= (c as u32) <= 0x7E ==> !is_unicode_ws(c),
{
}

} // verus!
