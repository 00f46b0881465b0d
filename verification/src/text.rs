//! Character classes and the few string primitives the parser needs.

use vstd::prelude::*;

verus! {

/// Whether `c` has the Unicode `Alphabetic` property.  The full character set
/// is too large to list, so the property is left abstract; `is_alphabetic`
/// below ties it to the standard library's answer.
pub uninterp spec fn char_alphabetic(c: char) -> bool;

/// Relies on char::is_alphabetic: true exactly for characters with the
/// Unicode `Alphabetic` property, a function of the character alone.
#[verifier::external_body]
pub fn is_alphabetic(c: char) -> (r: bool)
    ensures
        r == char_alphabetic(c),
{
    c.is_alphabetic()
}

/// The Unicode `White_Space` characters, as the standard library documents
/// them for char::is_whitespace.
pub open spec fn char_whitespace(c: char) -> bool {
    ||| c == ' '
    ||| c == '\t'
    ||| c == '\n'
    ||| c == '\u{b}'
    ||| c == '\u{c}'
    ||| c == '\r'
    ||| c == '\u{85}'
    ||| c == '\u{a0}'
    ||| c == '\u{1680}'
    ||| ('\u{2000}' <= c && c <= '\u{200a}')
    ||| c == '\u{2028}'
    ||| c == '\u{2029}'
    ||| c == '\u{202f}'
    ||| c == '\u{205f}'
    ||| c == '\u{3000}'
}

/// Relies on char::is_whitespace: true exactly for the Unicode `White_Space`
/// characters, which `char_whitespace` lists in full.
#[verifier::external_body]
pub fn is_whitespace(c: char) -> (r: bool)
    ensures
        r == char_whitespace(c),
{
    c.is_whitespace()
}

/// An ASCII decimal digit.
pub open spec fn char_digit(c: char) -> bool {
    '0' <= c && c <= '9'
}

pub fn is_digit(c: char) -> (r: bool)
    ensures
        r == char_digit(c),
{
    '0' <= c && c <= '9'
}

/// A character the `literal` grammar rule accepts: alphanumeric, `_` or `-`.
pub open spec fn ident_char(c: char) -> bool {
    char_alphabetic(c) || char_digit(c) || c == '_' || c == '-'
}

/// The numeric value of an ASCII hex digit, or 16 for any other character.
pub open spec fn hex_digit_value(c: char) -> u32 {
    if '0' <= c && c <= '9' {
        (c as u32 - '0' as u32) as u32
    } else if 'a' <= c && c <= 'f' {
        (c as u32 - 'a' as u32 + 10) as u32
    } else if 'A' <= c && c <= 'F' {
        (c as u32 - 'A' as u32 + 10) as u32
    } else {
        16
    }
}

pub fn hex_digit(c: char) -> (r: u32)
    ensures
        r == hex_digit_value(c),
{
    if '0' <= c && c <= '9' {
        c as u32 - '0' as u32
    } else if 'a' <= c && c <= 'f' {
        c as u32 - 'a' as u32 + 10
    } else if 'A' <= c && c <= 'F' {
        c as u32 - 'A' as u32 + 10
    } else {
        16
    }
}

/// Relies on str::eq (the `==` operator of string slices): string slices
/// compare equal exactly when their character sequences are equal.
#[verifier::external_body]
pub fn str_eq(a: &str, b: &str) -> (r: bool)
    ensures
        r == (a@ == b@),
{
    a == b
}

/// Relies on String::push: appends one character at the end of the string.
#[verifier::external_body]
pub fn string_push(s: &mut String, c: char)
    ensures
        final(s)@ == old(s)@.push(c),
{
    s.push(c);
}

/// Build an owned string out of a run of characters.
pub fn chars_to_string(v: &Vec<char>) -> (s: String)
    ensures
        s@ == v@,
{
    let mut s = String::new();
    let mut i: usize = 0;
    while i < v.len()
        invariant
            i <= v@.len(),
            s@ == v@.subrange(0, i as int),
        decreases v@.len() - i,
    {
        string_push(&mut s, v[i]);
        assert(s@ == v@.subrange(0, i + 1));
        i = i + 1;
    }
    assert(v@.subrange(0, v@.len() as int) == v@);
    s
}

/// Relies on str::chars: iterates exactly the characters of the string, in
/// order.  The collected vector's length is bounded by its allocation, which
/// the standard library caps below `isize::MAX` bytes.
#[verifier::external_body]
pub fn str_chars(s: &str) -> (v: Vec<char>)
    ensures
        v@ == s@,
        v@.len() < usize::MAX,
{
    s.chars().collect()
}

/// `s` with every carriage return removed.
pub open spec fn strip_cr(s: Seq<char>) -> Seq<char> {
    s.filter(|c: char| c != '\r')
}

/// The characters of a source text, with carriage returns stripped, ready
/// for parsing.
pub fn source_chars(s: &str) -> (v: Vec<char>)
    ensures
        v@ == strip_cr(s@),
        v@.len() < usize::MAX,
{
    let chars = str_chars(s);
    let mut v: Vec<char> = Vec::new();
    let mut i: usize = 0;
    proof {
        assert(chars@.take(0int) =~= Seq::<char>::empty());
        assert(Seq::<char>::empty().filter(|c: char| c != '\r') =~= Seq::<char>::empty());
    }
    while i < chars.len()
        invariant
            i <= chars@.len(),
            chars@.len() < usize::MAX,
            v@ == chars@.take(i as int).filter(|c: char| c != '\r'),
            v@.len() <= i,
        decreases chars@.len() - i,
    {
        let c = chars[i];
        proof {
            assert(chars@.take(i + 1).drop_last() =~= chars@.take(i as int));
            assert(chars@.take(i + 1).last() == chars@[i as int]);
            reveal_with_fuel(Seq::filter, 2);
            assert(chars@.take(i + 1).filter(|c: char| c != '\r') == (if chars@[i as int] != '\r' {
                chars@.take(i as int).filter(|c: char| c != '\r').push(chars@[i as int])
            } else {
                chars@.take(i as int).filter(|c: char| c != '\r')
            }));
        }
        if c != '\r' {
            v.push(c);
        }
        i = i + 1;
    }
    proof {
        assert(chars@.take(chars@.len() as int) =~= chars@);
    }
    v
}

} // verus!
