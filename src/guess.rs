//! Reading a guess from one line of input.

use vstd::prelude::*;
use vstd::string::StringSliceAdditionalSpecFns;
use vstd::utf8::encode_utf8;

verus! {

/// An ASCII decimal digit, as a byte.
pub open spec fn is_digit(b: u8) -> bool {
    0x30 <= b <= 0x39
}

/// The value of a string of decimal digits, most significant first.
pub open spec fn digits_value(d: Seq<u8>) -> nat
    decreases d.len(),
{
    if d.len() == 0 {
        0
    } else {
        digits_value(d.drop_last()) * 10 + (d.last() - 0x30) as nat
    }
}

/// The digits of an unsigned number: the text without one leading `+`.
pub open spec fn unsigned_digits(b: Seq<u8>) -> Seq<u8> {
    if b.len() > 0 && b[0] == 0x2b {
        b.drop_first()
    } else {
        b
    }
}

/// The `u32` that the text spells in decimal: an optional `+`, then at least
/// one digit and nothing else, with a value that fits in 32 bits.
pub open spec fn decimal_u32(b: Seq<u8>) -> Option<u32> {
    let d = unsigned_digits(b);
    if d.len() > 0 && (forall|i: int| 0 <= i < d.len() ==> is_digit(#[trigger] d[i]))
        && digits_value(d) <= u32::MAX {
        Some(digits_value(d) as u32)
    } else {
        None
    }
}

/// A string of digits is worth at least as much as any of its prefixes.
proof fn lemma_prefix_value_le(d: Seq<u8>, k: int)
    requires
        0 <= k <= d.len(),
        forall|i: int| 0 <= i < d.len() ==> is_digit(#[trigger] d[i]),
    ensures
        digits_value(d.take(k)) <= digits_value(d),
    decreases d.len(),
{
    if k < d.len() {
        let p = d.drop_last();
        assert(p.take(k) =~= d.take(k));
        lemma_prefix_value_le(p, k);
    } else {
        assert(d.take(k) =~= d);
    }
}

/// Reads `text` as an unsigned decimal number, the way `u32`'s `FromStr`
/// does: an optional `+`, then digits only, and no overflow.
pub fn parse_guess(text: &str) -> (r: Option<u32>)
    ensures
        r == decimal_u32(text.spec_bytes()),
{
    let b = text.as_bytes();
    let ghost s = b@;
    let n = b.len();
    let mut i: usize = 0;
    if n > 0 && b[0] == 0x2b {
        i = 1;
    }
    let start = i;
    let ghost d = unsigned_digits(s);
    assert(d =~= s.subrange(start as int, n as int));
    if start == n {
        return None;
    }
    let mut value: u64 = 0;
    while i < n
        invariant
            start <= i <= n,
            n == s.len(),
            b@ == s,
            d == s.subrange(start as int, n as int),
            d == unsigned_digits(s),
            s == text.spec_bytes(),
            forall|j: int| start <= j < i ==> is_digit(#[trigger] s[j]),
            value == digits_value(s.subrange(start as int, i as int)),
            value <= u32::MAX,
        decreases n - i,
    {
        let c = b[i];
        if c < 0x30 || c > 0x39 {
            assert(!is_digit(d[i - start]));
            return None;
        }
        let ghost before = s.subrange(start as int, i as int);
        let ghost after = s.subrange(start as int, i + 1);
        assert(after.drop_last() =~= before);
        value = value * 10 + (c - 0x30) as u64;
        i = i + 1;
        if value > 0xffff_ffff {
            proof {
                if forall|j: int| 0 <= j < d.len() ==> is_digit(#[trigger] d[j]) {
                    assert(d.take(i - start) =~= after);
                    lemma_prefix_value_le(d, i - start);
                }
            }
            return None;
        }
    }
    assert(s.subrange(start as int, i as int) =~= d);
    Some(value as u32)
}

/// A character of Unicode's `White_Space` property, which is what
/// `char::is_whitespace` accepts.
pub open spec fn is_white_space(c: char) -> bool {
    let u = c as u32;
    (0x9 <= u <= 0xd) || u == 0x20 || u == 0x85 || u == 0xa0 || u == 0x1680 || (0x2000 <= u
        <= 0x200a) || u == 0x2028 || u == 0x2029 || u == 0x202f || u == 0x205f || u == 0x3000
}

/// The text without its leading whitespace.
pub open spec fn trim_start(s: Seq<char>) -> Seq<char>
    decreases s.len(),
{
    if s.len() > 0 && is_white_space(s[0]) {
        trim_start(s.drop_first())
    } else {
        s
    }
}

/// The text without its trailing whitespace.
pub open spec fn trim_end(s: Seq<char>) -> Seq<char>
    decreases s.len(),
{
    if s.len() > 0 && is_white_space(s.last()) {
        trim_end(s.drop_last())
    } else {
        s
    }
}

/// The text without whitespace at either end.
pub open spec fn trimmed(s: Seq<char>) -> Seq<char> {
    trim_end(trim_start(s))
}

/// The guess that a line of input holds, if it holds one: the line, once
/// trimmed, read as a decimal `u32`.
pub open spec fn guess_in_line(line: Seq<char>) -> Option<u32> {
    decimal_u32(encode_utf8(trimmed(line)))
}

/// Relies on `str::trim`: the same text without the leading and trailing
/// characters for which `char::is_whitespace` holds.
#[verifier::external_body]
fn trim_text<'a>(text: &'a str) -> (r: &'a str)
    ensures
        r@ == trimmed(text@),
{
    text.trim()
}

/// The guess that a line of input holds: `None` where the line, with the
/// whitespace around it removed, is no decimal `u32`.
pub fn read_guess(line: &str) -> (r: Option<u32>)
    ensures
        r == guess_in_line(line@),
{
    let t = trim_text(line);
    parse_guess(t)
}

} // verus!
