//! Measuring a string and taking its first word.

use vstd::prelude::*;
use vstd::string::StringSliceAdditionalSpecFns;
use vstd::utf8::{
    char_u32_cast, encode_scalar, encode_utf8, encode_utf8_decode_utf8, encode_utf8_valid_utf8,
    is_char_boundary_iff_not_is_continuation_byte,
};

verus! {

/// The byte of a space character.
pub const SPACE: u8 = 0x20;

/// `w` is the first word of the text `b`: the bytes of `b` up to, not
/// including, its first space, or all of `b` where it has none.
pub open spec fn is_first_word(b: Seq<u8>, w: Seq<u8>) -> bool {
    &&& w.len() <= b.len()
    &&& w == b.take(w.len() as int)
    &&& forall|j: int| 0 <= j < w.len() ==> #[trigger] b[j] != SPACE
    &&& w.len() == b.len() || b[w.len() as int] == SPACE
}

/// `w` is the first word of the text `s`, by characters: the characters of
/// `s` before its first space, or all of `s` where it has none.
pub open spec fn is_first_word_chars(s: Seq<char>, w: Seq<char>) -> bool {
    &&& w.len() <= s.len()
    &&& w == s.take(w.len() as int)
    &&& forall|j: int| 0 <= j < w.len() ==> #[trigger] s[j] != ' '
    &&& w.len() == s.len() || s[w.len() as int] == ' '
}

proof fn lemma_high_bit_not_space(x: u8)
    by (bit_vector)
    ensures
        (0x80u8 | x) != 0x20u8,
        (0xc0u8 | x) != 0x20u8,
        (0xe0u8 | x) != 0x20u8,
        (0xf0u8 | x) != 0x20u8,
{
}

proof fn lemma_ascii_byte(u: u32)
    by (bit_vector)
    requires
        u <= 0x7f,
    ensures
        (u & 0x7f) == u,
        ((u & 0x7f) as u8) as u32 == u,
{
}

/// The encoding of a character holds a space byte only where the character
/// is a space, and then as its one byte.
proof fn lemma_encoded_space(c: char)
    ensures
        encode_scalar(c as u32).len() >= 1,
        c == ' ' ==> encode_scalar(c as u32) == seq![SPACE],
        c != ' ' ==> forall|j: int|
            0 <= j < encode_scalar(c as u32).len() ==> #[trigger] encode_scalar(c as u32)[j]
                != SPACE,
{
    let u = c as u32;
    if u <= 0x7f {
        lemma_ascii_byte(u);
        if c != ' ' {
            char_u32_cast(c, u);
            assert(u != 0x20);
        }
    } else {
        lemma_high_bit_not_space(((u >> 6) & 0x1F) as u8);
        lemma_high_bit_not_space(((u >> 12) & 0x0F) as u8);
        lemma_high_bit_not_space(((u >> 18) & 0x7) as u8);
        lemma_high_bit_not_space((u & 0x3F) as u8);
        lemma_high_bit_not_space(((u >> 6) & 0x3F) as u8);
        lemma_high_bit_not_space(((u >> 12) & 0x3F) as u8);
    }
}

/// The first word of a text's bytes encodes the first word of its
/// characters.
proof fn lemma_first_word_encodes(s: Seq<char>, k: int)
    requires
        0 <= k <= encode_utf8(s).len(),
        forall|j: int| 0 <= j < k ==> #[trigger] encode_utf8(s)[j] != SPACE,
        k == encode_utf8(s).len() || encode_utf8(s)[k] == SPACE,
    ensures
        exists|m: int|
            0 <= m <= s.len() && #[trigger] encode_utf8(s.take(m)) == encode_utf8(s).take(k)
                && is_first_word_chars(s, s.take(m)),
    decreases s.len(),
{
    let b = encode_utf8(s);
    if s.len() == 0 {
        assert(s.take(0) =~= s);
        assert(b.take(0) =~= b);
        assert(is_first_word_chars(s, s.take(0)));
        assert(encode_utf8(s.take(0)) == b.take(k));
    } else {
        let c = s[0];
        let e = encode_scalar(c as u32);
        let rest = s.drop_first();
        let br = encode_utf8(rest);
        lemma_encoded_space(c);
        assert(b == e + br);
        if c == ' ' {
            assert(b[0] == SPACE);
            assert(k == 0);
            assert(s.take(0) =~= Seq::<char>::empty());
            assert(b.take(0) =~= Seq::<u8>::empty());
            assert(is_first_word_chars(s, s.take(0)));
            assert(encode_utf8(s.take(0)) == b.take(k));
        } else {
            assert(k >= e.len()) by {
                if k < e.len() {
                    assert(b[k] == e[k]);
                }
            }
            let k2 = k - e.len();
            assert forall|j: int| 0 <= j < k2 implies #[trigger] br[j] != SPACE by {
                assert(b[j + e.len()] == br[j]);
            }
            if k2 < br.len() {
                assert(b[k] == br[k2]);
            }
            lemma_first_word_encodes(rest, k2);
            let m2 = choose|m: int|
                0 <= m <= rest.len() && #[trigger] encode_utf8(rest.take(m)) == br.take(k2)
                    && is_first_word_chars(rest, rest.take(m));
            let m = m2 + 1;
            let w = s.take(m);
            assert(w[0] == c);
            assert(w.drop_first() =~= rest.take(m2));
            assert(encode_utf8(w) == e + encode_utf8(rest.take(m2)));
            assert(b.take(k) =~= e + br.take(k2));
            assert forall|j: int| 0 <= j < w.len() implies #[trigger] s[j] != ' ' by {
                if j > 0 {
                    assert(s[j] == rest[j - 1]);
                }
            }
            if m < s.len() {
                assert(s[m] == rest[m2]);
            }
            assert(w =~= s.take(w.len() as int));
            assert(is_first_word_chars(s, w));
            assert(encode_utf8(s.take(m)) == b.take(k));
        }
    }
}

/// The number of bytes of the string's UTF-8 encoding.
pub fn calculate_length(s: &String) -> (r: usize)
    ensures
        r == encode_utf8(s@).len(),
{
    s.as_str().as_bytes().len()
}

/// The first word of `s`: the text before its first space, or the whole of
/// `s` where there is no space.
pub fn first_word(s: &str) -> (r: &str)
    ensures
        is_first_word(s.spec_bytes(), r.spec_bytes()),
        is_first_word_chars(s@, r@),
{
    let bytes = s.as_bytes();
    let ghost b = s.spec_bytes();
    let mut i: usize = 0;
    while i < bytes.len()
        invariant
            bytes@ == b,
            b == s.spec_bytes(),
            i <= b.len(),
            forall|j: int| 0 <= j < i ==> #[trigger] b[j] != SPACE,
        decreases b.len() - i,
    {
        if bytes[i] == SPACE {
            proof {
                encode_utf8_valid_utf8(s@);
                is_char_boundary_iff_not_is_continuation_byte(b, i as int);
            }
            let (word, _) = s.split_at(i);
            proof {
                lemma_words_agree(s@, word@, i as int);
            }
            return word;
        }
        i = i + 1;
    }
    assert(b.take(b.len() as int) =~= b);
    proof {
        lemma_words_agree(s@, s@, i as int);
    }
    s
}

/// A word whose bytes are the first word of a text's bytes is the first word
/// of its characters.
proof fn lemma_words_agree(s: Seq<char>, w: Seq<char>, k: int)
    requires
        0 <= k <= encode_utf8(s).len(),
        encode_utf8(w) == encode_utf8(s).take(k),
        forall|j: int| 0 <= j < k ==> #[trigger] encode_utf8(s)[j] != SPACE,
        k == encode_utf8(s).len() || encode_utf8(s)[k] == SPACE,
    ensures
        is_first_word_chars(s, w),
{
    lemma_first_word_encodes(s, k);
    let m = choose|m: int|
        0 <= m <= s.len() && #[trigger] encode_utf8(s.take(m)) == encode_utf8(s).take(k)
            && is_first_word_chars(s, s.take(m));
    encode_utf8_decode_utf8(w);
    encode_utf8_decode_utf8(s.take(m));
}

} // verus!
