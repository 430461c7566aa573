//! Byte-level validation of UTF-8, with the laws that tie truncation,
//! character boundaries and decoding together.

use vstd::prelude::*;
use vstd::utf8::*;

verus! {

// Range facts about the scalar encoded by a single leading byte, proved at the
// bit level. Each lemma covers one encoding width, on the byte ranges that the
// validator below has already checked.
proof fn lemma_scalar_width_1(b0: u8)
    by (bit_vector)
    requires
        b0 <= 0x7f,
    ensures
        not_overlong_encoding(codepoint_width_1(b0), 1),
        not_surrogate(codepoint_width_1(b0)),
{
}

proof fn lemma_scalar_width_2(b0: u8, b1: u8)
    by (bit_vector)
    requires
        0xc2 <= b0 <= 0xdf,
        0x80 <= b1 <= 0xbf,
    ensures
        not_overlong_encoding(codepoint_width_2(b0, b1), 2),
        not_surrogate(codepoint_width_2(b0, b1)),
{
}

proof fn lemma_overlong_width_2(b0: u8, b1: u8)
    by (bit_vector)
    requires
        0xc0 <= b0 <= 0xc1,
        0x80 <= b1 <= 0xbf,
    ensures
        !not_overlong_encoding(codepoint_width_2(b0, b1), 2),
{
}

proof fn lemma_scalar_width_3(b0: u8, b1: u8, b2: u8)
    by (bit_vector)
    requires
        0xe0 <= b0 <= 0xef,
        0x80 <= b1 <= 0xbf,
        0x80 <= b2 <= 0xbf,
        b0 == 0xe0 ==> b1 >= 0xa0,
        b0 == 0xed ==> b1 <= 0x9f,
    ensures
        not_overlong_encoding(codepoint_width_3(b0, b1, b2), 3),
        not_surrogate(codepoint_width_3(b0, b1, b2)),
{
}

proof fn lemma_overlong_width_3(b0: u8, b1: u8, b2: u8)
    by (bit_vector)
    requires
        b0 == 0xe0,
        0x80 <= b1 <= 0x9f,
        0x80 <= b2 <= 0xbf,
    ensures
        !not_overlong_encoding(codepoint_width_3(b0, b1, b2), 3),
{
}

proof fn lemma_surrogate_width_3(b0: u8, b1: u8, b2: u8)
    by (bit_vector)
    requires
        b0 == 0xed,
        0xa0 <= b1 <= 0xbf,
        0x80 <= b2 <= 0xbf,
    ensures
        !not_surrogate(codepoint_width_3(b0, b1, b2)),
{
}

proof fn lemma_scalar_width_4(b0: u8, b1: u8, b2: u8, b3: u8)
    by (bit_vector)
    requires
        0xf0 <= b0 <= 0xf4,
        0x80 <= b1 <= 0xbf,
        0x80 <= b2 <= 0xbf,
        0x80 <= b3 <= 0xbf,
        b0 == 0xf0 ==> b1 >= 0x90,
        b0 == 0xf4 ==> b1 <= 0x8f,
    ensures
        not_overlong_encoding(codepoint_width_4(b0, b1, b2, b3), 4),
        not_surrogate(codepoint_width_4(b0, b1, b2, b3)),
{
}

proof fn lemma_overlong_width_4_low(b0: u8, b1: u8, b2: u8, b3: u8)
    by (bit_vector)
    requires
        b0 == 0xf0,
        0x80 <= b1 <= 0x8f,
        0x80 <= b2 <= 0xbf,
        0x80 <= b3 <= 0xbf,
    ensures
        !not_overlong_encoding(codepoint_width_4(b0, b1, b2, b3), 4),
{
}

proof fn lemma_overlong_width_4_high(b0: u8, b1: u8, b2: u8, b3: u8)
    by (bit_vector)
    requires
        0xf4 <= b0 <= 0xf7,
        0x80 <= b1 <= 0xbf,
        0x80 <= b2 <= 0xbf,
        0x80 <= b3 <= 0xbf,
        b0 == 0xf4 ==> b1 >= 0x90,
    ensures
        !not_overlong_encoding(codepoint_width_4(b0, b1, b2, b3), 4),
{
}

/// True exactly when the byte has the form of a UTF-8 continuation byte.
fn is_continuation(b: u8) -> (r: bool)
    ensures
        r == is_continuation_byte(b),
{
    0x80 <= b && b <= 0xbf
}

// A scan that finds no well-formed scalar at position `i` has refuted the
// whole sequence: the valid prefix cannot be extended.
proof fn lemma_tail_invalid(bytes: Seq<u8>, i: int)
    requires
        0 <= i < bytes.len(),
        partial_valid_utf8(bytes, i),
        !valid_first_scalar(bytes.subrange(i, bytes.len() as int)),
    ensures
        !valid_utf8(bytes),
{
    let tail = bytes.subrange(i, bytes.len() as int);
    assert(tail.len() > 0);
    assert(!valid_utf8(tail));
    partial_valid_partial_invalid_utf8(bytes, i);
}

/// Decides in one left-to-right pass whether the bytes form a complete, valid
/// UTF-8 encoding.
pub fn utf8_check(bytes: &Vec<u8>) -> (ok: bool)
    ensures
        ok == valid_utf8(bytes@),
{
    let len = bytes.len();
    let mut i: usize = 0;
    while i < len
        invariant
            len == bytes@.len(),
            i <= len,
            partial_valid_utf8(bytes@, i as int),
        decreases len - i,
    {
        let ghost tail = bytes@.subrange(i as int, len as int);
        let b0 = bytes[i];
        let width: usize;
        if b0 <= 0x7f {
            proof {
                lemma_scalar_width_1(b0);
                assert(valid_first_scalar(tail));
            }
            width = 1;
        } else if b0 < 0xc2 {
            // a continuation byte in leading position, or one of the two
            // leading bytes 0xc0 and 0xc1 whose encodings are always overlong
            proof {
                if 0xc0 <= b0 && tail.len() >= 2 && is_continuation_byte(tail[1]) {
                    lemma_overlong_width_2(b0, bytes@[i + 1]);
                }
                assert(!valid_first_scalar(tail));
                lemma_tail_invalid(bytes@, i as int);
            }
            return false;
        } else if b0 <= 0xdf {
            if len - i < 2 || !is_continuation(bytes[i + 1]) {
                proof {
                    assert(!valid_first_scalar(tail));
                    lemma_tail_invalid(bytes@, i as int);
                }
                return false;
            }
            proof {
                lemma_scalar_width_2(b0, bytes@[i + 1]);
                assert(valid_first_scalar(tail));
            }
            width = 2;
        } else if b0 <= 0xef {
            if len - i < 3 || !is_continuation(bytes[i + 1]) || !is_continuation(bytes[i + 2]) {
                proof {
                    assert(!valid_first_scalar(tail));
                    lemma_tail_invalid(bytes@, i as int);
                }
                return false;
            }
            let b1 = bytes[i + 1];
            if b0 == 0xe0 && b1 < 0xa0 {
                proof {
                    lemma_overlong_width_3(b0, b1, bytes@[i + 2]);
                    assert(!valid_first_scalar(tail));
                    lemma_tail_invalid(bytes@, i as int);
                }
                return false;
            }
            if b0 == 0xed && b1 > 0x9f {
                proof {
                    lemma_surrogate_width_3(b0, b1, bytes@[i + 2]);
                    assert(!valid_first_scalar(tail));
                    lemma_tail_invalid(bytes@, i as int);
                }
                return false;
            }
            proof {
                lemma_scalar_width_3(b0, b1, bytes@[i + 2]);
                assert(valid_first_scalar(tail));
            }
            width = 3;
        } else if b0 <= 0xf4 {
            if len - i < 4 || !is_continuation(bytes[i + 1]) || !is_continuation(bytes[i + 2])
                || !is_continuation(bytes[i + 3]) {
                proof {
                    assert(!valid_first_scalar(tail));
                    lemma_tail_invalid(bytes@, i as int);
                }
                return false;
            }
            let b1 = bytes[i + 1];
            if b0 == 0xf0 && b1 < 0x90 {
                proof {
                    lemma_overlong_width_4_low(b0, b1, bytes@[i + 2], bytes@[i + 3]);
                    assert(!valid_first_scalar(tail));
                    lemma_tail_invalid(bytes@, i as int);
                }
                return false;
            }
            if b0 == 0xf4 && b1 > 0x8f {
                proof {
                    lemma_overlong_width_4_high(b0, b1, bytes@[i + 2], bytes@[i + 3]);
                    assert(!valid_first_scalar(tail));
                    lemma_tail_invalid(bytes@, i as int);
                }
                return false;
            }
            proof {
                lemma_scalar_width_4(b0, b1, bytes@[i + 2], bytes@[i + 3]);
                assert(valid_first_scalar(tail));
            }
            width = 4;
        } else {
            // 0xf5 through 0xff: no scalar's encoding begins with these
            proof {
                if b0 <= 0xf7 && tail.len() >= 4 && is_continuation_byte(tail[1])
                    && is_continuation_byte(tail[2]) && is_continuation_byte(tail[3]) {
                    lemma_overlong_width_4_high(b0, bytes@[i + 1], bytes@[i + 2], bytes@[i + 3]);
                }
                assert(!valid_first_scalar(tail));
                lemma_tail_invalid(bytes@, i as int);
            }
            return false;
        }
        proof {
            assert(length_of_first_scalar(tail) == width);
            partial_valid_utf8_extend(bytes@, i as int);
        }
        i += width;
    }
    proof {
        assert(bytes@.subrange(0, len as int) =~= bytes@);
    }
    true
}

proof fn lemma_nul_byte(c: u32)
    by (bit_vector)
    requires
        c == 0,
    ensures
        leading_byte_width_1(c) == 0u8,
{
}

/// Law: text whose UTF-8 encoding is free of the zero byte — the reader's
/// terminator — is itself free of the terminator character.
pub proof fn lemma_terminator_free(chars: Seq<char>)
    requires
        forall|k: int| 0 <= k < encode_utf8(chars).len() ==> encode_utf8(chars)[k] != 0u8,
    ensures
        forall|j: int| 0 <= j < chars.len() ==> chars[j] != '\0',
    decreases chars.len(),
{
    if chars.len() > 0 {
        let whole = encode_utf8(chars);
        let head = encode_scalar(chars[0] as u32);
        let rest = chars.drop_first();
        assert(whole == head + encode_utf8(rest));
        char_is_scalar(chars[0]);
        assert(1 <= head.len() <= 4);
        if chars[0] == '\0' {
            lemma_nul_byte(0u32);
            assert(whole[0] == 0u8);
        }
        assert(forall|k: int|
            0 <= k < encode_utf8(rest).len() ==> encode_utf8(rest)[k] == whole[k + head.len()]);
        lemma_terminator_free(rest);
        assert(forall|j: int| 1 <= j < chars.len() ==> chars[j] == rest[j - 1]);
    }
}

/// Law: a byte run that is both valid UTF-8 on its own and the prefix of a
/// longer valid encoding can only end at a character boundary of that
/// encoding.
pub proof fn lemma_valid_prefix_at_boundary(bytes: Seq<u8>, i: int)
    requires
        valid_utf8(bytes),
        0 <= i <= bytes.len(),
        valid_utf8(bytes.subrange(0, i)),
    ensures
        is_char_boundary(bytes, i),
    decreases bytes.len(),
{
    if i != 0 {
        let p = bytes.subrange(0, i);
        assert(valid_first_scalar(p));
        let w = length_of_first_scalar(bytes);
        assert(length_of_first_scalar(p) == w);
        assert(i >= w);
        let bytes_rest = pop_first_scalar(bytes);
        let p_rest = pop_first_scalar(p);
        assert(p_rest =~= bytes_rest.subrange(0, i - w));
        lemma_valid_prefix_at_boundary(bytes_rest, i - w);
    }
}

/// Law: cutting the UTF-8 encoding of a character sequence anywhere but at a
/// character boundary leaves a byte run that does not decode. Truncation that
/// severs a multi-byte character therefore always surfaces as a decode
/// failure, never as a shorter string.
pub proof fn lemma_truncation_defeats_decode(chars: Seq<char>, cut: int)
    requires
        0 <= cut <= encode_utf8(chars).len(),
        !is_char_boundary(encode_utf8(chars), cut),
    ensures
        !valid_utf8(encode_utf8(chars).subrange(0, cut)),
{
    encode_utf8_valid_utf8(chars);
    if valid_utf8(encode_utf8(chars).subrange(0, cut)) {
        lemma_valid_prefix_at_boundary(encode_utf8(chars), cut);
    }
}

/// Law: an encoding that arrives whole decodes back to exactly the characters
/// that produced it — a large enough byte bound passes the input through
/// unchanged.
pub proof fn lemma_exact_fit_round_trip(chars: Seq<char>)
    ensures
        valid_utf8(encode_utf8(chars)),
        decode_utf8(encode_utf8(chars)) == chars,
{
    encode_utf8_valid_utf8(chars);
    encode_utf8_decode_utf8(chars);
}

} // verus!
