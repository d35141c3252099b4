//! Well-formed UTF-8, stated over byte sequences and checked by a verified
//! validator. A received payload is recorded as text only when it passes
//! this check; every payload the sender emits is ASCII and therefore passes.

use vstd::prelude::*;

verus! {

/// A UTF-8 continuation byte: high bits `10`.
pub open spec fn is_cont_byte(b: u8) -> bool {
    0x80 <= b <= 0xBF
}

/// The length of the well-formed UTF-8 encoding that opens `b`, or 0 when
/// `b` does not open with one. The cases are the standard table: one-byte
/// ASCII, two to four byte forms with their restricted second bytes, which
/// exclude overlong encodings, surrogates and values past `U+10FFFF`.
pub open spec fn utf8_prefix_len(b: Seq<u8>) -> int {
    if b.len() >= 1 && b[0] <= 0x7F {
        1
    } else if b.len() >= 2 && 0xC2 <= b[0] <= 0xDF && is_cont_byte(b[1]) {
        2
    } else if b.len() >= 3 && b[0] == 0xE0 && 0xA0 <= b[1] <= 0xBF && is_cont_byte(b[2]) {
        3
    } else if b.len() >= 3 && 0xE1 <= b[0] <= 0xEC && is_cont_byte(b[1]) && is_cont_byte(b[2]) {
        3
    } else if b.len() >= 3 && b[0] == 0xED && 0x80 <= b[1] <= 0x9F && is_cont_byte(b[2]) {
        3
    } else if b.len() >= 3 && 0xEE <= b[0] <= 0xEF && is_cont_byte(b[1]) && is_cont_byte(b[2]) {
        3
    } else if b.len() >= 4 && b[0] == 0xF0 && 0x90 <= b[1] <= 0xBF && is_cont_byte(b[2])
        && is_cont_byte(b[3]) {
        4
    } else if b.len() >= 4 && 0xF1 <= b[0] <= 0xF3 && is_cont_byte(b[1]) && is_cont_byte(b[2])
        && is_cont_byte(b[3]) {
        4
    } else if b.len() >= 4 && b[0] == 0xF4 && 0x80 <= b[1] <= 0x8F && is_cont_byte(b[2])
        && is_cont_byte(b[3]) {
        4
    } else {
        0
    }
}

/// The bytes are well-formed UTF-8: a concatenation of well-formed
/// character encodings.
pub open spec fn is_utf8(b: Seq<u8>) -> bool
    decreases b.len(),
{
    if b.len() == 0 {
        true
    } else {
        utf8_prefix_len(b) > 0 && is_utf8(b.skip(utf8_prefix_len(b)))
    }
}

/// Every byte is ASCII.
pub open spec fn is_ascii_bytes(b: Seq<u8>) -> bool {
    forall|k: int| 0 <= k < b.len() ==> b[k] <= 0x7F
}

/// ASCII bytes are well-formed UTF-8.
pub proof fn lemma_ascii_is_utf8(b: Seq<u8>)
    requires
        is_ascii_bytes(b),
    ensures
        is_utf8(b),
    decreases b.len(),
{
    if b.len() > 0 {
        assert(utf8_prefix_len(b) == 1);
        assert(is_ascii_bytes(b.skip(1))) by {
            assert(forall|k: int| 0 <= k < b.skip(1).len() ==> b.skip(1)[k] == b[k + 1]);
        }
        lemma_ascii_is_utf8(b.skip(1));
    }
}

/// Every packet payload is ASCII, hence well-formed UTF-8.
pub proof fn lemma_payload_is_utf8(n: nat)
    ensures
        is_ascii_bytes(crate::codec::payload_spec(n)),
        is_utf8(crate::codec::payload_spec(n)),
{
    lemma_dec_digits_ascii(n);
    let p = crate::codec::payload_spec(n);
    assert(is_ascii_bytes(p)) by {
        assert(forall|k: int|
            0 <= k < 7 ==> #[trigger] p[k] == crate::codec::packet_prefix()[k]);
        assert(forall|k: int|
            7 <= k < p.len() ==> #[trigger] p[k] == crate::codec::dec_digits_spec(n)[k - 7]);
    }
    lemma_ascii_is_utf8(p);
}

/// Decimal digit strings are ASCII.
proof fn lemma_dec_digits_ascii(n: nat)
    ensures
        is_ascii_bytes(crate::codec::dec_digits_spec(n)),
    decreases n,
{
    if n < 10 {
    } else {
        lemma_dec_digits_ascii(n / 10);
        let s = crate::codec::dec_digits_spec(n);
        let s0 = crate::codec::dec_digits_spec(n / 10);
        assert(forall|k: int| 0 <= k < s0.len() ==> s[k] == s0[k]);
        assert(s[s.len() - 1] == (0x30 + n % 10) as u8);
    }
}

/// Checks that the bytes are well-formed UTF-8.
pub fn is_valid_utf8(b: &[u8]) -> (r: bool)
    ensures
        r == is_utf8(b@),
{
    let n = b.len();
    let mut i: usize = 0;
    proof {
        assert(b@.skip(0) =~= b@);
    }
    while i < n
        invariant
            n == b@.len(),
            0 <= i <= n,
            is_utf8(b@) == is_utf8(b@.skip(i as int)),
        decreases n - i,
    {
        let ghost rest = b@.skip(i as int);
        let first = b[i];
        let len: usize;
        if first <= 0x7F {
            len = 1;
        } else if 0xC2 <= first && first <= 0xDF {
            if n - i < 2 || !(0x80 <= b[i + 1] && b[i + 1] <= 0xBF) {
                proof {
                    assert(utf8_prefix_len(rest) == 0);
                }
                return false;
            }
            len = 2;
        } else if first == 0xE0 {
            if n - i < 3 || !(0xA0 <= b[i + 1] && b[i + 1] <= 0xBF) || !(0x80 <= b[i + 2] && b[i
                + 2] <= 0xBF) {
                proof {
                    assert(utf8_prefix_len(rest) == 0);
                }
                return false;
            }
            len = 3;
        } else if 0xE1 <= first && first <= 0xEC || first == 0xEE || first == 0xEF {
            if n - i < 3 || !(0x80 <= b[i + 1] && b[i + 1] <= 0xBF) || !(0x80 <= b[i + 2] && b[i
                + 2] <= 0xBF) {
                proof {
                    assert(utf8_prefix_len(rest) == 0);
                }
                return false;
            }
            len = 3;
        } else if first == 0xED {
            if n - i < 3 || !(0x80 <= b[i + 1] && b[i + 1] <= 0x9F) || !(0x80 <= b[i + 2] && b[i
                + 2] <= 0xBF) {
                proof {
                    assert(utf8_prefix_len(rest) == 0);
                }
                return false;
            }
            len = 3;
        } else if first == 0xF0 {
            if n - i < 4 || !(0x90 <= b[i + 1] && b[i + 1] <= 0xBF) || !(0x80 <= b[i + 2] && b[i
                + 2] <= 0xBF) || !(0x80 <= b[i + 3] && b[i + 3] <= 0xBF) {
                proof {
                    assert(utf8_prefix_len(rest) == 0);
                }
                return false;
            }
            len = 4;
        } else if 0xF1 <= first && first <= 0xF3 {
            if n - i < 4 || !(0x80 <= b[i + 1] && b[i + 1] <= 0xBF) || !(0x80 <= b[i + 2] && b[i
                + 2] <= 0xBF) || !(0x80 <= b[i + 3] && b[i + 3] <= 0xBF) {
                proof {
                    assert(utf8_prefix_len(rest) == 0);
                }
                return false;
            }
            len = 4;
        } else if first == 0xF4 {
            if n - i < 4 || !(0x80 <= b[i + 1] && b[i + 1] <= 0x8F) || !(0x80 <= b[i + 2] && b[i
                + 2] <= 0xBF) || !(0x80 <= b[i + 3] && b[i + 3] <= 0xBF) {
                proof {
                    assert(utf8_prefix_len(rest) == 0);
                }
                return false;
            }
            len = 4;
        } else {
            proof {
                assert(utf8_prefix_len(rest) == 0);
            }
            return false;
        }
        proof {
            assert(utf8_prefix_len(rest) == len);
            assert(rest.skip(len as int) =~= b@.skip(i + len));
        }
        i += len;
    }
    proof {
        assert(b@.skip(n as int) =~= Seq::<u8>::empty());
    }
    true
}

} // verus!
