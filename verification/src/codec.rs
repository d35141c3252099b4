//! The packet payload codec. A payload is the ASCII text `packet ` followed
//! by the decimal digits of the packet's index, with no sign, no leading
//! zeros and no trailing bytes. Encoding and decoding are verified against
//! the same mathematical description, so the round trip is exact.

use vstd::prelude::*;

verus! {

/// A byte is an ASCII decimal digit.
pub open spec fn is_dec_digit(b: u8) -> bool {
    0x30 <= b <= 0x39
}

/// The decimal digits of `n`, most significant first, without leading zeros.
pub open spec fn dec_digits_spec(n: nat) -> Seq<u8>
    decreases n,
{
    if n < 10 {
        seq![(0x30 + n) as u8]
    } else {
        dec_digits_spec(n / 10).push((0x30 + n % 10) as u8)
    }
}

/// The numeric value of a sequence of decimal digit bytes.
pub open spec fn dec_value_spec(b: Seq<u8>) -> nat
    decreases b.len(),
{
    if b.len() == 0 {
        0
    } else {
        dec_value_spec(b.drop_last()) * 10 + (b.last() - 0x30) as nat
    }
}

/// The sequence is a canonical decimal numeral: nonempty, digits only,
/// and no leading zero unless the numeral is exactly `0`.
pub open spec fn is_canonical_dec(b: Seq<u8>) -> bool {
    &&& b.len() > 0
    &&& forall|k: int| 0 <= k < b.len() ==> is_dec_digit(b[k])
    &&& b.len() > 1 ==> b[0] != 0x30
}

/// The bytes of the ASCII text `packet ` that opens every payload.
pub open spec fn packet_prefix() -> Seq<u8> {
    seq![0x70u8, 0x61u8, 0x63u8, 0x6bu8, 0x65u8, 0x74u8, 0x20u8]
}

/// The payload that labels packet `n`: `packet ` followed by `n` in decimal.
pub open spec fn payload_spec(n: nat) -> Seq<u8> {
    packet_prefix() + dec_digits_spec(n)
}

/// Appends the decimal digits of `n` to `out`.
fn push_decimal(n: u64, out: &mut Vec<u8>)
    ensures
        final(out)@ == old(out)@ + dec_digits_spec(n as nat),
    decreases n,
{
    if n < 10 {
        out.push(0x30 + (n as u8));
        assert(out@ =~= old(out)@ + dec_digits_spec(n as nat));
    } else {
        push_decimal(n / 10, out);
        out.push(0x30 + ((n % 10) as u8));
        assert(out@ =~= old(out)@ + dec_digits_spec(n as nat));
    }
}

/// Encodes the payload that labels packet `index`.
pub fn format_payload(index: u64) -> (r: Vec<u8>)
    ensures
        r@ == payload_spec(index as nat),
{
    let mut out: Vec<u8> = Vec::new();
    out.push(0x70);
    out.push(0x61);
    out.push(0x63);
    out.push(0x6b);
    out.push(0x65);
    out.push(0x74);
    out.push(0x20);
    assert(out@ =~= packet_prefix());
    push_decimal(index, &mut out);
    out
}

/// The value of a prefix of a digit string never exceeds the whole string's.
proof fn lemma_dec_value_prefix_le(b: Seq<u8>, j: int)
    requires
        0 <= j <= b.len(),
    ensures
        dec_value_spec(b.take(j)) <= dec_value_spec(b),
    decreases b.len() - j,
{
    if j == b.len() {
        assert(b.take(j) =~= b);
    } else {
        assert(b.take(j + 1).drop_last() =~= b.take(j));
        assert(dec_value_spec(b.take(j)) * 10 >= dec_value_spec(b.take(j)));
        lemma_dec_value_prefix_le(b, j + 1);
    }
}

/// Parses a canonical decimal numeral. Returns its value exactly when the
/// bytes are a canonical numeral whose value fits in `u64`.
pub fn parse_decimal(b: &[u8]) -> (r: Option<u64>)
    ensures
        r is Some <==> is_canonical_dec(b@) && dec_value_spec(b@) <= u64::MAX,
        r matches Some(v) ==> v == dec_value_spec(b@),
{
    if b.len() == 0 {
        return None;
    }
    if b.len() > 1 && b[0] == 0x30 {
        return None;
    }
    let mut acc: u64 = 0;
    let mut i: usize = 0;
    while i < b.len()
        invariant
            0 <= i <= b@.len(),
            b@.len() > 0,
            b@.len() > 1 ==> b@[0] != 0x30,
            forall|k: int| 0 <= k < i ==> is_dec_digit(b@[k]),
            acc == dec_value_spec(b@.take(i as int)),
        decreases b@.len() - i,
    {
        let c = b[i];
        if c < 0x30 || c > 0x39 {
            return None;
        }
        let d = (c - 0x30) as u64;
        proof {
            assert(b@.take(i + 1).drop_last() =~= b@.take(i as int));
            assert(b@.take(i + 1).last() == b@[i as int]);
        }
        if acc > (u64::MAX - d) / 10 {
            proof {
                assert(acc * 10 + d > u64::MAX) by (nonlinear_arith)
                    requires
                        acc > (u64::MAX - d) / 10,
                        d <= 9,
                ;
                assert(dec_value_spec(b@.take(i + 1)) > u64::MAX);
                lemma_dec_value_prefix_le(b@, i + 1);
            }
            return None;
        }
        assert(acc * 10 + d <= u64::MAX) by (nonlinear_arith)
            requires
                acc <= (u64::MAX - d) / 10,
                d <= 9,
        ;
        acc = acc * 10 + d;
        i += 1;
    }
    proof {
        assert(b@.take(i as int) =~= b@);
    }
    Some(acc)
}

/// Decimal encoding round-trips: the digits of `n` form a canonical numeral
/// whose value is `n`.
pub proof fn lemma_dec_digits_value(n: nat)
    ensures
        is_canonical_dec(dec_digits_spec(n)),
        dec_value_spec(dec_digits_spec(n)) == n,
        n >= 1 ==> dec_digits_spec(n)[0] != 0x30,
    decreases n,
{
    if n < 10 {
        let s = dec_digits_spec(n);
        assert(s.drop_last() =~= Seq::<u8>::empty());
        assert(dec_value_spec(Seq::<u8>::empty()) == 0);
        assert(s[0] == (0x30 + n) as u8);
        assert(dec_value_spec(s) == n);
        assert forall|k: int| 0 <= k < s.len() implies is_dec_digit(s[k]) by {
            assert(k == 0);
        }
    } else {
        lemma_dec_digits_value(n / 10);
        let s = dec_digits_spec(n);
        let s0 = dec_digits_spec(n / 10);
        assert(s.drop_last() =~= s0);
        assert(s[0] == s0[0]);
        assert(dec_value_spec(s) == (n / 10) * 10 + n % 10);
        assert((n / 10) * 10 + n % 10 == n) by (nonlinear_arith);
        assert(forall|k: int| 0 <= k < s.len() ==> is_dec_digit(#[trigger] s[k])) by {
            assert(forall|k: int| 0 <= k < s0.len() ==> is_dec_digit(#[trigger] s[k]));
            assert(is_dec_digit(s[s.len() - 1]));
        }
    }
}

/// A canonical numeral that does not start with `0` has a positive value.
proof fn lemma_canonical_value_positive(b: Seq<u8>)
    requires
        b.len() > 0,
        forall|k: int| 0 <= k < b.len() ==> is_dec_digit(b[k]),
        b[0] != 0x30,
    ensures
        dec_value_spec(b) >= 1,
    decreases b.len(),
{
    if b.len() == 1 {
        assert(b.drop_last() =~= Seq::<u8>::empty());
    } else {
        let b0 = b.drop_last();
        assert(b0[0] == b[0]);
        lemma_canonical_value_positive(b0);
        assert(dec_value_spec(b0) * 10 >= 10) by (nonlinear_arith)
            requires
                dec_value_spec(b0) >= 1,
        ;
    }
}

/// A canonical numeral is the decimal encoding of its own value: decoding
/// then encoding gives the same bytes back.
pub proof fn lemma_canonical_dec_unique(b: Seq<u8>)
    requires
        is_canonical_dec(b),
    ensures
        dec_digits_spec(dec_value_spec(b)) == b,
    decreases b.len(),
{
    if b.len() == 1 {
        let d = (b[0] - 0x30) as nat;
        assert(b.drop_last() =~= Seq::<u8>::empty());
        assert(dec_value_spec(Seq::<u8>::empty()) == 0);
        assert(dec_value_spec(b) == d);
        assert(dec_digits_spec(d) =~= b);
    } else {
        let b0 = b.drop_last();
        let d = (b.last() - 0x30) as nat;
        let v0 = dec_value_spec(b0);
        assert(b0[0] == b[0]);
        assert(forall|k: int| 0 <= k < b0.len() ==> is_dec_digit(#[trigger] b0[k]));
        lemma_canonical_dec_unique(b0);
        lemma_canonical_value_positive(b0);
        let v = dec_value_spec(b);
        assert(v == v0 * 10 + d);
        assert(v0 * 10 + d >= 10 && (v0 * 10 + d) / 10 == v0 && (v0 * 10 + d) % 10 == d)
            by (nonlinear_arith)
            requires
                v0 >= 1,
                d <= 9,
        ;
        assert(dec_digits_spec(v) == dec_digits_spec(v0).push((0x30 + d) as u8));
        assert(dec_digits_spec(v) =~= b);
    }
}

/// Decodes a payload. Returns the packet index exactly when the bytes are
/// the payload that labels some index that fits in `u64`.
pub fn parse_payload(b: &[u8]) -> (r: Option<u64>)
    ensures
        r is Some <==> exists|i: u64| b@ == payload_spec(i as nat),
        r matches Some(v) ==> b@ == payload_spec(v as nat),
{
    if b.len() < 7 {
        proof {
            assert forall|i: u64| b@ != payload_spec(i as nat) by {
                assert(payload_spec(i as nat).len() >= 8);
            }
        }
        return None;
    }
    let prefix_ok = b[0] == 0x70 && b[1] == 0x61 && b[2] == 0x63 && b[3] == 0x6b && b[4]
        == 0x65 && b[5] == 0x74 && b[6] == 0x20;
    if !prefix_ok {
        proof {
            let k = choose|k: int| 0 <= k < 7 && b@[k] != packet_prefix()[k];
            assert forall|i: u64| b@ != payload_spec(i as nat) by {
                assert(payload_spec(i as nat)[k] == packet_prefix()[k]);
            }
        }
        return None;
    }
    let digits = vstd::slice::slice_subrange(b, 7, b.len());
    let parsed = parse_decimal(digits);
    proof {
        assert(digits@ =~= b@.skip(7));
    }
    match parsed {
        Some(v) => {
            proof {
                lemma_canonical_dec_unique(b@.skip(7));
                assert(b@ =~= packet_prefix() + b@.skip(7));
                assert(b@ == payload_spec(v as nat));
            }
            Some(v)
        },
        None => {
            proof {
                assert forall|i: u64| b@ != payload_spec(i as nat) by {
                    if b@ == payload_spec(i as nat) {
                        lemma_dec_digits_value(i as nat);
                        assert(b@.skip(7) =~= dec_digits_spec(i as nat));
                    }
                }
            }
            None
        },
    }
}

/// The payload codec round-trips: every index's payload decodes back to it.
pub proof fn lemma_payload_round_trip(i: u64)
    ensures
        payload_spec(i as nat).skip(7) == dec_digits_spec(i as nat),
        is_canonical_dec(payload_spec(i as nat).skip(7)),
        dec_value_spec(payload_spec(i as nat).skip(7)) == i as nat,
{
    lemma_dec_digits_value(i as nat);
    assert(payload_spec(i as nat).skip(7) =~= dec_digits_spec(i as nat));
}

} // verus!
