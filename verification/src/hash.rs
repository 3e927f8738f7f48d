//! Block and transaction hashes: equality, order, the target rule, and their
//! hexadecimal text.

use vstd::prelude::*;

verus! {

/// The integer that the first eight bytes of `hash` spell in big-endian order.
pub open spec fn leading_u64(hash: [u8; 32]) -> nat {
    (hash[0] * 0x100_0000_0000_0000 + hash[1] * 0x1_0000_0000_0000 + hash[2] * 0x100_0000_0000
        + hash[3] * 0x1_0000_0000 + hash[4] * 0x100_0000 + hash[5] * 0x1_0000 + hash[6] * 0x100
        + hash[7]) as nat
}

/// Lexicographic order on byte strings of one length: at the first byte in which
/// they differ, `a` holds the smaller one.
pub open spec fn bytes_less(a: Seq<u8>, b: Seq<u8>) -> bool {
    exists|k: int|
        0 <= k < a.len() && k < b.len() && #[trigger] a[k] < b[k] && forall|j: int|
            0 <= j < k ==> a[j] == b[j]
}

/// Whether two hashes are the same.
pub fn hash_eq(a: &[u8; 32], b: &[u8; 32]) -> (same: bool)
    ensures
        same == (*a == *b),
{
    let mut i: usize = 0;
    while i < 32
        invariant
            i <= 32,
            forall|j: int| 0 <= j < i ==> a[j] == b[j],
        decreases 32 - i,
    {
        if a[i] != b[i] {
            return false;
        }
        i = i + 1;
    }
    assert(*a =~= *b);
    true
}

/// Whether `a` comes strictly before `b` in byte order.
pub fn hash_less(a: &[u8; 32], b: &[u8; 32]) -> (less: bool)
    ensures
        less == bytes_less(a@, b@),
{
    let mut i: usize = 0;
    while i < 32
        invariant
            i <= 32,
            forall|j: int| 0 <= j < i ==> a[j] == b[j],
        decreases 32 - i,
    {
        if a[i] < b[i] {
            assert(a@[i as int] < b@[i as int]);
            return true;
        }
        if a[i] > b[i] {
            assert(!bytes_less(a@, b@)) by {
                if bytes_less(a@, b@) {
                    let k = choose|k: int|
                        0 <= k < a@.len() && k < b@.len() && #[trigger] a@[k] < b@[k] && forall|
                            j: int,
                        |
                            0 <= j < k ==> a@[j] == b@[j];
                    assert(a[k] < b[k]);
                    assert(a@[i as int] != b@[i as int]);
                    assert(k <= i);
                }
            }
            return false;
        }
        i = i + 1;
    }
    assert(!bytes_less(a@, b@)) by {
        assert(forall|k: int| 0 <= k < 32 ==> a@[k] == b@[k]);
    }
    false
}

/// Whether a hash satisfies a mining target: its first eight bytes, read as a
/// big-endian integer, are less than the target.
pub fn meets_target(hash: &[u8; 32], target: u64) -> (ok: bool)
    ensures
        ok == (leading_u64(*hash) < target),
{
    let lead: u64 = (hash[0] as u64) * 0x100_0000_0000_0000 + (hash[1] as u64) * 0x1_0000_0000_0000
        + (hash[2] as u64) * 0x100_0000_0000 + (hash[3] as u64) * 0x1_0000_0000 + (hash[4] as u64)
        * 0x100_0000 + (hash[5] as u64) * 0x1_0000 + (hash[6] as u64) * 0x100 + (hash[7] as u64);
    lead < target
}

/// The lower-case hexadecimal digit of a value below sixteen.
pub open spec fn hex_digit(value: int) -> char {
    if value < 10 {
        (48 + value) as char
    } else {
        (87 + value) as char
    }
}

/// Lower-case hexadecimal text: two digits per byte, the high half first.
pub open spec fn hex_text(data: Seq<u8>) -> Seq<char> {
    Seq::new(
        2 * data.len(),
        |i: int|
            if i % 2 == 0 {
                hex_digit(data[i / 2] as int / 16)
            } else {
                hex_digit(data[i / 2] as int % 16)
            },
    )
}

/// The value of a hexadecimal digit of either case.
pub open spec fn digit_value(c: char) -> Option<int> {
    if '0' <= c <= '9' {
        Some(c as int - 48)
    } else if 'a' <= c <= 'f' {
        Some(c as int - 87)
    } else if 'A' <= c <= 'F' {
        Some(c as int - 55)
    } else {
        None
    }
}

/// What hexadecimal text spells: nothing when a character is no digit or when
/// the digits do not pair up.
pub open spec fn hex_bytes(text: Seq<char>) -> Option<Seq<u8>> {
    if text.len() % 2 == 0 && forall|i: int|
        0 <= i < text.len() ==> digit_value(#[trigger] text[i]) is Some {
        Some(
            Seq::new(
                text.len() / 2,
                |i: int|
                    (16 * digit_value(text[2 * i])->0 + digit_value(text[2 * i + 1])->0) as u8,
            ),
        )
    } else {
        None
    }
}

/// Calls `hex::encode`, which writes each byte as two lower-case digits, the
/// high half first.
#[verifier::external_body]
pub(crate) fn hex_encode(data: &[u8]) -> (text: String)
    ensures
        text@ == hex_text(data@),
{
    hex::encode(data)
}

/// Calls `hex::decode`, which reads pairs of digits of either case and refuses
/// any other character and an odd number of digits.
#[verifier::external_body]
pub(crate) fn hex_decode(text: &str) -> (bytes: Option<Vec<u8>>)
    ensures
        match bytes {
            Some(b) => hex_bytes(text@) == Some(b@),
            None => hex_bytes(text@) is None,
        },
{
    hex::decode(text).ok()
}

/// Decoding hexadecimal text gives back the bytes it was written from.
pub proof fn law_hex_round_trip(data: Seq<u8>)
    ensures
        hex_bytes(hex_text(data)) == Some(data),
{
    let text = hex_text(data);
    assert forall|i: int| 0 <= i < text.len() implies digit_value(#[trigger] text[i]) == Some(
        if i % 2 == 0 {
            data[i / 2] as int / 16
        } else {
            data[i / 2] as int % 16
        },
    ) by {}
    let read = Seq::new(
        text.len() / 2,
        |i: int| (16 * digit_value(text[2 * i])->0 + digit_value(text[2 * i + 1])->0) as u8,
    );
    assert forall|i: int| 0 <= i < data.len() implies #[trigger] read[i] == data[i] by {
        assert((2 * i) / 2 == i && (2 * i + 1) / 2 == i && (2 * i) % 2 == 0 && (2 * i + 1) % 2
            == 1);
        assert(digit_value(text[2 * i]) == Some(data[i] as int / 16));
        assert(digit_value(text[2 * i + 1]) == Some(data[i] as int % 16));
    }
    assert(read =~= data);
}

/// Two hashes have the same hexadecimal text only if they are the same.
pub proof fn law_hex_text_is_injective(a: [u8; 32], b: [u8; 32])
    ensures
        hex_text(a@) == hex_text(b@) <==> a == b,
{
    law_hex_round_trip(a@);
    law_hex_round_trip(b@);
    if hex_text(a@) == hex_text(b@) {
        assert(a@ == b@);
        assert(a =~= b);
    }
}

/// Of two different hashes exactly one comes before the other.
pub proof fn law_hash_order_is_strict_and_total(a: [u8; 32], b: [u8; 32])
    ensures
        !(bytes_less(a@, b@) && bytes_less(b@, a@)),
        a != b <==> bytes_less(a@, b@) || bytes_less(b@, a@),
{
    if a != b {
        assert(!(a =~= b));
        lemma_first_difference(a@, b@, 0);
    }
}

proof fn lemma_first_difference(a: Seq<u8>, b: Seq<u8>, from: int)
    requires
        a.len() == b.len(),
        0 <= from <= a.len(),
        forall|j: int| 0 <= j < from ==> a[j] == b[j],
        a != b,
    ensures
        bytes_less(a, b) || bytes_less(b, a),
    decreases a.len() - from,
{
    if from == a.len() {
        assert(a =~= b);
    } else if a[from] == b[from] {
        lemma_first_difference(a, b, from + 1);
    }
}

/// The number that decides whether a hash meets a target orders hashes as their first
/// eight bytes do, and takes every value of 64 bits: no other number does both.
pub proof fn law_leading_number_orders_hashes(a: [u8; 32], b: [u8; 32], k: int)
    requires
        0 <= k < 8,
        forall|j: int| 0 <= j < k ==> a[j] == b[j],
    ensures
        a[k] < b[k] ==> leading_u64(a) < leading_u64(b),
        k == 7 && a[7] == b[7] ==> leading_u64(a) == leading_u64(b),
        leading_u64(a) <= u64::MAX,
        (forall|j: int| 0 <= j < 8 ==> a[j] == 0) ==> leading_u64(a) == 0,
        (forall|j: int| 0 <= j < 8 ==> a[j] == 0xff) ==> leading_u64(a) == u64::MAX,
{
}

} // verus!
