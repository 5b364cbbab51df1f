//! Lower-case hexadecimal encoding of byte strings, as used for the recipient nonce that
//! witness invoices carry in their transport endpoints.
use vstd::prelude::*;

verus! {

/// The ASCII character of a nibble (`0..16`) in lower-case hex.
pub open spec fn hex_digit(n: u8) -> u8 {
    if n < 10 {
        (48 + n) as u8
    } else {
        (87 + n) as u8
    }
}

/// The value of an ASCII hex digit (either case), or `None` for any other byte.
pub open spec fn hex_value(c: u8) -> Option<int> {
    if 48 <= c <= 57 {
        Some(c - 48)
    } else if 97 <= c <= 102 {
        Some(c - 87)
    } else if 65 <= c <= 70 {
        Some(c - 55)
    } else {
        None
    }
}

/// Two lower-case hex digits per byte, high nibble first.
pub open spec fn spec_hex_encode(bytes: Seq<u8>) -> Seq<u8> {
    Seq::new(
        2 * bytes.len(),
        |i: int|
            if i % 2 == 0 {
                hex_digit(bytes[i / 2] / 16)
            } else {
                hex_digit(bytes[i / 2] % 16)
            },
    )
}

/// A string of hex digits of even length.
pub open spec fn is_hex_string(s: Seq<u8>) -> bool {
    &&& s.len() % 2 == 0
    &&& forall|i: int| 0 <= i < s.len() ==> (#[trigger] hex_value(s[i])) is Some
}

/// The bytes that a hex string stands for, or `None` where it is not a hex string.
pub open spec fn spec_hex_decode(s: Seq<u8>) -> Option<Seq<u8>> {
    if is_hex_string(s) {
        Some(
            Seq::new(
                s.len() / 2,
                |i: int| (hex_value(s[2 * i]).unwrap() * 16 + hex_value(s[2 * i + 1]).unwrap()) as u8,
            ),
        )
    } else {
        None
    }
}

/// Decoding gives back what encoding was given.
pub proof fn lemma_hex_roundtrip(bytes: Seq<u8>)
    ensures
        spec_hex_decode(spec_hex_encode(bytes)) == Some(bytes),
{
    let e = spec_hex_encode(bytes);
    assert forall|i: int| 0 <= i < e.len() implies (#[trigger] hex_value(e[i])) is Some by {
        let b = bytes[i / 2];
        assert(b / 16 < 16);
    }
    let d = spec_hex_decode(e).unwrap();
    assert forall|k: int| 0 <= k < bytes.len() implies d[k] == bytes[k] by {
        let b = bytes[k];
        assert(e[2 * k] == hex_digit(b / 16));
        assert(e[2 * k + 1] == hex_digit(b % 16));
        assert(hex_value(hex_digit(b / 16)) == Some((b / 16) as int));
        assert(hex_value(hex_digit(b % 16)) == Some((b % 16) as int));
    }
    assert(d =~= bytes);
}

fn nibble_char(n: u8) -> (c: u8)
    requires
        n < 16,
    ensures
        c == hex_digit(n),
{
    if n < 10 {
        48 + n
    } else {
        87 + n
    }
}

/// Encodes `bytes` as lower-case hex, two digits per byte.
pub fn hex_encode(bytes: &[u8]) -> (res: Vec<u8>)
    ensures
        res@ == spec_hex_encode(bytes@),
{
    let mut res: Vec<u8> = Vec::new();
    let mut k: usize = 0;
    while k < bytes.len()
        invariant
            k <= bytes.len(),
            res@.len() == 2 * k,
            forall|i: int| 0 <= i < 2 * k ==> res@[i] == #[trigger] spec_hex_encode(bytes@)[i],
        decreases bytes.len() - k,
    {
        let b = bytes[k];
        res.push(nibble_char(b / 16));
        res.push(nibble_char(b % 16));
        k = k + 1;
    }
    assert(res@ =~= spec_hex_encode(bytes@));
    res
}

fn nibble_value(c: u8) -> (v: Option<u8>)
    ensures
        match v {
            Some(x) => hex_value(c) == Some(x as int),
            None => hex_value(c) is None,
        },
{
    if 48 <= c && c <= 57 {
        Some(c - 48)
    } else if 97 <= c && c <= 102 {
        Some(c - 87)
    } else if 65 <= c && c <= 70 {
        Some(c - 55)
    } else {
        None
    }
}

/// Decodes a hex string (digits of either case); `None` where `s` has odd length or holds a
/// byte that is no hex digit.
pub fn hex_decode(s: &[u8]) -> (res: Option<Vec<u8>>)
    ensures
        match res {
            Some(v) => spec_hex_decode(s@) == Some(v@),
            None => spec_hex_decode(s@) is None,
        },
{
    if s.len() % 2 != 0 {
        return None;
    }
    let mut res: Vec<u8> = Vec::new();
    let mut k: usize = 0;
    while k < s.len() / 2
        invariant
            s.len() % 2 == 0,
            k <= s.len() / 2,
            res@.len() == k,
            forall|i: int| 0 <= i < 2 * k ==> (#[trigger] hex_value(s@[i])) is Some,
            forall|j: int|
                0 <= j < k ==> res@[j] == (hex_value(s@[2 * j]).unwrap() * 16 + hex_value(
                    s@[2 * j + 1],
                ).unwrap()) as u8,
        decreases s.len() / 2 - k,
    {
        let hi = nibble_value(s[2 * k]);
        let lo = nibble_value(s[2 * k + 1]);
        match (hi, lo) {
            (Some(h), Some(l)) => {
                res.push(h * 16 + l);
            },
            _ => {
                assert(!is_hex_string(s@)) by {
                    if hex_value(s@[2 * k as int]) is None {
                    } else {
                        assert(hex_value(s@[2 * k + 1]) is None);
                    }
                }
                return None;
            },
        }
        k = k + 1;
    }
    assert(is_hex_string(s@));
    assert(res@ =~= spec_hex_decode(s@).unwrap());
    Some(res)
}

} // verus!
