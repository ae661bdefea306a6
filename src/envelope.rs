//! The envelope of a sentence: `$<payload>*<HH>`, optionally followed by
//! `\r\n`, no longer than the protocol allows, where `HH` is the checksum of
//! the payload in hexadecimal.
use vstd::prelude::*;
use crate::errors::{ErrorModel, NmeaSentenceError};
use crate::token::{delim_from, find_byte, lemma_delim_at, DOLLAR, NINE, STAR, ZERO};

verus! {

/// The longest sentence accepted, in bytes.
pub const MAX_SENTENCE_LENGTH: usize = 102;

pub const CR: u8 = 13;
pub const LF: u8 = 10;
pub const UPPER_A: u8 = 65;
pub const UPPER_F: u8 = 70;
pub const LOWER_A: u8 = 97;
pub const LOWER_F: u8 = 102;

/// The exclusive-or of all bytes of `s`.
pub open spec fn xor_all(s: Seq<u8>) -> u8
    decreases s.len(),
{
    if s.len() == 0 {
        0
    } else {
        xor_all(s.drop_last()) ^ s.last()
    }
}

/// The value of a hexadecimal digit, in either case.
pub open spec fn hex_value(c: u8) -> Option<u8> {
    if ZERO <= c <= NINE {
        Some((c - ZERO) as u8)
    } else if UPPER_A <= c <= UPPER_F {
        Some((c - UPPER_A + 10) as u8)
    } else if LOWER_A <= c <= LOWER_F {
        Some((c - LOWER_A + 10) as u8)
    } else {
        None
    }
}

/// The index of the checksum delimiter: the first `*` after the `$`.
pub open spec fn star_index(s: Seq<u8>) -> int {
    delim_from(s, 1, STAR)
}

/// Exactly two characters, and possibly `\r\n`, follow the delimiter.
pub open spec fn tail_ok(s: Seq<u8>, star: int) -> bool {
    ||| star + 3 == s.len()
    ||| star + 5 == s.len() && s[star + 3] == CR && s[star + 4] == LF
}

/// Checks the envelope and gives the index of the checksum delimiter.
pub open spec fn spec_envelope(s: Seq<u8>) -> Result<int, ErrorModel> {
    let star = star_index(s);
    if s.len() > MAX_SENTENCE_LENGTH {
        Err(ErrorModel::SentenceLength(s.len() as usize))
    } else if !(s.len() > 0 && s[0] == DOLLAR && tail_ok(s, star)) {
        Err(ErrorModel::General)
    } else {
        match (hex_value(s[star + 1]), hex_value(s[star + 2])) {
            (Some(h), Some(l)) => {
                let parsed = (h * 16 + l) as u8;
                let computed = xor_all(s.subrange(1, star));
                if parsed == computed {
                    Ok(star)
                } else {
                    Err(ErrorModel::Checksum(parsed, computed))
                }
            },
            _ => Err(ErrorModel::Hex(s[star + 1], s[star + 2])),
        }
    }
}

/// The value of a hexadecimal digit, in either case.
pub fn hex_digit(c: u8) -> (r: Option<u8>)
    ensures
        r == hex_value(c),
{
    if ZERO <= c && c <= NINE {
        Some(c - ZERO)
    } else if UPPER_A <= c && c <= UPPER_F {
        Some(c - UPPER_A + 10)
    } else if LOWER_A <= c && c <= LOWER_F {
        Some(c - LOWER_A + 10)
    } else {
        None
    }
}

/// The exclusive-or of `b[start..end]`.
pub fn checksum(b: &[u8], start: usize, end: usize) -> (r: u8)
    requires
        start <= end <= b@.len(),
    ensures
        r == xor_all(b@.subrange(start as int, end as int)),
{
    let mut acc: u8 = 0;
    let mut i = start;
    assert(b@.subrange(start as int, start as int) =~= Seq::<u8>::empty());
    while i < end
        invariant
            start <= i <= end <= b@.len(),
            acc == xor_all(b@.subrange(start as int, i as int)),
        decreases end - i,
    {
        assert(b@.subrange(start as int, i + 1).drop_last() =~= b@.subrange(start as int, i as int));
        acc = acc ^ b[i];
        i = i + 1;
    }
    acc
}

/// Validates the envelope of `s`: its length, its framing and its
/// checksum. On success gives the index of the checksum delimiter.
pub fn check_envelope<'a>(s: &'a [u8]) -> (r: Result<usize, NmeaSentenceError<'a>>)
    ensures
        match (r, spec_envelope(s@)) {
            (Ok(x), Ok(v)) => x == v,
            (Err(e), Err(f)) => e@ == f,
            _ => false,
        },
        r matches Ok(star) ==> 1 <= star && star + 3 <= s@.len(),
{
    if s.len() > MAX_SENTENCE_LENGTH {
        return Err(NmeaSentenceError::SentenceLengthError(s.len()));
    }
    if s.len() == 0 || s[0] != DOLLAR {
        return Err(NmeaSentenceError::GeneralParsingError);
    }
    let star = find_byte(s, 1, STAR);
    let n = s.len();
    let tail = star + 3 == n || (star + 5 == n && s[star + 3] == CR && s[star + 4] == LF);
    if !tail {
        return Err(NmeaSentenceError::GeneralParsingError);
    }
    let hi = s[star + 1];
    let lo = s[star + 2];
    match (hex_digit(hi), hex_digit(lo)) {
        (Some(h), Some(l)) => {
            let parsed = h * 16 + l;
            let computed = checksum(s, 1, star);
            if parsed == computed {
                Ok(star)
            } else {
                Err(NmeaSentenceError::ChecksumError(parsed, computed))
            }
        },
        _ => Err(NmeaSentenceError::HexParsingError(hi, lo)),
    }
}

/// The upper-case hexadecimal digit of `n`, for `n < 16`.
pub open spec fn hex_char(n: u8) -> u8 {
    if n < 10 {
        (ZERO + n) as u8
    } else {
        (UPPER_A + n - 10) as u8
    }
}

/// The sentence that frames `payload`: `$`, the payload, `*` and the
/// payload's checksum in two hexadecimal digits.
pub open spec fn frame(payload: Seq<u8>) -> Seq<u8> {
    let x = xor_all(payload);
    seq![DOLLAR] + payload + seq![STAR, hex_char(x / 16), hex_char(x % 16)]
}

proof fn lemma_xor_update(s: Seq<u8>, i: int, c: u8)
    requires
        0 <= i < s.len(),
    ensures
        xor_all(s.update(i, c)) == xor_all(s) ^ s[i] ^ c,
    decreases s.len(),
{
    let t = s.update(i, c);
    let a = xor_all(s.drop_last());
    let l = s.last();
    let si = s[i];
    if i == s.len() - 1 {
        assert(t.drop_last() =~= s.drop_last());
        assert(a ^ c == a ^ l ^ si ^ c) by (bit_vector)
            requires
                l == si,
        ;
    } else {
        lemma_xor_update(s.drop_last(), i, c);
        assert(t.drop_last() =~= s.drop_last().update(i, c));
        assert((a ^ si ^ c) ^ l == (a ^ l) ^ si ^ c) by (bit_vector);
    }
}

/// A sentence framed around any payload that holds no `*` and fits the
/// length bound passes the envelope: the checksum it carries is the one
/// recomputed from the bytes between `$` and `*`.
pub proof fn lemma_frame_valid(payload: Seq<u8>)
    requires
        payload.len() + 4 <= MAX_SENTENCE_LENGTH,
        forall|i: int| 0 <= i < payload.len() ==> payload[i] != STAR,
    ensures
        spec_envelope(frame(payload)) == Ok::<int, ErrorModel>(payload.len() + 1int),
{
    let s = frame(payload);
    let star = payload.len() + 1int;
    let x = xor_all(payload);
    assert forall|k: int| 1 <= k < star implies s[k] != STAR by {
        assert(s[k] == payload[k - 1]);
    }
    lemma_delim_at(s, 1, STAR, star);
    assert(s.subrange(1, star) =~= payload);
    let h = (x / 16) as u8;
    let l = (x % 16) as u8;
    assert(x / 16 < 16 && x % 16 < 16 && (x / 16) * 16 + x % 16 == x) by (nonlinear_arith)
        requires
            0 <= x < 256,
    ;
    assert(hex_value(hex_char(h)) == Some(h));
    assert(hex_value(hex_char(l)) == Some(l));
}

/// Changing any one byte of the payload of a valid sentence to another
/// byte (other than the delimiter `*`) is caught as a checksum mismatch.
pub proof fn lemma_corruption_detected(s: Seq<u8>, i: int, c: u8)
    requires
        spec_envelope(s) is Ok,
        1 <= i < star_index(s),
        c != s[i],
        c != STAR,
    ensures
        spec_envelope(s.update(i, c)) matches Err(ErrorModel::Checksum(parsed, computed)) && parsed
            != computed,
{
    let star = star_index(s);
    let t = s.update(i, c);
    crate::token::lemma_delim_bounds(s, 1, STAR);
    assert forall|k: int| 1 <= k < star implies t[k] != STAR by {}
    lemma_delim_at(t, 1, STAR, star);
    let p = s.subrange(1, star);
    assert(t.subrange(1, star) =~= p.update(i - 1, c));
    lemma_xor_update(p, i - 1, c);
    let x = xor_all(p);
    let a = p[i - 1];
    assert(x ^ a ^ c != x) by (bit_vector)
        requires
            a != c,
    ;
}

} // verus!
