//! The blob codec: the storage form of a sealed blob.
//!
//! A record is the nonce followed by the ciphertext-and-tag, written as
//! lowercase hex. The nonce has a fixed width, so the encoding is
//! self-delimiting and decoding is unambiguous. `decode` classifies every
//! structurally malformed record — odd length, a non-hex character, a record
//! too short to hold a nonce and a tag, or one too long to be a record this
//! engine wrote — as `BadEncoding`, never as a decryption failure.

use vstd::prelude::*;
use vstd::string::StrSliceExecFns;

use crate::error::Error;
use crate::MAX_SECRET_LEN;
use crate::NONCE_LEN;
use crate::TAG_LEN;

verus! {

/// The pair one encryption call produces: a fresh nonce and the
/// ciphertext-with-tag sealed under it.
pub struct SealedBlob {
    pub nonce: Vec<u8>,
    pub ciphertext_and_tag: Vec<u8>,
}

impl SealedBlob {
    /// The nonce has its fixed width and the ciphertext-and-tag is long
    /// enough to end in a tag and short enough to have been sealed from an
    /// accepted secret.
    pub open spec fn wf(&self) -> bool {
        &&& self.nonce@.len() == NONCE_LEN
        &&& TAG_LEN <= self.ciphertext_and_tag@.len() <= MAX_SECRET_LEN + TAG_LEN
    }
}

/// The ASCII code of the lowercase hex digit for `d`.
pub open spec fn hex_ascii(d: u8) -> u8
    recommends
        d < 16,
{
    if d < 10 {
        (48 + d) as u8
    } else {
        (87 + d) as u8
    }
}

/// The lowercase hex digit character for `d`.
pub open spec fn hex_char(d: u8) -> char {
    hex_ascii(d) as char
}

/// A lowercase hex digit.
pub open spec fn is_hex_char(c: char) -> bool {
    (48 <= c as u32 && c as u32 <= 57) || (97 <= c as u32 && c as u32 <= 102)
}

/// The value of a lowercase hex digit.
pub open spec fn hex_val(c: char) -> u8
    recommends
        is_hex_char(c),
{
    if 48 <= c as u32 && c as u32 <= 57 {
        (c as u32 - 48) as u8
    } else {
        (c as u32 - 87) as u8
    }
}

/// A byte sequence written as lowercase hex, two digits per byte.
pub open spec fn spec_hex_encode(bytes: Seq<u8>) -> Seq<char> {
    Seq::new(
        2 * bytes.len(),
        |i: int|
            if i % 2 == 0 {
                hex_char(bytes[i / 2] >> 4)
            } else {
                hex_char(bytes[i / 2] & 15)
            },
    )
}

/// The bytes a sequence of hex digits denotes.
pub open spec fn spec_hex_decode(s: Seq<char>) -> Seq<u8>
    recommends
        s.len() % 2 == 0,
{
    Seq::new(s.len() / 2, |i: int| ((hex_val(s[2 * i]) * 16 + hex_val(s[2 * i + 1])) as u8))
}

/// A structurally well-formed record text: even length, lowercase hex
/// digits only, and a byte count that fits one nonce, one tag and at most
/// one maximum-size secret.
pub open spec fn valid_record_text(s: Seq<char>) -> bool {
    &&& s.len() % 2 == 0
    &&& 2 * (NONCE_LEN + TAG_LEN) <= s.len() <= 2 * (NONCE_LEN + MAX_SECRET_LEN + TAG_LEN)
    &&& (forall|i: int| 0 <= i < s.len() ==> is_hex_char(s[i]))
}

/// The record text for a nonce and a ciphertext-and-tag.
pub open spec fn spec_encode_record(nonce: Seq<u8>, ctt: Seq<u8>) -> Seq<char> {
    spec_hex_encode(nonce + ctt)
}

/// What decoding a record text yields: the nonce and the
/// ciphertext-and-tag when the text is well formed, nothing otherwise.
pub open spec fn spec_decode_record(s: Seq<char>) -> Option<(Seq<u8>, Seq<u8>)> {
    if valid_record_text(s) {
        let b = spec_hex_decode(s);
        Some((b.take(NONCE_LEN as int), b.skip(NONCE_LEN as int)))
    } else {
        None
    }
}

/// Each hex digit value survives the trip through its character.
pub proof fn lemma_hex_digit_roundtrip(d: u8)
    requires
        d < 16,
    ensures
        is_hex_char(hex_char(d)),
        hex_val(hex_char(d)) == d,
        hex_ascii(d) < 0x80,
{
}

/// Decoding inverts encoding on every well-sized record.
pub proof fn lemma_codec_roundtrip(nonce: Seq<u8>, ctt: Seq<u8>)
    requires
        nonce.len() == NONCE_LEN,
        TAG_LEN <= ctt.len() <= MAX_SECRET_LEN + TAG_LEN,
    ensures
        spec_decode_record(spec_encode_record(nonce, ctt)) == Some((nonce, ctt)),
{
    let b = nonce + ctt;
    let s = spec_hex_encode(b);
    assert(s.len() == 2 * b.len());
    assert forall|i: int| 0 <= i < s.len() implies is_hex_char(s[i]) by {
        let m = i / 2;
        let x = b[m];
        assert(x >> 4 < 16) by (bit_vector);
        assert(x & 15 < 16) by (bit_vector);
        if i % 2 == 0 {
            lemma_hex_digit_roundtrip(x >> 4);
        } else {
            lemma_hex_digit_roundtrip(x & 15);
        }
    }
    assert(valid_record_text(s));
    let d = spec_hex_decode(s);
    assert forall|m: int| 0 <= m < b.len() implies d[m] == b[m] by {
        let x = b[m];
        assert(x >> 4 < 16) by (bit_vector);
        assert(x & 15 < 16) by (bit_vector);
        lemma_hex_digit_roundtrip(x >> 4);
        lemma_hex_digit_roundtrip(x & 15);
        assert(s[2 * m] == hex_char(x >> 4));
        assert(s[2 * m + 1] == hex_char(x & 15));
        assert((x >> 4) * 16 + (x & 15) == x) by (bit_vector);
    }
    assert(d =~= b);
    assert(d.take(NONCE_LEN as int) =~= nonce);
    assert(d.skip(NONCE_LEN as int) =~= ctt);
}

/// Relies on `String::from_utf8`: bytes below 0x80 are valid UTF-8 and
/// decode to the characters with the same code points, one per byte.
#[verifier::external_body]
fn ascii_to_string(bytes: Vec<u8>) -> (r: String)
    requires
        forall|i: int| 0 <= i < bytes@.len() ==> bytes@[i] < 0x80,
    ensures
        r@.len() == bytes@.len(),
        forall|i: int| 0 <= i < r@.len() ==> r@[i] == bytes@[i] as char,
{
    String::from_utf8(bytes).unwrap_or_default()
}

fn hex_val_exec(c: char) -> (r: Option<u8>)
    ensures
        match r {
            Some(v) => is_hex_char(c) && v == hex_val(c),
            None => !is_hex_char(c),
        },
{
    let u = c as u32;
    if 48 <= u && u <= 57 {
        Some((u - 48) as u8)
    } else if 97 <= u && u <= 102 {
        Some((u - 87) as u8)
    } else {
        None
    }
}

/// Serialize a sealed blob into its record text.
pub fn encode(blob: &SealedBlob) -> (s: String)
    requires
        blob.wf(),
    ensures
        s@ == spec_encode_record(blob.nonce@, blob.ciphertext_and_tag@),
{
    let mut raw: Vec<u8> = Vec::new();
    let mut i: usize = 0;
    while i < blob.nonce.len()
        invariant
            0 <= i <= blob.nonce@.len(),
            raw@ =~= blob.nonce@.take(i as int),
        decreases blob.nonce@.len() - i,
    {
        raw.push(blob.nonce[i]);
        i = i + 1;
    }
    proof {
        assert(raw@ =~= blob.nonce@);
    }
    let mut j: usize = 0;
    while j < blob.ciphertext_and_tag.len()
        invariant
            0 <= j <= blob.ciphertext_and_tag@.len(),
            raw@ =~= blob.nonce@ + blob.ciphertext_and_tag@.take(j as int),
        decreases blob.ciphertext_and_tag@.len() - j,
    {
        raw.push(blob.ciphertext_and_tag[j]);
        j = j + 1;
    }
    proof {
        assert(raw@ =~= blob.nonce@ + blob.ciphertext_and_tag@);
    }
    let mut out: Vec<u8> = Vec::new();
    let mut k: usize = 0;
    while k < raw.len()
        invariant
            0 <= k <= raw@.len(),
            out@.len() == 2 * k,
            forall|m: int|
                0 <= m < k ==> out@[2 * m] == hex_ascii(raw@[m] >> 4) && out@[2 * m + 1]
                    == hex_ascii(raw@[m] & 15),
        decreases raw@.len() - k,
    {
        let b = raw[k];
        proof {
            assert(b >> 4 < 16) by (bit_vector);
            assert(b & 15 < 16) by (bit_vector);
        }
        let hi = b >> 4;
        let lo = b & 15;
        let hi_digit: u8 = if hi < 10 {
            48 + hi
        } else {
            87 + hi
        };
        let lo_digit: u8 = if lo < 10 {
            48 + lo
        } else {
            87 + lo
        };
        out.push(hi_digit);
        out.push(lo_digit);
        k = k + 1;
    }
    proof {
        assert forall|m: int| 0 <= m < out@.len() implies out@[m] < 0x80 by {
            let q = m / 2;
            let x = raw@[q];
            assert(x >> 4 < 16) by (bit_vector);
            assert(x & 15 < 16) by (bit_vector);
        }
    }
    let s = ascii_to_string(out);
    proof {
        assert forall|m: int|
            0 <= m < s@.len() implies s@[m] == spec_hex_encode(raw@)[m] by {
            let q = m / 2;
            let x = raw@[q];
            assert(x >> 4 < 16) by (bit_vector);
            assert(x & 15 < 16) by (bit_vector);
        }
        assert(s@ =~= spec_hex_encode(raw@));
    }
    s
}

/// Parse a record text back into a sealed blob, or report `BadEncoding`
/// when it is structurally malformed.
pub fn decode(s: &str) -> (r: Result<SealedBlob, Error>)
    ensures
        match r {
            Ok(blob) => {
                &&& spec_decode_record(s@) == Some((blob.nonce@, blob.ciphertext_and_tag@))
                &&& blob.wf()
            },
            Err(e) => {
                &&& e == Error::BadEncoding
                &&& spec_decode_record(s@) == None::<(Seq<u8>, Seq<u8>)>
            },
        },
{
    let n = s.unicode_len();
    if n % 2 != 0 || n < 2 * (NONCE_LEN + TAG_LEN) || n > 2 * (NONCE_LEN + MAX_SECRET_LEN
        + TAG_LEN) {
        return Err(Error::BadEncoding);
    }
    let half = n / 2;
    let mut bytes: Vec<u8> = Vec::new();
    let mut k: usize = 0;
    while k < half
        invariant
            0 <= k <= half,
            half == n / 2,
            n == s@.len(),
            n % 2 == 0,
            2 * (NONCE_LEN + TAG_LEN) <= n <= 2 * (NONCE_LEN + MAX_SECRET_LEN + TAG_LEN),
            bytes@.len() == k,
            forall|j: int| 0 <= j < 2 * k ==> is_hex_char(s@[j]),
            forall|m: int|
                0 <= m < k ==> bytes@[m] == ((hex_val(s@[2 * m]) * 16 + hex_val(
                    s@[2 * m + 1],
                )) as u8),
        decreases half - k,
    {
        let c1 = s.get_char(2 * k);
        let c2 = s.get_char(2 * k + 1);
        let v1 = match hex_val_exec(c1) {
            Some(v) => v,
            None => {
                return Err(Error::BadEncoding);
            },
        };
        let v2 = match hex_val_exec(c2) {
            Some(v) => v,
            None => {
                return Err(Error::BadEncoding);
            },
        };
        bytes.push(v1 * 16 + v2);
        k = k + 1;
    }
    proof {
        assert(bytes@ =~= spec_hex_decode(s@));
        assert(valid_record_text(s@));
    }
    let mut nonce: Vec<u8> = Vec::new();
    let mut i: usize = 0;
    while i < NONCE_LEN
        invariant
            0 <= i <= NONCE_LEN,
            bytes@.len() >= NONCE_LEN + TAG_LEN,
            nonce@ =~= bytes@.take(i as int),
        decreases NONCE_LEN - i,
    {
        nonce.push(bytes[i]);
        i = i + 1;
    }
    let mut ctt: Vec<u8> = Vec::new();
    let mut j: usize = NONCE_LEN;
    while j < bytes.len()
        invariant
            NONCE_LEN <= j <= bytes@.len(),
            bytes@.len() >= NONCE_LEN + TAG_LEN,
            ctt@ =~= bytes@.subrange(NONCE_LEN as int, j as int),
        decreases bytes@.len() - j,
    {
        ctt.push(bytes[j]);
        j = j + 1;
    }
    proof {
        assert(nonce@ =~= bytes@.take(NONCE_LEN as int));
        assert(ctt@ =~= bytes@.skip(NONCE_LEN as int));
    }
    let blob = SealedBlob { nonce, ciphertext_and_tag: ctt };
    Ok(blob)
}

} // verus!
