//! Bridges between byte buffers and strings.
//!
//! Tokens borrow nothing here: identifier, number and string-literal bodies
//! are copied out of the file buffer into owned `String`s.  Decoding bytes
//! as UTF-8 relies on the standard library, stated over vstd's UTF-8 model
//! (`valid_utf8`, `decode_utf8`), so everything downstream can reason about
//! the characters that came out of a byte range.

use vstd::prelude::*;
use vstd::string::{StringExecFns, StringSliceAdditionalSpecFns};
use vstd::utf8::{
    decode_utf8, encode_utf8, is_ascii_chars, partial_valid_utf8, valid_utf8,
};

verus! {

/// The characters an all-ASCII byte sequence decodes to.
pub open spec fn ascii_chars_of(s: Seq<u8>) -> Seq<char> {
    s.map(|i: int, b: u8| b as char)
}

pub open spec fn all_ascii(s: Seq<u8>) -> bool {
    forall|i: int| 0 <= i < s.len() ==> s[i] < 128
}

/// Relies on str::from_utf8: succeeds exactly on valid UTF-8 and decodes it;
/// on failure reports the length of the longest valid prefix.
#[verifier::external_body]
pub fn utf8_to_string(bytes: &[u8]) -> (r: Result<String, usize>)
    ensures
        match r {
            Ok(s) => valid_utf8(bytes@) && s@ == decode_utf8(bytes@),
            Err(v) => !valid_utf8(bytes@) && 0 <= v <= bytes@.len() && partial_valid_utf8(
                bytes@,
                v as int,
            ) && forall|j: int| v < j <= bytes@.len() ==> !partial_valid_utf8(bytes@, j),
        },
{
    match core::str::from_utf8(bytes) {
        Ok(s) => Ok(s.to_owned()),
        Err(e) => Err(e.valid_up_to()),
    }
}

/// What `String::from_utf8_lossy` returns: the bytes decoded as UTF-8 with
/// every ill-formed sequence replaced.  A function of the bytes alone.
pub uninterp spec fn lossy_chars_of(s: Seq<u8>) -> Seq<char>;

/// Relies on String::from_utf8_lossy: on valid UTF-8 it is plain decoding.
#[verifier::external_body]
pub fn lossy_to_string(bytes: &[u8]) -> (r: String)
    ensures
        r@ == lossy_chars_of(bytes@),
        valid_utf8(bytes@) ==> r@ == decode_utf8(bytes@),
{
    String::from_utf8_lossy(bytes).into_owned()
}

/// ASCII bytes form valid UTF-8 and decode to themselves.
pub proof fn lemma_ascii_utf8(bytes: Seq<u8>)
    requires
        all_ascii(bytes),
    ensures
        valid_utf8(bytes),
        decode_utf8(bytes) == ascii_chars_of(bytes),
        is_ascii_chars(ascii_chars_of(bytes)),
        ascii_chars_of(bytes).len() == bytes.len(),
{
    let chars = ascii_chars_of(bytes);
    assert forall|i: int| 0 <= i < chars.len() implies '\0' <= #[trigger] chars[i] <= '\u{7f}' by {
        assert(bytes[i] < 128);
        assert(chars[i] == bytes[i] as char);
    }
    assert(is_ascii_chars(chars));
    vstd::utf8::is_ascii_chars_encode_utf8(chars);
    assert forall|i: int| 0 <= i < bytes.len() implies encode_utf8(chars)[i] == bytes[i] by {
        assert(chars[i] as u8 == encode_utf8(chars)[i]);
        assert(chars[i] == bytes[i] as char);
    }
    assert(encode_utf8(chars) =~= bytes);
    vstd::utf8::encode_utf8_valid_utf8(chars);
    vstd::utf8::encode_utf8_decode_utf8(chars);
}

/// Copy a run of ASCII bytes into an owned string.
pub fn ascii_to_string(bytes: &[u8]) -> (r: String)
    requires
        all_ascii(bytes@),
    ensures
        r@ == ascii_chars_of(bytes@),
{
    proof {
        lemma_ascii_utf8(bytes@);
    }
    match utf8_to_string(bytes) {
        Ok(s) => s,
        Err(_) => {
            proof {
                assert(false);
            }
            String::new()
        },
    }
}

/// The decimal digit character for `d`.
pub open spec fn digit_char(d: int) -> char {
    (48 + d) as char
}

/// The decimal rendering of `n`, most significant digit first.
pub open spec fn spec_dec(n: nat) -> Seq<char>
    decreases n,
{
    if n < 10 {
        seq![digit_char(n as int)]
    } else {
        spec_dec(n / 10).push(digit_char((n % 10) as int))
    }
}

fn dec_digit_bytes(n: u64) -> (v: Vec<u8>)
    ensures
        all_ascii(v@),
        ascii_chars_of(v@) == spec_dec(n as nat),
        v@.len() >= 1,
    decreases n,
{
    if n < 10 {
        let mut v: Vec<u8> = Vec::new();
        v.push(48 + (n as u8));
        proof {
            assert(ascii_chars_of(v@) =~= spec_dec(n as nat));
        }
        v
    } else {
        let mut v = dec_digit_bytes(n / 10);
        let ghost before = v@;
        v.push(48 + ((n % 10) as u8));
        proof {
            assert(ascii_chars_of(v@) =~= ascii_chars_of(before).push(
                digit_char((n % 10) as int),
            ));
        }
        v
    }
}

/// Render `n` in decimal.
pub fn dec_string(n: u64) -> (r: String)
    ensures
        r@ == spec_dec(n as nat),
{
    let v = dec_digit_bytes(n);
    ascii_to_string(v.as_slice())
}

/// The lowercase hex digit character for `d`.
pub open spec fn hex_char(d: int) -> char {
    if d < 10 {
        (48 + d) as char
    } else {
        (87 + d) as char
    }
}

/// The lowercase hexadecimal rendering of `n`.
pub open spec fn spec_hex(n: nat) -> Seq<char>
    decreases n,
{
    if n < 16 {
        seq![hex_char(n as int)]
    } else {
        spec_hex(n / 16).push(hex_char((n % 16) as int))
    }
}

fn hex_digit_bytes(n: u64) -> (v: Vec<u8>)
    ensures
        all_ascii(v@),
        ascii_chars_of(v@) == spec_hex(n as nat),
    decreases n,
{
    let d: u8 = (n % 16) as u8;
    let b: u8 = if d < 10 {
        48 + d
    } else {
        87 + d
    };
    if n < 16 {
        let mut v: Vec<u8> = Vec::new();
        v.push(b);
        proof {
            assert(ascii_chars_of(v@) =~= spec_hex(n as nat));
        }
        v
    } else {
        let mut v = hex_digit_bytes(n / 16);
        let ghost before = v@;
        v.push(b);
        proof {
            assert(ascii_chars_of(v@) =~= ascii_chars_of(before).push(
                hex_char((n % 16) as int),
            ));
        }
        v
    }
}

/// Render `n` in lowercase hexadecimal.
pub fn hex_string(n: u64) -> (r: String)
    ensures
        r@ == spec_hex(n as nat),
{
    let v = hex_digit_bytes(n);
    ascii_to_string(v.as_slice())
}

/// Render `n` in decimal.
pub fn dec_string_usize(n: usize) -> (r: String)
    ensures
        r@ == spec_dec(n as nat),
{
    dec_string(n as u64)
}

/// Two string slices hold the same characters.
pub fn str_eq(a: &str, b: &str) -> (r: bool)
    ensures
        r == (a@ == b@),
{
    let ab = a.as_bytes();
    let bb = b.as_bytes();
    if ab.len() != bb.len() {
        proof {
            if a@ == b@ {
                assert(encode_utf8(a@) == encode_utf8(b@));
            }
        }
        return false;
    }
    let n = ab.len();
    let mut i: usize = 0;
    while i < n
        invariant
            n == ab@.len() == bb@.len(),
            ab@ == a.spec_bytes(),
            bb@ == b.spec_bytes(),
            i <= n,
            forall|j: int| 0 <= j < i ==> ab@[j] == bb@[j],
        decreases n - i,
    {
        if ab[i] != bb[i] {
            proof {
                if a@ == b@ {
                    assert(encode_utf8(a@) == encode_utf8(b@));
                }
            }
            return false;
        }
        i = i + 1;
    }
    proof {
        assert(encode_utf8(a@) =~= encode_utf8(b@));
        vstd::utf8::encode_utf8_decode_utf8(a@);
        vstd::utf8::encode_utf8_decode_utf8(b@);
    }
    true
}

/// Append `tail` to `s`.
pub fn push_str(s: &mut String, tail: &str)
    ensures
        final(s)@ == old(s)@ + tail@,
{
    s.append(tail);
}

} // verus!
