//! Decoding basic backslash escapes in string bodies.
//!
//! The decoder walks the body's bytes; every byte of the output is pinned
//! down by `spec_esc_bytes`, and every error comes with the byte offset and
//! width of the offending escape, relative to the body.

use crate::error::EscStrError;
use crate::scan::{lemma_seek_in_props, seek_in, spec_seek_in, ByteSet};
use crate::text::lossy_to_string;
use vstd::string::StringSliceAdditionalSpecFns;
use vstd::prelude::*;
use vstd::utf8::encode_scalar;

verus! {

pub open spec fn is_hex_digit(b: u8) -> bool {
    (48 <= b <= 57) || (97 <= b <= 102) || (65 <= b <= 70)
}

pub open spec fn hex_val(b: u8) -> int {
    if 48 <= b <= 57 {
        b - 48
    } else if 97 <= b <= 102 {
        b - 87
    } else if 65 <= b <= 70 {
        b - 55
    } else {
        0
    }
}

fn hex_digit(b: u8) -> (r: Option<u8>)
    ensures
        r matches Some(v) ==> is_hex_digit(b) && v == hex_val(b) && v < 16,
        r is None ==> !is_hex_digit(b),
{
    if 48 <= b && b <= 57 {
        Some(b - 48)
    } else if 97 <= b && b <= 102 {
        Some(b - 87)
    } else if 65 <= b && b <= 70 {
        Some(b - 55)
    } else {
        None
    }
}

/// A Unicode scalar value: any code point outside the surrogate range.
pub open spec fn is_scalar_value(v: u32) -> bool {
    v <= 0x10ffff && !(0xd800 <= v <= 0xdfff)
}

/// Relies on char::from_u32: some exactly on Unicode scalar values, and
/// the character has that code.
#[verifier::external_body]
fn u32_to_char(v: u32) -> (r: Option<char>)
    ensures
        r matches Some(c) ==> is_scalar_value(v) && c as u32 == v,
        r is None ==> !is_scalar_value(v),
{
    char::from_u32(v)
}

/// Relies on char::encode_utf8 encoding per the UTF-8 scheme that
/// `encode_scalar` writes out.
#[verifier::external_body]
fn char_utf8_bytes(c: char) -> (r: Vec<u8>)
    ensures
        r@ == encode_scalar(c as u32),
{
    let mut buf = [0u8; 4];
    c.encode_utf8(&mut buf).as_bytes().to_vec()
}

/// The value of the `\u{...}` digit run `[m, p)`, when it is 1 to 8 hex
/// digits.
pub open spec fn spec_hex_run_val(s: Seq<u8>, m: int, p: int) -> int
    decreases p - m,
{
    if p <= m {
        0
    } else {
        spec_hex_run_val(s, m, p - 1) * 16 + hex_val(s[p - 1])
    }
}

pub open spec fn all_hex(s: Seq<u8>, m: int, p: int) -> bool {
    forall|j: int| m <= j < p ==> is_hex_digit(s[j])
}

/// Sixteen to the `e`th.
pub open spec fn p16(e: int) -> int
    decreases e,
{
    if e <= 0 {
        1
    } else {
        16 * p16(e - 1)
    }
}

proof fn lemma_p16_value()
    ensures
        p16(8) == 0x1_0000_0000,
{
    assert(p16(0) == 1);
    assert(p16(1) == 16);
    assert(p16(2) == 0x100);
    assert(p16(3) == 0x1000);
    assert(p16(4) == 0x10000);
    assert(p16(5) == 0x10_0000);
    assert(p16(6) == 0x100_0000);
    assert(p16(7) == 0x1000_0000);
}

proof fn lemma_p16_mono(a: int, b: int)
    requires
        a <= b,
    ensures
        1 <= p16(a) <= p16(b),
    decreases b - a,
{
    if a < b {
        lemma_p16_mono(a, b - 1);
    } else {
        lemma_p16_pos(a);
    }
}

proof fn lemma_p16_pos(e: int)
    ensures
        p16(e) >= 1,
    decreases e,
{
    if e > 0 {
        lemma_p16_pos(e - 1);
    }
}

/// What decoding the body bytes from `i` yields: the decoded bytes, or the
/// offending escape's offset, width, and error.
pub open spec fn spec_esc_bytes(s: Seq<u8>, i: int) -> Result<Seq<u8>, (int, int, EscStrError)>
    decreases s.len() - i,
    when 0 <= i <= s.len()
    via spec_esc_bytes_decreases
{
    let j = spec_seek_in(s, i, ByteSet::Bslash);
    let run = s.subrange(i, j);
    if j >= s.len() {
        Ok(run)
    } else {
        let k = j + 1;
        if k >= s.len() {
            Ok(run.push(92))
        } else {
            let b = s[k];
            if b == 92 {
                match spec_esc_bytes(s, k + 1) {
                    Ok(rest) => Ok(run.push(92) + rest),
                    Err(e) => Err(e),
                }
            } else if b == 114 || b == 110 || b == 116 || b == 34 {
                let c: u8 = if b == 114 {
                    13
                } else if b == 110 {
                    10
                } else if b == 116 {
                    9
                } else {
                    34
                };
                match spec_esc_bytes(s, k + 1) {
                    Ok(rest) => Ok(run.push(c) + rest),
                    Err(e) => Err(e),
                }
            } else if b == 120 {
                // `\xHH`: exactly two hex digits, within this chunk.
                let chunk_end = spec_seek_in(s, k, ByteSet::Bslash);
                if chunk_end - k < 3 {
                    Err((k, chunk_end - k + 1, EscStrError::TruncatedHex))
                } else if !(is_hex_digit(s[k + 1]) && is_hex_digit(s[k + 2])) {
                    Err((k, 4, EscStrError::InvalidHex))
                } else {
                    let v = hex_val(s[k + 1]) * 16 + hex_val(s[k + 2]);
                    match spec_esc_bytes(s, k + 3) {
                        Ok(rest) => Ok(run + encode_scalar(v as u32) + rest),
                        Err(e) => Err(e),
                    }
                }
            } else if b == 117 {
                // `\u{H...H}`: 1 to 8 hex digits inside braces.
                if k + 1 >= s.len() || s[k + 1] != 123 {
                    Err((k, 3, EscStrError::InvalidUnicodeMissingStartBrace))
                } else {
                    let m = k + 2;
                    let chunk_end = spec_seek_in(s, m, ByteSet::Bslash);
                    let window = if chunk_end - m >= 9 {
                        m + 9
                    } else {
                        chunk_end
                    };
                    let p = spec_seek_in_window(s, m, window);
                    if p >= window {
                        Err((
                            k,
                            (if chunk_end - m >= 8 {
                                8int
                            } else {
                                chunk_end - m
                            }) + 3,
                            EscStrError::InvalidUnicodeMissingEndBrace,
                        ))
                    } else if p == m || !all_hex(s, m, p) {
                        Err((k, p - m + 4, EscStrError::InvalidUnicodeHex))
                    } else {
                        let v = spec_hex_run_val(s, m, p);
                        if !is_scalar_value(v as u32) {
                            Err((k, p - m + 4, EscStrError::InvalidUnicodePoint(v as u32)))
                        } else {
                            match spec_esc_bytes(s, p + 1) {
                                Ok(rest) => Ok(run + encode_scalar(v as u32) + rest),
                                Err(e) => Err(e),
                            }
                        }
                    }
                }
            } else {
                Err((k, 2, EscStrError::InvalidEscapeChar(b as char)))
            }
        }
    }
}

#[via_fn]
proof fn spec_esc_bytes_decreases(s: Seq<u8>, i: int) {
    lemma_seek_in_props(s, i, ByteSet::Bslash);
    let j = spec_seek_in(s, i, ByteSet::Bslash);
    if j < s.len() && j + 1 < s.len() {
        let k = j + 1;
        lemma_seek_in_props(s, k, ByteSet::Bslash);
        if s[k] == 117 && k + 1 < s.len() && s[k + 1] == 123 {
            lemma_seek_in_props(s, k + 2, ByteSet::Bslash);
            lemma_seek_in_window_props(s, k + 2, spec_seek_in_window_bound(s, k + 2));
        }
    }
}

spec fn spec_seek_in_window_bound(s: Seq<u8>, m: int) -> int {
    let chunk_end = spec_seek_in(s, m, ByteSet::Bslash);
    if chunk_end - m >= 9 {
        m + 9
    } else {
        chunk_end
    }
}

/// First closing brace at or after `m`, looking no further than `window`.
pub open spec fn spec_seek_in_window(s: Seq<u8>, m: int, window: int) -> int
    decreases window - m,
{
    if m < 0 || m >= window || m >= s.len() {
        m
    } else if s[m] == 125 {
        m
    } else {
        spec_seek_in_window(s, m + 1, window)
    }
}

proof fn lemma_seek_in_window_props(s: Seq<u8>, m: int, window: int)
    requires
        0 <= m,
    ensures
        m <= spec_seek_in_window(s, m, window),
        spec_seek_in_window(s, m, window) <= (if window >= m {
            window
        } else {
            m
        }),
        spec_seek_in_window(s, m, window) < window && spec_seek_in_window(s, m, window) < s.len()
            ==> s[spec_seek_in_window(s, m, window)] == 125,
    decreases window - m,
{
    if 0 <= m && m < window && m < s.len() && s[m] != 125 {
        lemma_seek_in_window_props(s, m + 1, window);
    }
}

fn seek_in_window(buf: &[u8], m: usize, window: usize) -> (r: usize)
    requires
        m <= window <= buf@.len(),
    ensures
        r == spec_seek_in_window(buf@, m as int, window as int),
        m <= r <= window,
{
    let mut i: usize = m;
    while i < window
        invariant
            m <= i <= window <= buf@.len(),
            spec_seek_in_window(buf@, m as int, window as int) == spec_seek_in_window(
                buf@,
                i as int,
                window as int,
            ),
        decreases window - i,
    {
        if buf[i] == 125 {
            return i;
        }
        i = i + 1;
    }
    i
}

/// Append `buf[a..b)` to `out`.
pub(crate) fn push_range(out: &mut Vec<u8>, buf: &[u8], a: usize, b: usize)
    requires
        a <= b <= buf@.len(),
    ensures
        final(out)@ == old(out)@ + buf@.subrange(a as int, b as int),
{
    let mut i: usize = a;
    proof {
        assert(out@ =~= out@ + buf@.subrange(a as int, a as int));
    }
    while i < b
        invariant
            a <= i <= b <= buf@.len(),
            out@ == old(out)@ + buf@.subrange(a as int, i as int),
        decreases b - i,
    {
        out.push(buf[i]);
        proof {
            assert(old(out)@ + buf@.subrange(a as int, i + 1) =~= (old(out)@ + buf@.subrange(
                a as int,
                i as int,
            )).push(buf@[i as int]));
        }
        i = i + 1;
    }
}

/// Decode the body bytes from `i` on, mirroring `spec_esc_bytes` case by
/// case.
fn esc_run(buf: &[u8], i: usize) -> (r: Result<Vec<u8>, (usize, usize, EscStrError)>)
    requires
        i <= buf@.len(),
    ensures
        match r {
            Ok(v) => spec_esc_bytes(buf@, i as int) == Ok::<Seq<u8>, (int, int, EscStrError)>(v@),
            Err(e) => spec_esc_bytes(buf@, i as int) == Err::<Seq<u8>, (int, int, EscStrError)>(
                (e.0 as int, e.1 as int, e.2),
            ),
        },
    decreases buf@.len() - i,
{
    let n = buf.len();
    let j = seek_in(buf, i, ByteSet::Bslash);
    proof {
        lemma_seek_in_props(buf@, i as int, ByteSet::Bslash);
    }
    let mut out: Vec<u8> = Vec::new();
    push_range(&mut out, buf, i, j);
    proof {
        assert(out@ =~= buf@.subrange(i as int, j as int));
    }
    if j >= n {
        return Ok(out);
    }
    let k = j + 1;
    if k >= n {
        out.push(92);
        proof {
            assert(out@ =~= buf@.subrange(i as int, j as int).push(92u8));
        }
        return Ok(out);
    }
    let b = buf[k];
    if b == 92 || b == 114 || b == 110 || b == 116 || b == 34 {
        let c: u8 = if b == 92 {
            92
        } else if b == 114 {
            13
        } else if b == 110 {
            10
        } else if b == 116 {
            9
        } else {
            34
        };
        out.push(c);
        match esc_run(buf, k + 1) {
            Ok(rest) => {
                push_all(&mut out, &rest);
                proof {
                    assert(out@ =~= buf@.subrange(i as int, j as int).push(c) + rest@);
                }
                Ok(out)
            },
            Err(e) => Err(e),
        }
    } else if b == 120 {
        let chunk_end = seek_in(buf, k, ByteSet::Bslash);
        proof {
            lemma_seek_in_props(buf@, k as int, ByteSet::Bslash);
        }
        if chunk_end - k < 3 {
            return Err((k, chunk_end - k + 1, EscStrError::TruncatedHex));
        }
        let h1 = hex_digit(buf[k + 1]);
        let h2 = hex_digit(buf[k + 2]);
        match (h1, h2) {
            (Some(a), Some(bb)) => {
                let v: u8 = a * 16 + bb;
                let enc = char_utf8_bytes(v as char);
                proof {
                    assert((v as char) as u32 == v as u32);
                }
                push_all(&mut out, &enc);
                match esc_run(buf, k + 3) {
                    Ok(rest) => {
                        push_all(&mut out, &rest);
                        proof {
                            assert(out@ =~= buf@.subrange(i as int, j as int) + enc@ + rest@);
                        }
                        Ok(out)
                    },
                    Err(e) => Err(e),
                }
            },
            _ => Err((k, 4, EscStrError::InvalidHex)),
        }
    } else if b == 117 {
        if k + 1 >= n || buf[k + 1] != 123 {
            return Err((k, 3, EscStrError::InvalidUnicodeMissingStartBrace));
        }
        let m = k + 2;
        let chunk_end = seek_in(buf, m, ByteSet::Bslash);
        proof {
            lemma_seek_in_props(buf@, m as int, ByteSet::Bslash);
        }
        let window = if chunk_end - m >= 9 {
            m + 9
        } else {
            chunk_end
        };
        let p = seek_in_window(buf, m, window);
        proof {
            lemma_seek_in_window_props(buf@, m as int, window as int);
        }
        if p >= window {
            let w = if chunk_end - m >= 8 {
                8
            } else {
                chunk_end - m
            };
            return Err((k, w + 3, EscStrError::InvalidUnicodeMissingEndBrace));
        }
        let mut v: u32 = 0;
        let mut q: usize = m;
        let mut ok = p > m;
        while q < p
            invariant
                m <= q <= p <= buf@.len(),
                p - m <= 8,
                ok ==> p > m,
                ok ==> all_hex(buf@, m as int, q as int) && v == spec_hex_run_val(
                    buf@,
                    m as int,
                    q as int,
                ) && v < p16(q - m),
                !ok ==> (p == m || !all_hex(buf@, m as int, p as int)),
            decreases p - q,
        {
            match hex_digit(buf[q]) {
                Some(d) => {
                    if ok {
                        proof {
                            lemma_p16_mono(q + 1 - m, 8);
                            lemma_p16_value();
                            assert(p16(q + 1 - m) == 16 * p16(q - m));
                        }
                        v = v * 16 + (d as u32);
                        proof {
                            assert(spec_hex_run_val(buf@, m as int, q + 1) == spec_hex_run_val(
                                buf@,
                                m as int,
                                q as int,
                            ) * 16 + hex_val(buf@[q as int]));
                        }
                    }
                },
                None => {
                    ok = false;
                    proof {
                        assert(!is_hex_digit(buf@[q as int]));
                    }
                },
            }
            q = q + 1;
        }
        if !ok {
            return Err((k, p - m + 4, EscStrError::InvalidUnicodeHex));
        }
        proof {
            assert(all_hex(buf@, m as int, p as int));
            assert(v == spec_hex_run_val(buf@, m as int, p as int));
            assert(spec_hex_run_val(buf@, m as int, p as int) as u32 == v);
        }
        match u32_to_char(v) {
            Some(c) => {
                let enc = char_utf8_bytes(c);
                push_all(&mut out, &enc);
                match esc_run(buf, p + 1) {
                    Ok(rest) => {
                        push_all(&mut out, &rest);
                        proof {
                            assert(out@ =~= buf@.subrange(i as int, j as int) + enc@ + rest@);
                        }
                        Ok(out)
                    },
                    Err(e) => Err(e),
                }
            },
            None => Err((k, p - m + 4, EscStrError::InvalidUnicodePoint(v))),
        }
    } else {
        Err((k, 2, EscStrError::InvalidEscapeChar(b as char)))
    }
}

/// Decode a string body with basic escapes.  On success the returned text
/// is the decoded bytes of `spec_esc_bytes`; on failure the offset, width
/// and error of the offending escape are handed back, relative to the
/// body's bytes.
pub fn decode_str(s: &str) -> (r: Result<String, (usize, usize, EscStrError)>)
    ensures
        match r {
            Ok(out) => (spec_esc_bytes(s.spec_bytes(), 0) matches Ok(bytes) && out@
                == crate::text::lossy_chars_of(bytes)),
            Err(e) => spec_esc_bytes(s.spec_bytes(), 0) == Err::<Seq<u8>, (int, int, EscStrError)>(
                (e.0 as int, e.1 as int, e.2),
            ),
        },
{
    let buf = s.as_bytes();
    match esc_run(buf, 0) {
        Ok(v) => Ok(lossy_to_string(v.as_slice())),
        Err(e) => Err(e),
    }
}

/// Append all of `add` to `out`.
pub(crate) fn push_all(out: &mut Vec<u8>, add: &Vec<u8>)
    ensures
        final(out)@ == old(out)@ + add@,
{
    let n = add.len();
    let mut i: usize = 0;
    proof {
        assert(out@ =~= out@ + add@.subrange(0, 0));
    }
    while i < n
        invariant
            i <= n,
            n == add@.len(),
            out@ == old(out)@ + add@.subrange(0, i as int),
        decreases n - i,
    {
        out.push(add[i]);
        proof {
            assert(old(out)@ + add@.subrange(0, i + 1) =~= (old(out)@ + add@.subrange(
                0,
                i as int,
            )).push(add@[i as int]));
        }
        i = i + 1;
    }
    proof {
        assert(add@.subrange(0, n as int) =~= add@);
    }
}

} // verus!
