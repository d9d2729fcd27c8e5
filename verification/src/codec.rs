//! Byte-level encoding primitives for the wire protocol: base-128 length
//! prefixes, fixed-width little-endian integers, length-prefixed byte and
//! string fields, and presence-byte options.
//!
//! Each primitive has a specification-level encoder, a total
//! specification-level decoder, executable functions proved against them,
//! and a round-trip lemma showing that decoding inverts encoding.

use vstd::prelude::*;
use vstd::utf8::{encode_utf8, decode_utf8, valid_utf8, encode_utf8_valid_utf8,
    encode_utf8_decode_utf8};

verus! {

/// Why a decode attempt failed.
#[derive(Debug, Clone, Copy, PartialEq, Eq, Structural)]
pub enum DecodeError {
    /// More bytes are needed than the input holds.
    Truncated,
    /// The bytes cannot be an encoding (bad tag, bad bool byte, invalid UTF-8).
    Malformed,
    /// A decoded integer does not fit the machine's range.
    Overflow,
}

// ---------------------------------------------------------------------------
// Variable-length unsigned integers (little-endian base-128 groups)
// ---------------------------------------------------------------------------

/// Encoding of `n` as a base-128 varint, least significant group first;
/// every byte but the last has its high bit set.
pub open spec fn spec_enc_varint(n: nat) -> Seq<u8>
    decreases n,
{
    if n < 128 {
        seq![n as u8]
    } else {
        seq![(128 + n % 128) as u8] + spec_enc_varint(n / 128)
    }
}

/// Total decoder for varints: the value and the count of bytes consumed.
pub open spec fn spec_dec_varint(s: Seq<u8>) -> Result<(nat, int), DecodeError>
    decreases s.len(),
{
    if s.len() == 0 {
        Err(DecodeError::Truncated)
    } else if s[0] < 128 {
        Ok((s[0] as nat, 1))
    } else {
        match spec_dec_varint(s.skip(1)) {
            Err(e) => Err(e),
            Ok((v, c)) => Ok((((s[0] - 128) + 128 * v) as nat, c + 1)),
        }
    }
}

/// Decoding inverts encoding, whatever follows the varint.
pub proof fn lemma_varint_round_trip(n: nat, rest: Seq<u8>)
    ensures
        spec_dec_varint(spec_enc_varint(n) + rest)
            == Ok::<(nat, int), DecodeError>((n, spec_enc_varint(n).len() as int)),
    decreases n,
{
    let enc = spec_enc_varint(n);
    if n < 128 {
        assert((enc + rest)[0] == n as u8);
    } else {
        let tail = spec_enc_varint(n / 128);
        lemma_varint_round_trip(n / 128, rest);
        assert((enc + rest).skip(1) =~= tail + rest);
        assert((enc + rest)[0] == (128 + n % 128) as u8);
        assert((128 + n % 128) - 128 + 128 * (n / 128) == n) by {
            vstd::arithmetic::div_mod::lemma_fundamental_div_mod(n as int, 128);
        }
    }
}

/// Appends the varint encoding of `n` to `out`.
pub fn enc_varint_append(out: &mut Vec<u8>, n: u64)
    ensures
        final(out)@ == old(out)@ + spec_enc_varint(n as nat),
    decreases n,
{
    if n < 128 {
        out.push(n as u8);
        assert(final(out)@ =~= old(out)@ + spec_enc_varint(n as nat));
    } else {
        out.push((128 + (n % 128)) as u8);
        enc_varint_append(out, n / 128);
        assert(final(out)@ =~= old(out)@ + spec_enc_varint(n as nat));
    }
}

/// Largest `v` with `128 * v + 127 <= u64::MAX`.
pub open spec fn varint_tail_max() -> nat {
    0x01ff_ffff_ffff_ffff
}

/// A successful varint decode consumes between 1 byte and the whole input;
/// the only failure is running out of bytes.
pub proof fn lemma_dec_varint_bounds(s: Seq<u8>)
    ensures
        spec_dec_varint(s) matches Ok((v, c)) ==> 1 <= c <= s.len(),
        spec_dec_varint(s) matches Err(e) ==> e == DecodeError::Truncated,
    decreases s.len(),
{
    if s.len() > 0 && s[0] >= 128 {
        lemma_dec_varint_bounds(s.skip(1));
    }
}

/// Reads a varint at `pos`; returns the value and the position after it.
pub fn dec_varint(buf: &[u8], pos: usize) -> (r: Result<(u64, usize), DecodeError>)
    requires
        pos <= buf@.len(),
    ensures
        match spec_dec_varint(buf@.skip(pos as int)) {
            Ok((v, c)) => if v <= u64::MAX {
                r == Ok::<(u64, usize), DecodeError>(((v as u64), (pos + c) as usize))
            } else {
                r == Err::<(u64, usize), DecodeError>(DecodeError::Overflow)
            },
            Err(e) => r == Err::<(u64, usize), DecodeError>(e),
        },
        r matches Ok(p) ==> pos < p.1 <= buf@.len(),
        spec_dec_varint(buf@.skip(pos as int)) matches Ok((v, c))
            ==> (v <= u64::MAX ==> (r matches Ok(p) && p.0 as nat == v && p.1 == pos + c)),
    decreases buf@.len() - pos,
{
    if pos >= buf.len() {
        assert(buf@.skip(pos as int).len() == 0);
        return Err(DecodeError::Truncated);
    }
    let b = buf[pos];
    assert(buf@.skip(pos as int)[0] == b);
    if b < 128 {
        Ok((b as u64, pos + 1))
    } else {
        assert(buf@.skip(pos as int).skip(1) =~= buf@.skip(pos as int + 1));
        match dec_varint(buf, pos + 1) {
            Err(e) => Err(e),
            Ok((v, end)) => {
                if v <= 0x01ff_ffff_ffff_ffffu64 {
                    Ok(((b - 128) as u64 + 128 * v, end))
                } else {
                    proof {
                        let tail = spec_dec_varint(buf@.skip(pos as int + 1));
                        let (tv, _tc) = tail->Ok_0;
                        assert(128 * tv >= 128 * (varint_tail_max() + 1)) by {
                            vstd::arithmetic::mul::lemma_mul_inequality(
                                varint_tail_max() as int + 1, tv as int, 128);
                        }
                    }
                    Err(DecodeError::Overflow)
                }
            },
        }
    }
}

// ---------------------------------------------------------------------------
// Fixed-width little-endian unsigned integers
// ---------------------------------------------------------------------------

/// `256^k`.
pub open spec fn pow256(k: nat) -> nat
    decreases k,
{
    if k == 0 {
        1
    } else {
        256 * pow256((k - 1) as nat)
    }
}

pub proof fn lemma_pow256_mono(a: nat, b: nat)
    requires
        a <= b,
    ensures
        pow256(a) <= pow256(b),
    decreases b,
{
    if a < b {
        lemma_pow256_mono(a, (b - 1) as nat);
        assert(pow256(b) == 256 * pow256((b - 1) as nat));
        vstd::arithmetic::mul::lemma_mul_inequality(1, 256, pow256((b - 1) as nat) as int);
    }
}

/// `n` in `len` bytes, least significant first.
pub open spec fn spec_enc_le(n: nat, len: nat) -> Seq<u8>
    decreases len,
{
    if len == 0 {
        Seq::empty()
    } else {
        seq![(n % 256) as u8] + spec_enc_le(n / 256, (len - 1) as nat)
    }
}

/// Value of the first `len` bytes of `s` read as little-endian.
pub open spec fn spec_le_val(s: Seq<u8>, len: nat) -> nat
    decreases len,
{
    if len == 0 {
        0
    } else {
        (s[0] + 256 * spec_le_val(s.skip(1), (len - 1) as nat)) as nat
    }
}

/// Total decoder for a `len`-byte little-endian integer.
pub open spec fn spec_dec_le(s: Seq<u8>, len: nat) -> Result<(nat, int), DecodeError> {
    if s.len() >= len {
        Ok((spec_le_val(s, len), len as int))
    } else {
        Err(DecodeError::Truncated)
    }
}

pub proof fn lemma_enc_le_len(n: nat, len: nat)
    ensures
        spec_enc_le(n, len).len() == len,
    decreases len,
{
    if len > 0 {
        lemma_enc_le_len(n / 256, (len - 1) as nat);
    }
}

pub proof fn lemma_le_val_bound(s: Seq<u8>, len: nat)
    requires
        s.len() >= len,
    ensures
        spec_le_val(s, len) < pow256(len),
    decreases len,
{
    if len > 0 {
        lemma_le_val_bound(s.skip(1), (len - 1) as nat);
        let v = spec_le_val(s.skip(1), (len - 1) as nat);
        assert(256 * v <= 256 * (pow256((len - 1) as nat) - 1)) by {
            vstd::arithmetic::mul::lemma_mul_inequality(
                v as int, pow256((len - 1) as nat) as int - 1, 256);
        }
    }
}

/// Reading back `len` little-endian bytes returns `n`, whatever follows.
pub proof fn lemma_le_round_trip(n: nat, len: nat, rest: Seq<u8>)
    requires
        n < pow256(len),
    ensures
        spec_enc_le(n, len).len() == len,
        spec_le_val(spec_enc_le(n, len) + rest, len) == n,
    decreases len,
{
    lemma_enc_le_len(n, len);
    if len > 0 {
        vstd::arithmetic::div_mod::lemma_fundamental_div_mod(n as int, 256);
        assert(n / 256 < pow256((len - 1) as nat)) by {
            vstd::arithmetic::div_mod::lemma_fundamental_div_mod(n as int, 256);
            if n / 256 >= pow256((len - 1) as nat) {
                vstd::arithmetic::mul::lemma_mul_inequality(
                    pow256((len - 1) as nat) as int, (n / 256) as int, 256);
            }
        }
        lemma_le_round_trip(n / 256, (len - 1) as nat, rest);
        let enc = spec_enc_le(n, len);
        assert((enc + rest).skip(1) =~= spec_enc_le(n / 256, (len - 1) as nat) + rest);
        assert((enc + rest)[0] == (n % 256) as u8);
    }
}

/// Appends `n` as `len` little-endian bytes to `out`.
pub fn enc_le_append(out: &mut Vec<u8>, n: u64, len: usize)
    ensures
        final(out)@ == old(out)@ + spec_enc_le(n as nat, len as nat),
    decreases len,
{
    if len == 0 {
        assert(final(out)@ =~= old(out)@ + spec_enc_le(n as nat, 0));
    } else {
        out.push((n % 256) as u8);
        enc_le_append(out, n / 256, len - 1);
        assert(final(out)@ =~= old(out)@ + spec_enc_le(n as nat, len as nat));
    }
}

/// Reads a `len`-byte little-endian value starting at `pos`.
fn dec_le_val(buf: &[u8], pos: usize, len: usize) -> (v: u64)
    requires
        len <= 8,
        pos + len <= buf@.len(),
    ensures
        v as nat == spec_le_val(buf@.skip(pos as int), len as nat),
        (v as nat) < pow256(len as nat),
    decreases len,
{
    proof {
        lemma_le_val_bound(buf@.skip(pos as int), len as nat);
        lemma_pow256_mono(len as nat, 8);
        assert(pow256(8) == 0x1_0000_0000_0000_0000) by { reveal_with_fuel(pow256, 9); }
    }
    if len == 0 {
        0
    } else {
        let b = buf[pos];
        let rest = dec_le_val(buf, pos + 1, len - 1);
        proof {
            assert(buf@.skip(pos as int).skip(1) =~= buf@.skip(pos as int + 1));
            lemma_pow256_mono((len - 1) as nat, 7);
            assert(pow256(7) == 0x100_0000_0000_0000) by { reveal_with_fuel(pow256, 8); }
            assert(256 * (rest as nat) <= 256 * (pow256(7) - 1)) by {
                vstd::arithmetic::mul::lemma_mul_inequality(
                    rest as int, pow256(7) as int - 1, 256);
            }
        }
        b as u64 + 256 * rest
    }
}

/// Reads a `len`-byte little-endian integer at `pos`; `len` at most 8.
pub fn dec_le(buf: &[u8], pos: usize, len: usize) -> (r: Result<(u64, usize), DecodeError>)
    requires
        len <= 8,
        pos <= buf@.len(),
    ensures
        match spec_dec_le(buf@.skip(pos as int), len as nat) {
            Ok((v, c)) => r == Ok::<(u64, usize), DecodeError>(((v as u64), (pos + c) as usize))
                && v <= u64::MAX,
            Err(e) => r == Err::<(u64, usize), DecodeError>(e),
        },
        r matches Ok(p) ==> pos <= p.1 <= buf@.len(),
        r matches Ok(p) ==> (p.0 as nat) < pow256(len as nat),
        spec_dec_le(buf@.skip(pos as int), len as nat) matches Ok((v, c))
            ==> (r matches Ok(p) && p.0 as nat == v && p.1 == pos + c),
{
    if buf.len() - pos < len {
        return Err(DecodeError::Truncated);
    }
    let v = dec_le_val(buf, pos, len);
    proof {
        lemma_pow256_mono(len as nat, 8);
        assert(pow256(8) == 0x1_0000_0000_0000_0000) by { reveal_with_fuel(pow256, 9); }
    }
    Ok((v, pos + len))
}

// ---------------------------------------------------------------------------
// Booleans
// ---------------------------------------------------------------------------

pub open spec fn spec_enc_bool(b: bool) -> Seq<u8> {
    seq![if b { 1u8 } else { 0u8 }]
}

pub open spec fn spec_dec_bool(s: Seq<u8>) -> Result<(bool, int), DecodeError> {
    if s.len() == 0 {
        Err(DecodeError::Truncated)
    } else if s[0] == 0 {
        Ok((false, 1))
    } else if s[0] == 1 {
        Ok((true, 1))
    } else {
        Err(DecodeError::Malformed)
    }
}

pub proof fn lemma_bool_round_trip(b: bool, rest: Seq<u8>)
    ensures
        spec_dec_bool(spec_enc_bool(b) + rest) == Ok::<(bool, int), DecodeError>((b, 1)),
{
    assert((spec_enc_bool(b) + rest)[0] == if b { 1u8 } else { 0u8 });
}

pub fn enc_bool_append(out: &mut Vec<u8>, b: bool)
    ensures
        final(out)@ == old(out)@ + spec_enc_bool(b),
{
    out.push(if b { 1u8 } else { 0u8 });
    assert(final(out)@ =~= old(out)@ + spec_enc_bool(b));
}

pub fn dec_bool(buf: &[u8], pos: usize) -> (r: Result<(bool, usize), DecodeError>)
    requires
        pos <= buf@.len(),
    ensures
        match spec_dec_bool(buf@.skip(pos as int)) {
            Ok((v, c)) => r == Ok::<(bool, usize), DecodeError>((v, (pos + c) as usize)),
            Err(e) => r == Err::<(bool, usize), DecodeError>(e),
        },
        r matches Ok(p) ==> pos < p.1 <= buf@.len(),
        spec_dec_bool(buf@.skip(pos as int)) matches Ok((v, c))
            ==> (r matches Ok(p) && p.0 == v && p.1 == pos + c),
{
    if pos >= buf.len() {
        assert(buf@.skip(pos as int).len() == 0);
        return Err(DecodeError::Truncated);
    }
    let b = buf[pos];
    assert(buf@.skip(pos as int)[0] == b);
    if b == 0 {
        Ok((false, pos + 1))
    } else if b == 1 {
        Ok((true, pos + 1))
    } else {
        Err(DecodeError::Malformed)
    }
}

// ---------------------------------------------------------------------------
// Length-prefixed byte fields
// ---------------------------------------------------------------------------

pub open spec fn spec_enc_bytes(b: Seq<u8>) -> Seq<u8> {
    spec_enc_varint(b.len()) + b
}

pub open spec fn spec_dec_bytes(s: Seq<u8>) -> Result<(Seq<u8>, int), DecodeError> {
    match spec_dec_varint(s) {
        Err(e) => Err(e),
        Ok((v, c)) => if c + v <= s.len() {
            Ok((s.subrange(c, c + v), c + v))
        } else {
            Err(DecodeError::Truncated)
        },
    }
}

pub proof fn lemma_bytes_round_trip(b: Seq<u8>, rest: Seq<u8>)
    ensures
        spec_dec_bytes(spec_enc_bytes(b) + rest)
            == Ok::<(Seq<u8>, int), DecodeError>((b, spec_enc_bytes(b).len() as int)),
{
    let whole = spec_enc_bytes(b) + rest;
    let pre = spec_enc_varint(b.len());
    lemma_varint_round_trip(b.len(), b + rest);
    assert(whole =~= pre + (b + rest));
    let c = pre.len() as int;
    assert(whole.subrange(c, c + b.len()) =~= b);
}

/// Appends a varint length prefix and the bytes of `b` to `out`.
pub fn enc_bytes_append(out: &mut Vec<u8>, b: &[u8])
    ensures
        final(out)@ == old(out)@ + spec_enc_bytes(b@),
{
    enc_varint_append(out, b.len() as u64);
    out.extend_from_slice(b);
    assert(final(out)@ =~= old(out)@ + spec_enc_bytes(b@));
}

/// Reads a length-prefixed byte field at `pos` into a fresh vector.
pub fn dec_bytes(buf: &[u8], pos: usize) -> (r: Result<(Vec<u8>, usize), DecodeError>)
    requires
        pos <= buf@.len(),
    ensures
        match spec_dec_bytes(buf@.skip(pos as int)) {
            Ok((v, c)) => r matches Ok((rv, rc)) && rv@ == v && rc == pos + c,
            Err(e) => r == Err::<(Vec<u8>, usize), DecodeError>(e),
        },
        r matches Ok(p) ==> pos < p.1 <= buf@.len(),
{
    let suffix_len: usize = buf.len() - pos;
    proof {
        lemma_dec_varint_bounds(buf@.skip(pos as int));
    }
    match dec_varint(buf, pos) {
        Err(e) => {
            proof {
                if spec_dec_varint(buf@.skip(pos as int)) is Ok {
                    let (v, c) = spec_dec_varint(buf@.skip(pos as int))->Ok_0;
                    if v > u64::MAX {
                        // a value above u64::MAX cannot fit in the suffix either
                        assert(usize::MAX <= u64::MAX);
                        assert(buf@.skip(pos as int).len() <= suffix_len <= usize::MAX);
                        assert(c + v > buf@.skip(pos as int).len());
                        assert(spec_dec_bytes(buf@.skip(pos as int))
                            == Err::<(Seq<u8>, int), DecodeError>(DecodeError::Truncated));
                    }
                }
            }
            // a length above u64::MAX cannot fit in the input either
            match e {
                DecodeError::Overflow => Err(DecodeError::Truncated),
                _ => Err(e),
            }
        },
        Ok((n, after)) => {
            if n > (buf.len() - after) as u64 {
                proof {
                    let (v, c) = spec_dec_varint(buf@.skip(pos as int))->Ok_0;
                    assert(c + v > buf@.skip(pos as int).len());
                }
                return Err(DecodeError::Truncated);
            }
            let n_us = n as usize;
            let end = after + n_us;
            let mut v: Vec<u8> = Vec::new();
            let mut i: usize = after;
            while i < end
                invariant
                    after <= i <= end <= buf@.len(),
                    v@ =~= buf@.subrange(after as int, i as int),
                decreases end - i,
            {
                let b = buf[i];
                v.push(b);
                assert(v@ =~= buf@.subrange(after as int, i as int + 1));
                i = i + 1;
            }
            proof {
                let (sv, sc) = spec_dec_varint(buf@.skip(pos as int))->Ok_0;
                assert(buf@.skip(pos as int).subrange(sc, sc + sv)
                    =~= buf@.subrange(after as int, end as int));
            }
            Ok((v, end))
        },
    }
}

// ---------------------------------------------------------------------------
// Length-prefixed UTF-8 strings
// ---------------------------------------------------------------------------

pub open spec fn spec_enc_str(s: Seq<char>) -> Seq<u8> {
    spec_enc_bytes(encode_utf8(s))
}

pub open spec fn spec_dec_str(s: Seq<u8>) -> Result<(Seq<char>, int), DecodeError> {
    match spec_dec_bytes(s) {
        Err(e) => Err(e),
        Ok((bs, c)) => if valid_utf8(bs) {
            Ok((decode_utf8(bs), c))
        } else {
            Err(DecodeError::Malformed)
        },
    }
}

pub proof fn lemma_str_round_trip(s: Seq<char>, rest: Seq<u8>)
    ensures
        spec_dec_str(spec_enc_str(s) + rest)
            == Ok::<(Seq<char>, int), DecodeError>((s, spec_enc_str(s).len() as int)),
{
    lemma_bytes_round_trip(encode_utf8(s), rest);
    encode_utf8_valid_utf8(s);
    encode_utf8_decode_utf8(s);
}

/// Relies on `String::from_utf8`: returns the string with exactly the given
/// bytes when they are valid UTF-8, and fails otherwise.
#[verifier::external_body]
fn string_from_utf8(v: Vec<u8>) -> (r: Option<String>)
    ensures
        r matches Some(s) ==> encode_utf8(s@) == v@,
        valid_utf8(v@) ==> r is Some,
{
    String::from_utf8(v).ok()
}

/// Appends a varint byte-length prefix and the UTF-8 bytes of `s` to `out`.
pub fn enc_str_append(out: &mut Vec<u8>, s: &str)
    ensures
        final(out)@ == old(out)@ + spec_enc_str(s@),
{
    enc_bytes_append(out, s.as_bytes());
}

/// Reads a length-prefixed UTF-8 string field at `pos`.
pub fn dec_str(buf: &[u8], pos: usize) -> (r: Result<(String, usize), DecodeError>)
    requires
        pos <= buf@.len(),
    ensures
        match spec_dec_str(buf@.skip(pos as int)) {
            Ok((v, c)) => r matches Ok((rv, rc)) && rv@ == v && rc == pos + c,
            Err(e) => r == Err::<(String, usize), DecodeError>(e),
        },
        r matches Ok(p) ==> pos < p.1 <= buf@.len(),
{
    match dec_bytes(buf, pos) {
        Err(e) => Err(e),
        Ok((bs, end)) => {
            let ghost bytes_view = bs@;
            match string_from_utf8(bs) {
                None => {
                    proof {
                        if valid_utf8(bytes_view) {
                            assert(false);
                        }
                    }
                    Err(DecodeError::Malformed)
                },
                Some(s) => {
                    proof {
                        encode_utf8_valid_utf8(s@);
                        encode_utf8_decode_utf8(s@);
                    }
                    Ok((s, end))
                },
            }
        },
    }
}

// ---------------------------------------------------------------------------
// Optional fields (one presence byte, then the payload)
// ---------------------------------------------------------------------------

pub open spec fn spec_enc_opt_str(o: Option<Seq<char>>) -> Seq<u8> {
    match o {
        None => seq![0u8],
        Some(s) => seq![1u8] + spec_enc_str(s),
    }
}

pub open spec fn spec_dec_opt_str(s: Seq<u8>) -> Result<(Option<Seq<char>>, int), DecodeError> {
    if s.len() == 0 {
        Err(DecodeError::Truncated)
    } else if s[0] == 0 {
        Ok((None, 1))
    } else if s[0] == 1 {
        match spec_dec_str(s.skip(1)) {
            Err(e) => Err(e),
            Ok((v, c)) => Ok((Some(v), c + 1)),
        }
    } else {
        Err(DecodeError::Malformed)
    }
}

pub proof fn lemma_opt_str_round_trip(o: Option<Seq<char>>, rest: Seq<u8>)
    ensures
        spec_dec_opt_str(spec_enc_opt_str(o) + rest)
            == Ok::<(Option<Seq<char>>, int), DecodeError>((o, spec_enc_opt_str(o).len() as int)),
{
    let whole = spec_enc_opt_str(o) + rest;
    match o {
        None => {
            assert(whole[0] == 0u8);
        },
        Some(s) => {
            assert(whole[0] == 1u8);
            assert(whole.skip(1) =~= spec_enc_str(s) + rest);
            lemma_str_round_trip(s, rest);
        },
    }
}

pub fn enc_opt_str_append(out: &mut Vec<u8>, o: &Option<String>)
    ensures
        final(out)@ == old(out)@ + spec_enc_opt_str(match *o {
            Option::None => Option::None,
            Option::Some(ref s) => Option::Some(s@),
        }),
{
    match o {
        None => {
            out.push(0u8);
            assert(final(out)@ =~= old(out)@ + spec_enc_opt_str(Option::None));
        },
        Some(s) => {
            out.push(1u8);
            enc_str_append(out, s.as_str());
            assert(final(out)@ =~= old(out)@ + spec_enc_opt_str(Option::Some(s@)));
        },
    }
}

pub fn dec_opt_str(buf: &[u8], pos: usize) -> (r: Result<(Option<String>, usize), DecodeError>)
    requires
        pos <= buf@.len(),
    ensures
        match spec_dec_opt_str(buf@.skip(pos as int)) {
            Ok((v, c)) => r matches Ok((rv, rc)) && rc == pos + c
                && (match rv {
                    Option::None => v is None,
                    Option::Some(s) => v matches Some(vs) && s@ == vs,
                }),
            Err(e) => r == Err::<(Option<String>, usize), DecodeError>(e),
        },
        r matches Ok(p) ==> pos < p.1 <= buf@.len(),
{
    if pos >= buf.len() {
        assert(buf@.skip(pos as int).len() == 0);
        return Err(DecodeError::Truncated);
    }
    let b = buf[pos];
    assert(buf@.skip(pos as int)[0] == b);
    if b == 0 {
        Ok((None, pos + 1))
    } else if b == 1 {
        assert(buf@.skip(pos as int).skip(1) =~= buf@.skip(pos as int + 1));
        match dec_str(buf, pos + 1) {
            Err(e) => Err(e),
            Ok((s, end)) => Ok((Some(s), end)),
        }
    } else {
        Err(DecodeError::Malformed)
    }
}

pub open spec fn spec_enc_opt_bytes(o: Option<Seq<u8>>) -> Seq<u8> {
    match o {
        None => seq![0u8],
        Some(b) => seq![1u8] + spec_enc_bytes(b),
    }
}

pub open spec fn spec_dec_opt_bytes(s: Seq<u8>) -> Result<(Option<Seq<u8>>, int), DecodeError> {
    if s.len() == 0 {
        Err(DecodeError::Truncated)
    } else if s[0] == 0 {
        Ok((None, 1))
    } else if s[0] == 1 {
        match spec_dec_bytes(s.skip(1)) {
            Err(e) => Err(e),
            Ok((v, c)) => Ok((Some(v), c + 1)),
        }
    } else {
        Err(DecodeError::Malformed)
    }
}

pub proof fn lemma_opt_bytes_round_trip(o: Option<Seq<u8>>, rest: Seq<u8>)
    ensures
        spec_dec_opt_bytes(spec_enc_opt_bytes(o) + rest)
            == Ok::<(Option<Seq<u8>>, int), DecodeError>((o, spec_enc_opt_bytes(o).len() as int)),
{
    let whole = spec_enc_opt_bytes(o) + rest;
    match o {
        None => {
            assert(whole[0] == 0u8);
        },
        Some(b) => {
            assert(whole[0] == 1u8);
            assert(whole.skip(1) =~= spec_enc_bytes(b) + rest);
            lemma_bytes_round_trip(b, rest);
        },
    }
}

pub fn enc_opt_bytes_append(out: &mut Vec<u8>, o: &Option<Vec<u8>>)
    ensures
        final(out)@ == old(out)@ + spec_enc_opt_bytes(match *o {
            Option::None => Option::None,
            Option::Some(ref b) => Option::Some(b@),
        }),
{
    match o {
        None => {
            out.push(0u8);
            assert(final(out)@ =~= old(out)@ + spec_enc_opt_bytes(Option::None));
        },
        Some(b) => {
            out.push(1u8);
            enc_bytes_append(out, b.as_slice());
            assert(final(out)@ =~= old(out)@ + spec_enc_opt_bytes(Option::Some(b@)));
        },
    }
}

pub fn dec_opt_bytes(buf: &[u8], pos: usize) -> (r: Result<(Option<Vec<u8>>, usize), DecodeError>)
    requires
        pos <= buf@.len(),
    ensures
        match spec_dec_opt_bytes(buf@.skip(pos as int)) {
            Ok((v, c)) => r matches Ok((rv, rc)) && rc == pos + c
                && (match rv {
                    Option::None => v is None,
                    Option::Some(b) => v matches Some(vb) && b@ == vb,
                }),
            Err(e) => r == Err::<(Option<Vec<u8>>, usize), DecodeError>(e),
        },
        r matches Ok(p) ==> pos < p.1 <= buf@.len(),
{
    if pos >= buf.len() {
        assert(buf@.skip(pos as int).len() == 0);
        return Err(DecodeError::Truncated);
    }
    let b = buf[pos];
    assert(buf@.skip(pos as int)[0] == b);
    if b == 0 {
        Ok((None, pos + 1))
    } else if b == 1 {
        assert(buf@.skip(pos as int).skip(1) =~= buf@.skip(pos as int + 1));
        match dec_bytes(buf, pos + 1) {
            Err(e) => Err(e),
            Ok((v, end)) => Ok((Some(v), end)),
        }
    } else {
        Err(DecodeError::Malformed)
    }
}


// ---------------------------------------------------------------------------
// Big-endian 32-bit frame length
// ---------------------------------------------------------------------------

/// `n` in 4 bytes, most significant first.
pub open spec fn spec_enc_be32(n: nat) -> Seq<u8> {
    let le = spec_enc_le(n, 4);
    seq![le[3], le[2], le[1], le[0]]
}

/// Value of the first 4 bytes of `s` read as big-endian.
pub open spec fn spec_be32_val(s: Seq<u8>) -> nat {
    spec_le_val(seq![s[3], s[2], s[1], s[0]], 4)
}

/// Total decoder for a 4-byte big-endian integer.
pub open spec fn spec_dec_be32(s: Seq<u8>) -> Result<(nat, int), DecodeError> {
    if s.len() >= 4 {
        Ok((spec_be32_val(s), 4))
    } else {
        Err(DecodeError::Truncated)
    }
}

/// Reading back the 4 big-endian bytes returns `n`, whatever follows.
pub proof fn lemma_be32_round_trip(n: nat, rest: Seq<u8>)
    requires
        n < pow256(4),
    ensures
        spec_enc_be32(n).len() == 4,
        spec_dec_be32(spec_enc_be32(n) + rest) == Ok::<(nat, int), DecodeError>((n, 4)),
{
    let le = spec_enc_le(n, 4);
    lemma_enc_le_len(n, 4);
    let whole = spec_enc_be32(n) + rest;
    assert(seq![whole[3], whole[2], whole[1], whole[0]] =~= le);
    lemma_le_round_trip(n, 4, Seq::empty());
    assert(le + Seq::<u8>::empty() =~= le);
}

/// Appends `n` as 4 big-endian bytes to `out`.
pub fn enc_be32_append(out: &mut Vec<u8>, n: u32)
    ensures
        final(out)@ == old(out)@ + spec_enc_be32(n as nat),
{
    let b0 = (n % 256) as u8;
    let n1 = n / 256;
    let b1 = (n1 % 256) as u8;
    let n2 = n1 / 256;
    let b2 = (n2 % 256) as u8;
    let b3 = (n2 / 256) as u8;
    out.push(b3);
    out.push(b2);
    out.push(b1);
    out.push(b0);
    proof {
        reveal_with_fuel(spec_enc_le, 5);
        let le = spec_enc_le(n as nat, 4);
        assert(le =~= seq![b0, b1, b2, b3]);
        assert(final(out)@ =~= old(out)@ + spec_enc_be32(n as nat));
    }
}

/// Reads a 4-byte big-endian integer at `pos`.
pub fn dec_be32(buf: &[u8], pos: usize) -> (r: Result<(u32, usize), DecodeError>)
    requires
        pos <= buf@.len(),
    ensures
        match spec_dec_be32(buf@.skip(pos as int)) {
            Ok((v, c)) => r == Ok::<(u32, usize), DecodeError>(((v as u32), (pos + c) as usize))
                && v <= u32::MAX,
            Err(e) => r == Err::<(u32, usize), DecodeError>(e),
        },
        r matches Ok(p) ==> pos < p.1 <= buf@.len(),
        spec_dec_be32(buf@.skip(pos as int)) matches Ok((v, c))
            ==> (r matches Ok(p) && p.0 as nat == v && p.1 == pos + c),
{
    if buf.len() - pos < 4 {
        return Err(DecodeError::Truncated);
    }
    let b3 = buf[pos];
    let b2 = buf[pos + 1];
    let b1 = buf[pos + 2];
    let b0 = buf[pos + 3];
    let v = b0 as u32 + 256 * (b1 as u32 + 256 * (b2 as u32 + 256 * (b3 as u32)));
    proof {
        reveal_with_fuel(spec_le_val, 5);
        let s = buf@.skip(pos as int);
        let q = seq![s[3], s[2], s[1], s[0]];
        assert(q.skip(1) =~= seq![s[2], s[1], s[0]]);
        assert(q.skip(1).skip(1) =~= seq![s[1], s[0]]);
        assert(q.skip(1).skip(1).skip(1) =~= seq![s[0]]);
        assert(s[0] == b3 && s[1] == b2 && s[2] == b1 && s[3] == b0);
        assert(spec_be32_val(s) == v as nat);
    }
    Ok((v, pos + 4))
}


} // verus!
