//! Base32 (RFC 4648 alphabet `A`-`Z`, `2`-`7`) decoding of shared secrets.
//!
//! The model: a string of `n` symbols is the number of `5 * n` bits that its
//! symbols spell, most significant first; byte `k` of the result is bits
//! `8 * k .. 8 * k + 8` of that number, counted from the top, and the bits
//! that do not fill a whole byte at the end are dropped.
use vstd::prelude::*;
use vstd::bits::{
    low_bits_mask,
    lemma_u64_low_bits_mask_is_mod,
    lemma_u64_pow2_no_overflow,
    lemma_u64_shl_is_mul,
    lemma_u64_shr_is_div,
};
use vstd::arithmetic::power2::{
    pow2,
    lemma2_to64,
    lemma_pow2_adds,
    lemma_pow2_pos,
    lemma_pow2_strictly_increases,
};
use vstd::arithmetic::div_mod::{
    lemma_div_denominator,
    lemma_fundamental_div_mod,
    lemma_fundamental_div_mod_converse,
    lemma_mod_breakdown,
    lemma_mod_mod,
    lemma_small_mod,
};

verus! {

/// Why a secret could not be decoded.
#[derive(Debug, Clone, Copy, PartialEq, Eq, Structural)]
pub enum Base32Error {
    /// A character other than the 32 symbols and `=` padding.
    InvalidCharacter,
}

/// One of the 32 symbols of the alphabet.
pub open spec fn is_symbol(c: char) -> bool {
    ('A' as u32 <= c as u32 && c as u32 <= 'Z' as u32) || ('2' as u32 <= c as u32 && c as u32
        <= '7' as u32)
}

/// The 5-bit value of a symbol: `A`-`Z` are 0-25, `2`-`7` are 26-31.
pub open spec fn symbol_value(c: char) -> nat {
    if 'A' as u32 <= c as u32 && c as u32 <= 'Z' as u32 {
        (c as u32 - 'A' as u32) as nat
    } else {
        (c as u32 - '2' as u32 + 26) as nat
    }
}

/// The text with every `=` removed.
pub open spec fn strip_padding(s: Seq<char>) -> Seq<char>
    decreases s.len(),
{
    if s.len() == 0 {
        Seq::empty()
    } else if s.last() == '=' {
        strip_padding(s.drop_last())
    } else {
        strip_padding(s.drop_last()).push(s.last())
    }
}

pub open spec fn all_symbols(s: Seq<char>) -> bool {
    forall|i: int| 0 <= i < s.len() ==> is_symbol(#[trigger] s[i])
}

/// The number that a string of symbols spells in base 32, first symbol most
/// significant.
pub open spec fn symbols_value(s: Seq<char>) -> nat
    decreases s.len(),
{
    if s.len() == 0 {
        0
    } else {
        symbols_value(s.drop_last()) * 32 + symbol_value(s.last())
    }
}

/// Byte `k` of the decoding of the symbols `s`: the 8 bits that follow the
/// first `8 * k` of the `5 * |s|` bits of `s`.
pub open spec fn decoded_byte(s: Seq<char>, k: int) -> u8 {
    ((symbols_value(s) / pow2((5 * s.len() - 8 * k - 8) as nat)) % 256) as u8
}

/// The decoding of a string of symbols: `floor(5 * |s| / 8)` whole bytes.
pub open spec fn decode_symbols(s: Seq<char>) -> Seq<u8> {
    Seq::new(s.len() * 5 / 8, |k: int| decoded_byte(s, k))
}

/// What decoding a text gives: `None` where a character other than `=` is not
/// a symbol, else the bytes of its symbols.
pub open spec fn base32_decoded(text: Seq<char>) -> Option<Seq<u8>> {
    let s = strip_padding(text);
    if all_symbols(s) {
        Some(decode_symbols(s))
    } else {
        None
    }
}

proof fn lemma_strip_padding_push(s: Seq<char>, c: char)
    ensures
        strip_padding(s.push(c)) == if c == '=' {
            strip_padding(s)
        } else {
            strip_padding(s).push(c)
        },
{
    assert(s.push(c).drop_last() =~= s);
}

proof fn lemma_strip_padding_append(a: Seq<char>, b: Seq<char>)
    ensures
        strip_padding(a + b) == strip_padding(a) + strip_padding(b),
    decreases b.len(),
{
    if b.len() == 0 {
        assert(a + b =~= a);
        assert(strip_padding(a) + strip_padding(b) =~= strip_padding(a));
    } else {
        lemma_strip_padding_append(a, b.drop_last());
        assert((a + b).drop_last() =~= a + b.drop_last());
        assert((a + b).last() == b.last());
        if b.last() == '=' {
        } else {
            assert(strip_padding(a) + strip_padding(b.drop_last()).push(b.last()) =~= (
            strip_padding(a) + strip_padding(b.drop_last())).push(b.last()));
        }
    }
}

/// `(x * 32 + v) mod 2^(b + 5)` keeps the low `b` bits of `x` below `v`.
proof fn lemma_append_low_bits(x: nat, v: nat, b: nat)
    requires
        v < 32,
    ensures
        (x * 32 + v) % pow2(b + 5) == (x % pow2(b)) * 32 + v,
        pow2(b + 5) == pow2(b) * 32,
{
    lemma_pow2_adds(b, 5);
    lemma2_to64();
    lemma_pow2_pos(b);
    let p = pow2(b) as int;
    lemma_fundamental_div_mod(x as int, p);
    let q = x as int / p;
    let r = x as int % p;
    assert((x * 32 + v) as int == q * (p * 32) + (r * 32 + v)) by (nonlinear_arith)
        requires
            x as int == p * q + r,
    ;
    assert(0 <= r * 32 + v < p * 32) by (nonlinear_arith)
        requires
            0 <= r < p,
            v < 32,
    ;
    lemma_fundamental_div_mod_converse((x * 32 + v) as int, p * 32, q, r * 32 + v);
}

/// Appending a symbol leaves the bytes that were already whole unchanged.
proof fn lemma_decoded_byte_stable(s: Seq<char>, c: char, k: int)
    requires
        is_symbol(c),
        0 <= k,
        8 * k + 8 <= 5 * s.len(),
    ensures
        decoded_byte(s.push(c), k) == decoded_byte(s, k),
{
    let t = s.push(c);
    assert(t.drop_last() =~= s);
    let e = (5 * s.len() - 8 * k - 8) as nat;
    assert((5 * t.len() - 8 * k - 8) as nat == e + 5);
    lemma_pow2_adds(5, e);
    lemma2_to64();
    lemma_pow2_pos(e);
    let v = symbol_value(c);
    assert(v < 32);
    let x = symbols_value(t) as int;
    assert(x == symbols_value(s) * 32 + v);
    lemma_fundamental_div_mod_converse(x, 32, symbols_value(s) as int, v as int);
    lemma_div_denominator(x, 32, pow2(e) as int);
}

/// The byte read off the low bits: if `y` holds the low `b` bits of `x`, then
/// the 8 bits above the lowest `b - 8` are the same in both.
proof fn lemma_top_byte_of_low_bits(x: nat, b: nat)
    requires
        b >= 8,
    ensures
        (x / pow2((b - 8) as nat)) % 256 == (x % pow2(b)) / pow2((b - 8) as nat),
        (x % pow2(b)) % pow2((b - 8) as nat) == x % pow2((b - 8) as nat),
{
    let s = (b - 8) as nat;
    lemma_pow2_adds(s, 8);
    lemma2_to64();
    lemma_pow2_pos(s);
    let p = pow2(s) as int;
    lemma_mod_breakdown(x as int, p, 256);
    lemma_mod_mod(x as int, p, 256);
    let m = (x as int / p) % 256;
    let r = x as int % p;
    lemma_fundamental_div_mod_converse(p * m + r, p, m, r);
}

/// What `str::to_uppercase` makes of a text (Unicode case mapping).
pub uninterp spec fn uppercase_of(s: Seq<char>) -> Seq<char>;

/// Relies on `str::to_uppercase`: the Unicode upper case of a text, a
/// function of its characters alone.
#[verifier::external_body]
fn to_uppercase(s: &str) -> (r: String)
    ensures
        r@ == uppercase_of(s@),
{
    s.to_uppercase()
}

/// The 5-bit value of `c`, or `None` where `c` is not a symbol.
fn symbol_value_of(c: char) -> (r: Option<u64>)
    ensures
        match r {
            Some(v) => is_symbol(c) && v == symbol_value(c),
            None => !is_symbol(c),
        },
{
    let u = c as u32;
    if 'A' as u32 <= u && u <= 'Z' as u32 {
        Some((u - 'A' as u32) as u64)
    } else if '2' as u32 <= u && u <= '7' as u32 {
        Some((u - '2' as u32 + 26) as u64)
    } else {
        None
    }
}

/// Decodes a text that is already upper case: `=` characters are skipped
/// wherever they stand, and any other character outside the alphabet fails
/// the whole decoding.
pub fn base32_decode_uppercased(text: &str) -> (r: Result<Vec<u8>, Base32Error>)
    ensures
        match r {
            Ok(bytes) => base32_decoded(text@) == Some(bytes@),
            Err(e) => base32_decoded(text@) is None && e == Base32Error::InvalidCharacter,
        },
{
    let mut out: Vec<u8> = Vec::new();
    let mut buffer: u64 = 0;
    let mut bits: u64 = 0;
    let ghost mut done: Seq<char> = Seq::empty();
    proof {
        lemma2_to64();
    }
    for c in it: text.chars()
        invariant
            it.seq() == text@,
            done == strip_padding(text@.take(it.index() as int)),
            all_symbols(done),
            bits < 8,
            bits + 8 * out.len() == 5 * done.len(),
            buffer < pow2(bits as nat),
            buffer == symbols_value(done) % pow2(bits as nat),
            out@ == decode_symbols(done),
    {
        let ghost before = done;
        proof {
            assert(text@.take(it.index() + 1) =~= text@.take(it.index() as int).push(c));
            lemma_strip_padding_push(text@.take(it.index() as int), c);
        }
        if c != '=' {
            let value = match symbol_value_of(c) {
                Some(v) => v,
                None => {
                    proof {
                        let rest = text@.subrange(it.index() + 1, text@.len() as int);
                        lemma_strip_padding_append(text@.take(it.index() + 1), rest);
                        assert(text@.take(it.index() + 1) + rest =~= text@);
                        let bad = before.len() as int;
                        assert(strip_padding(text@)[bad] == c);
                    }
                    return Err(Base32Error::InvalidCharacter);
                },
            };
            proof {
                done = before.push(c);
                assert(done.drop_last() =~= before);
                assert(all_symbols(done));
                lemma_append_low_bits(symbols_value(before), value as nat, bits as nat);
                lemma2_to64();
                if bits < 7 {
                    lemma_pow2_strictly_increases(bits as nat, 7);
                }
                assert(((buffer << 5u64) | value) == buffer * 32 + value) by (bit_vector)
                    requires
                        buffer < 128,
                        value < 32,
                ;
            }
            buffer = (buffer << 5) | value;
            bits = bits + 5;
            if bits >= 8 {
                let shift = bits - 8;
                proof {
                    lemma_top_byte_of_low_bits(symbols_value(done), bits as nat);
                    lemma_u64_shr_is_div(buffer, shift);
                    lemma_u64_pow2_no_overflow(shift as nat);
                    lemma_u64_shl_is_mul(1, shift);
                    lemma_u64_low_bits_mask_is_mod(buffer, shift as nat);
                }
                let byte = (buffer >> shift) as u8;
                assert forall|k: int| 0 <= k < out.len() implies decoded_byte(done, k)
                    == out@[k] by {
                    lemma_decoded_byte_stable(before, c, k);
                }
                out.push(byte);
                buffer = buffer & ((1u64 << shift) - 1);
                bits = shift;
                assert(out@ =~= decode_symbols(done));
            } else {
                assert forall|k: int| 0 <= k < out.len() implies decoded_byte(done, k)
                    == out@[k] by {
                    lemma_decoded_byte_stable(before, c, k);
                }
                assert(out@ =~= decode_symbols(done));
            }
        }
    }
    proof {
        assert(text@.take(text@.len() as int) =~= text@);
    }
    Ok(out)
}

/// Decodes a base32 secret: the text is upper-cased, `=` characters are
/// skipped wherever they stand, and any other character outside the alphabet
/// fails the whole decoding.
pub fn base32_decode(input: &str) -> (r: Result<Vec<u8>, Base32Error>)
    ensures
        match r {
            Ok(bytes) => base32_decoded(uppercase_of(input@)) == Some(bytes@),
            Err(e) => base32_decoded(uppercase_of(input@)) is None && e
                == Base32Error::InvalidCharacter,
        },
{
    let upper = to_uppercase(input);
    base32_decode_uppercased(upper.as_str())
}

/// Symbols followed by any number of `=` decode, into `floor(5 * n / 8)`
/// bytes for `n` symbols.
pub proof fn lemma_decoded_length(symbols: Seq<char>, padding: nat)
    requires
        all_symbols(symbols),
    ensures
        base32_decoded(symbols + Seq::new(padding, |i: int| '=')) is Some,
        base32_decoded(symbols + Seq::new(padding, |i: int| '='))->0.len() == symbols.len() * 5
            / 8,
{
    let pad = Seq::new(padding, |i: int| '=');
    lemma_strip_padding_append(symbols, pad);
    lemma_strip_padding_of_symbols(symbols);
    lemma_strip_padding_of_padding(padding);
    assert(symbols + Seq::<char>::empty() =~= symbols);
}

proof fn lemma_strip_padding_of_symbols(s: Seq<char>)
    requires
        all_symbols(s),
    ensures
        strip_padding(s) == s,
    decreases s.len(),
{
    if s.len() > 0 {
        assert(all_symbols(s.drop_last()));
        lemma_strip_padding_of_symbols(s.drop_last());
        assert(is_symbol(s[s.len() - 1]));
        assert(s.drop_last().push(s.last()) =~= s);
    }
}

proof fn lemma_strip_padding_of_padding(n: nat)
    ensures
        strip_padding(Seq::new(n, |i: int| '=')) == Seq::<char>::empty(),
    decreases n,
{
    if n > 0 {
        let p = Seq::new(n, |i: int| '=');
        assert(p.drop_last() =~= Seq::new((n - 1) as nat, |i: int| '='));
        lemma_strip_padding_of_padding((n - 1) as nat);
    }
}

/// The symbol of a 5-bit value.
pub open spec fn symbol_of(v: nat) -> char {
    if v < 26 {
        ('A' as u32 + v) as char
    } else {
        ('2' as u32 + v - 26) as char
    }
}

proof fn lemma_symbol_of(v: nat)
    requires
        v < 32,
    ensures
        is_symbol(symbol_of(v)),
        symbol_value(symbol_of(v)) == v,
{
}

/// The number that a byte string spells, first byte most significant.
pub open spec fn bytes_value(b: Seq<u8>) -> nat
    decreases b.len(),
{
    if b.len() == 0 {
        0
    } else {
        bytes_value(b.drop_last()) * 256 + b.last() as nat
    }
}

/// The `len` base-32 digits of `value`, most significant first, as symbols.
pub open spec fn symbols_of(value: nat, len: nat) -> Seq<char> {
    Seq::new(len, |i: int| symbol_of((value / pow2((5 * (len - 1 - i)) as nat)) % 32))
}

/// The number of symbols that hold `n` bytes.
pub open spec fn encoded_len(n: nat) -> nat {
    (8 * n + 4) / 5
}

/// Unpadded base32 encoding: the bits of `b`, followed by zero bits up to a
/// whole number of symbols.
pub open spec fn base32_encoded(b: Seq<u8>) -> Seq<char> {
    let len = encoded_len(b.len());
    symbols_of(bytes_value(b) * pow2((5 * len - 8 * b.len()) as nat), len)
}

proof fn lemma_symbols_of_value(value: nat, len: nat)
    ensures
        all_symbols(symbols_of(value, len)),
        symbols_value(symbols_of(value, len)) == value % pow2(5 * len),
    decreases len,
{
    let s = symbols_of(value, len);
    lemma_pow2_pos(5 * len);
    assert forall|i: int| 0 <= i < s.len() implies is_symbol(#[trigger] s[i]) by {
        lemma_pow2_pos((5 * (len - 1 - i)) as nat);
        lemma_symbol_of((value / pow2((5 * (len - 1 - i)) as nat)) % 32);
    }
    if len == 0 {
        lemma2_to64();
    } else {
        let m = (len - 1) as nat;
        lemma2_to64();
        lemma_symbols_of_value(value / 32, m);
        assert forall|i: int| 0 <= i < m implies #[trigger] s.drop_last()[i] == symbols_of(
            value / 32,
            m,
        )[i] by {
            let e = (5 * (m - 1 - i)) as nat;
            assert((5 * (len - 1 - i)) as nat == 5 + e);
            lemma_pow2_adds(5, e);
            lemma_pow2_pos(e);
            lemma_div_denominator(value as int, 32, pow2(e) as int);
        }
        assert(s.drop_last() =~= symbols_of(value / 32, m));
        assert(s.last() == symbol_of(value % 32)) by {
            assert((5 * (len - 1 - (len - 1))) as nat == 0);
        }
        lemma_symbol_of(value % 32);
        lemma_pow2_adds(5, 5 * m);
        assert(5 * len == 5 + 5 * m);
        lemma_mod_breakdown(value as int, 32, pow2(5 * m) as int);
    }
}

proof fn lemma_bytes_value_byte(b: Seq<u8>, k: int)
    requires
        0 <= k < b.len(),
    ensures
        (bytes_value(b) / pow2((8 * (b.len() - 1 - k)) as nat)) % 256 == b[k],
        bytes_value(b) < pow2(8 * b.len()),
    decreases b.len(),
{
    lemma2_to64();
    let n = b.len();
    let rest = b.drop_last();
    let x = bytes_value(b) as int;
    let r = bytes_value(rest) as int;
    if n > 1 {
        if k < n - 1 {
            lemma_bytes_value_byte(rest, k);
        } else {
            lemma_bytes_value_byte(rest, 0);
        }
    }
    let bound_r: int = if n == 1 {
        1
    } else {
        pow2(8 * (n - 1) as nat) as int
    };
    assert(r < bound_r);
    lemma_pow2_adds(8 * (n - 1) as nat, 8);
    assert(8 * n == 8 * (n - 1) as nat + 8);
    assert(x < pow2(8 * n)) by (nonlinear_arith)
        requires
            x == r * 256 + b.last(),
            0 <= r < bound_r,
            bound_r == pow2(8 * (n - 1) as nat),
            pow2(8 * n) == bound_r * 256,
            b.last() < 256,
    ;
    lemma_fundamental_div_mod_converse(x, 256, r, b.last() as int);
    if k == n - 1 {
        assert((8 * (b.len() - 1 - k)) as nat == 0);
    } else {
        let e = (8 * (n - 2 - k)) as nat;
        assert((8 * (b.len() - 1 - k)) as nat == 8 + e);
        lemma_pow2_adds(8, e);
        lemma_pow2_pos(e);
        lemma_div_denominator(x, 256, pow2(e) as int);
        assert(rest[k] == b[k]);
        assert((8 * (rest.len() - 1 - k)) as nat == e);
    }
}

/// Decoding undoes encoding: every byte string comes back from its unpadded
/// base32 encoding.
pub proof fn lemma_decode_encoded(b: Seq<u8>)
    ensures
        base32_decoded(base32_encoded(b)) == Some(b),
{
    let n = b.len();
    let len = encoded_len(n);
    let p = (5 * len - 8 * n) as nat;
    assert(8 * n <= 5 * len <= 8 * n + 4);
    let value = bytes_value(b) * pow2(p);
    let enc = base32_encoded(b);
    lemma_symbols_of_value(value, len);
    lemma_strip_padding_of_symbols(enc);
    lemma_pow2_pos(p);
    lemma_pow2_adds(8 * n, p);
    assert(5 * len == 8 * n + p);
    if n > 0 {
        lemma_bytes_value_byte(b, 0);
    } else {
        lemma2_to64();
    }
    assert(value < pow2(5 * len)) by (nonlinear_arith)
        requires
            bytes_value(b) < pow2(8 * n),
            value == bytes_value(b) * pow2(p),
            pow2(5 * len) == pow2(8 * n) * pow2(p),
            pow2(p) > 0,
    ;
    lemma_small_mod(value, pow2(5 * len));
    assert(len * 5 / 8 == n);
    let dec = decode_symbols(enc);
    assert forall|k: int| 0 <= k < n implies #[trigger] dec[k] == b[k] by {
        let e = (8 * (n - 1 - k)) as nat;
        assert((5 * len - 8 * k - 8) as nat == p + e);
        lemma_pow2_adds(p, e);
        lemma_pow2_pos(e);
        lemma_div_denominator(value as int, pow2(p) as int, pow2(e) as int);
        lemma_fundamental_div_mod_converse(value as int, pow2(p) as int, bytes_value(b) as int, 0);
        lemma_bytes_value_byte(b, k);
    }
    assert(dec =~= b);
}

} // verus!
