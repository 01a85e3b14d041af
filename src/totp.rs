//! Time-based one-time passwords (RFC 6238) over HMAC-SHA1.
use vstd::prelude::*;
use vstd::arithmetic::power2::{pow2, lemma2_to64, lemma_pow2_adds, lemma_pow2_pos};
use vstd::arithmetic::div_mod::lemma_div_denominator;
use vstd::bits::lemma_u64_shr_is_div;
use crate::hmac::{hmac_sha1, hmac_sha1_digest};

verus! {

/// The system clock could not be read as a time after the Unix epoch.
#[derive(Debug, Clone, Copy, PartialEq, Eq, Structural)]
pub struct ClockError;

/// Seconds per code window.
pub const TIME_STEP: u64 = 30;

/// Decimal digits per code.
pub const DIGITS: usize = 6;

/// The 8-byte big-endian encoding of a counter.
pub open spec fn counter_bytes(counter: u64) -> Seq<u8> {
    Seq::new(8, |i: int| ((counter as nat / pow2((8 * (7 - i)) as nat)) % 256) as u8)
}

/// Dynamic truncation (RFC 4226, 5.3): the low nibble of byte 19 picks four
/// bytes, read big-endian with the top bit cleared.
pub open spec fn dynamic_truncation(digest: Seq<u8>) -> nat {
    let offset = (digest[19] & 0x0f) as int;
    ((digest[offset] & 0x7f) as nat) * 0x100_0000 + (digest[offset + 1] as nat) * 0x1_0000 + (
    digest[offset + 2] as nat) * 0x100 + (digest[offset + 3] as nat)
}

pub open spec fn pow10(n: nat) -> nat
    decreases n,
{
    if n == 0 {
        1
    } else {
        10 * pow10((n - 1) as nat)
    }
}

pub open spec fn digit_char(d: nat) -> char {
    seq!['0', '1', '2', '3', '4', '5', '6', '7', '8', '9'][d as int]
}

/// `n` written in decimal with exactly `width` digits: the digits of
/// `n mod 10^width`, with leading zeros.
pub open spec fn zero_padded(n: nat, width: nat) -> Seq<char> {
    Seq::new(width, |i: int| digit_char((n / pow10((width - 1 - i) as nat)) % 10))
}

/// The code for a key at a time: the HMAC-SHA1 of the step counter,
/// truncated, reduced modulo `10^digits` and written with `digits` digits.
pub open spec fn totp_code(key: Seq<u8>, time_step: u64, digits: nat, unix_time: u64) -> Seq<
    char,
> {
    let counter = (unix_time / time_step) as u64;
    let code = dynamic_truncation(hmac_sha1(key, counter_bytes(counter)));
    zero_padded(code % pow10(digits), digits)
}

/// Seconds left in the window that holds `unix_time`.
pub open spec fn remaining_in_step(time_step: u64, unix_time: u64) -> nat {
    (time_step - unix_time % time_step) as nat
}

proof fn lemma_pow10_bounds(n: nat)
    requires
        n <= 9,
    ensures
        1 <= pow10(n) <= 1_000_000_000,
{
    assert(pow10(0) == 1);
    assert(pow10(1) == 10);
    assert(pow10(2) == 100);
    assert(pow10(3) == 1000);
    assert(pow10(4) == 10_000);
    assert(pow10(5) == 100_000);
    assert(pow10(6) == 1_000_000);
    assert(pow10(7) == 10_000_000);
    assert(pow10(8) == 100_000_000);
    assert(pow10(9) == 1_000_000_000);
}

fn encode_counter(counter: u64) -> (r: [u8; 8])
    ensures
        r@ == counter_bytes(counter),
{
    let mut out = [0u8; 8];
    for i in 0..8
        invariant
            out@.len() == 8,
            forall|j: int| 0 <= j < i ==> out@[j] == counter_bytes(counter)[j],
    {
        let shift: u64 = 56 - 8 * (i as u64);
        let shifted = counter >> shift;
        let byte = (shifted & 0xff) as u8;
        proof {
            lemma_u64_shr_is_div(counter, shift);
            assert(shifted & 0xff == shifted % 256) by (bit_vector);
        }
        out[i] = byte;
    }
    assert(out@ =~= counter_bytes(counter));
    out
}

fn truncate(digest: &[u8; 20]) -> (r: u32)
    ensures
        r == dynamic_truncation(digest@),
{
    let last = digest[19];
    assert(last & 0x0f < 16) by (bit_vector);
    let offset = (last & 0x0f) as usize;
    let a = digest[offset];
    let b = digest[offset + 1];
    let c = digest[offset + 2];
    let d = digest[offset + 3];
    let code = ((a & 0x7f) as u32) << 24 | (b as u32) << 16 | (c as u32) << 8 | (d as u32);
    assert(code == ((a & 0x7f) as u32) * 0x100_0000 + (b as u32) * 0x1_0000 + (c as u32) * 0x100
        + (d as u32)) by (bit_vector)
        requires
            code == ((a & 0x7f) as u32) << 24 | (b as u32) << 16 | (c as u32) << 8 | (d as u32),
    ;
    code
}

/// Writes `n` with exactly `width` decimal digits.
fn format_padded(n: u32, width: usize) -> (r: String)
    requires
        1 <= width <= 9,
    ensures
        r@ == zero_padded(n as nat, width as nat),
{
    let digits = "0123456789";
    proof {
        reveal_strlit("0123456789");
        lemma_pow10_bounds(width as nat);
    }
    let mut divisor: u32 = 1;
    for k in 1..width
        invariant
            width <= 9,
            divisor == pow10((k - 1) as nat),
    {
        proof {
            lemma_pow10_bounds(k as nat);
        }
        divisor = divisor * 10;
    }
    let mut out = String::new();
    for i in 0..width
        invariant
            width <= 9,
            digits@ == "0123456789"@,
            i < width ==> divisor == pow10((width - 1 - i) as nat),
            divisor >= 1,
            out@ =~= zero_padded(n as nat, width as nat).take(i as int),
    {
        proof {
            reveal_strlit("0123456789");
        }
        let d = ((n / divisor) % 10) as usize;
        assert(digits@.len() == 10 && d < 10);
        let piece = digits.substring_char(d, d + 1);
        proof {
            assert(piece@ =~= seq![digit_char(d as nat)]);
        }
        out.append(piece);
        proof {
            assert(zero_padded(n as nat, width as nat).take(i + 1) =~= zero_padded(
                n as nat,
                width as nat,
            ).take(i as int).push(digit_char(d as nat)));
        }
        if i + 1 < width {
            proof {
                lemma_pow10_bounds((width - 1 - i) as nat);
                assert(pow10((width - 1 - i) as nat) == 10 * pow10((width - 2 - i) as nat));
            }
            divisor = divisor / 10;
        }
    }
    assert(zero_padded(n as nat, width as nat).take(width as int) =~= zero_padded(
        n as nat,
        width as nat,
    ));
    out
}

/// Marks `std::time::SystemTime` as a value Verus carries without looking
/// inside.
#[verifier::external_type_specification]
#[verifier::external_body]
pub struct ExSystemTime(std::time::SystemTime);

/// Marks `std::time::SystemTimeError` as a value Verus carries without looking
/// inside.
#[verifier::external_type_specification]
#[verifier::external_body]
pub struct ExSystemTimeError(std::time::SystemTimeError);

/// Relies on `SystemTime::now`: the current reading of the system clock, of
/// which nothing can be promised.
pub assume_specification[ std::time::SystemTime::now ]() -> std::time::SystemTime;

/// Relies on `SystemTime::duration_since`: the time elapsed since `earlier`,
/// or an error where `earlier` is later than the clock reading.
pub assume_specification[ std::time::SystemTime::duration_since ](
    this: &std::time::SystemTime,
    earlier: std::time::SystemTime,
) -> Result<core::time::Duration, std::time::SystemTimeError>;

/// Relies on `Duration::as_secs`: the whole seconds of a duration.
pub assume_specification[ core::time::Duration::as_secs ](d: &core::time::Duration) -> u64;

/// Relies on `std::time::UNIX_EPOCH`: the instant that Unix time counts from.
#[verifier::external_body]
fn unix_epoch() -> std::time::SystemTime {
    std::time::UNIX_EPOCH
}

/// Whole seconds since the Unix epoch by the system clock, or `ClockError`
/// where the clock reads earlier than the epoch.
fn unix_time_now() -> Result<u64, ClockError> {
    let now = std::time::SystemTime::now();
    match now.duration_since(unix_epoch()) {
        Ok(elapsed) => Ok(elapsed.as_secs()),
        Err(_) => Err(ClockError),
    }
}

fn ten_to(n: usize) -> (r: u32)
    requires
        n <= 9,
    ensures
        r == pow10(n as nat),
        r >= 1,
{
    proof {
        lemma_pow10_bounds(n as nat);
    }
    let mut r: u32 = 1;
    for k in 0..n
        invariant
            n <= 9,
            r == pow10(k as nat),
    {
        proof {
            lemma_pow10_bounds((k + 1) as nat);
        }
        r = r * 10;
    }
    r
}

/// A code generator for one shared secret: HMAC-SHA1, windows of
/// `TIME_STEP` seconds, codes of `DIGITS` digits.
#[derive(Debug)]
pub struct Totp {
    secret: Vec<u8>,
    time_step: u64,
    digits: usize,
}

impl Totp {
    #[verifier::type_invariant]
    spec fn well_formed(&self) -> bool {
        self.time_step == TIME_STEP && self.digits == DIGITS
    }

    /// The secret key bytes.
    pub closed spec fn key(&self) -> Seq<u8> {
        self.secret@
    }

    /// The code of this generator at `unix_time`.
    pub open spec fn code_at(&self, unix_time: u64) -> Seq<char> {
        totp_code(self.key(), TIME_STEP, DIGITS as nat, unix_time)
    }

    pub fn new(secret: Vec<u8>) -> (r: Self)
        ensures
            r.key() == secret@,
    {
        Totp { secret, time_step: TIME_STEP, digits: DIGITS }
    }

    /// The code at an explicit Unix time; it never fails.
    pub fn generate_at_time(&self, unix_time: u64) -> (r: Result<String, ClockError>)
        ensures
            r matches Ok(code) && code@ == self.code_at(unix_time),
    {
        proof {
            use_type_invariant(self);
        }
        let counter = unix_time / self.time_step;
        let message = encode_counter(counter);
        let digest = hmac_sha1_digest(self.secret.as_slice(), &message);
        let code = truncate(&digest);
        let otp = code % ten_to(self.digits);
        Ok(format_padded(otp, self.digits))
    }

    /// The code now, by the system clock; fails only where the clock reads
    /// before the Unix epoch.
    pub fn generate(&self) -> (r: Result<String, ClockError>)
        ensures
            match r {
                Ok(code) => exists|t: u64| code@ == self.code_at(t),
                Err(e) => e == ClockError,
            },
    {
        match unix_time_now() {
            Ok(now) => self.generate_at_time(now),
            Err(e) => Err(e),
        }
    }

    /// Seconds left in the window that holds `unix_time`: from 1 to the
    /// window length, never 0.
    pub fn time_remaining_at(&self, unix_time: u64) -> (r: u64)
        ensures
            r == remaining_in_step(TIME_STEP, unix_time),
            1 <= r <= TIME_STEP,
    {
        proof {
            use_type_invariant(self);
        }
        self.time_step - unix_time % self.time_step
    }

    /// Seconds left in the current window by the system clock, from 1 to the
    /// window length; a clock that reads before the Unix epoch counts as the
    /// epoch itself.
    pub fn time_remaining(&self) -> (r: u64)
        ensures
            1 <= r <= TIME_STEP,
            exists|t: u64| r == remaining_in_step(TIME_STEP, t),
    {
        let now = match unix_time_now() {
            Ok(now) => now,
            Err(_) => 0,
        };
        self.time_remaining_at(now)
    }
}

/// A code depends on the key and the time alone: two generators with the
/// same key give the same code at the same time, however often they are
/// asked.
pub proof fn lemma_code_determined_by_key_and_time(a: Totp, b: Totp, unix_time: u64)
    requires
        a.key() == b.key(),
    ensures
        a.code_at(unix_time) == b.code_at(unix_time),
{
}

} // verus!
