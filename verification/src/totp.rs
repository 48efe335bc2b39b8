//! Time-based one-time-password validation: an independent, stateless
//! cryptographic check.  The secret is decoded from base32, the counter
//! derived from the clock is MAC'd with HMAC-SHA1, and the tag is
//! dynamically truncated to six decimal digits.

use vstd::prelude::*;
use vstd::string::StringSliceAdditionalSpecFns;
use vstd::string::StringExecFns;
use hmac::Mac;
use crate::bytes::bytes_eq;

verus! {

/// What `str::to_uppercase` returns: a function of the characters alone.
pub uninterp spec fn upper_of(s: Seq<char>) -> Seq<char>;

/// Relies on `str::to_uppercase`: the result depends on the input
/// characters alone.
#[verifier::external_body]
fn to_upper(s: &str) -> (r: String)
    ensures
        r@ == upper_of(s@),
{
    s.to_uppercase()
}

/// What `base32::decode` with the RFC 4648 alphabet, no padding,
/// returns: a function of the input string alone; `None` when the
/// input is not valid base32.
pub uninterp spec fn base32_of(s: Seq<char>) -> Option<Seq<u8>>;

/// Relies on `base32::decode` with `Alphabet::Rfc4648 { padding: false }`:
/// a total function of its input that never panics.
#[verifier::external_body]
fn base32_decode(s: &str) -> (r: Option<Vec<u8>>)
    ensures
        r is Some <==> base32_of(s@) is Some,
        r matches Some(v) ==> base32_of(s@) == Some(v@),
{
    base32::decode(base32::Alphabet::Rfc4648 { padding: false }, s)
}

/// What HMAC-SHA1 of a key and a message is.
pub uninterp spec fn hmac_sha1_of(key: Seq<u8>, msg: Seq<u8>) -> Seq<u8>;

/// Relies on `hmac::Hmac::<sha1::Sha1>`: the tag is a function of key
/// and message alone, 20 bytes long (SHA-1's output size).  HMAC
/// accepts keys of any length, so `new_from_slice` cannot fail and the
/// unwrap cannot panic.
#[verifier::external_body]
fn hmac_sha1(key: &[u8], msg: &[u8]) -> (r: Vec<u8>)
    ensures
        r@ == hmac_sha1_of(key@, msg@),
        r@.len() == 20,
{
    let mut mac = hmac::Hmac::<sha1::Sha1>::new_from_slice(key).unwrap();
    mac.update(msg);
    mac.finalize().into_bytes().to_vec()
}

/// Relies on `std::time::SystemTime::now` (with `duration_since` and
/// `Duration::as_secs`): seconds since the Unix epoch, or zero if the
/// clock reads before the epoch.  Nothing is promised of the value: it
/// depends on the wall clock.
#[verifier::external_body]
fn unix_time_secs() -> u64 {
    match std::time::SystemTime::now().duration_since(std::time::UNIX_EPOCH) {
        Ok(d) => d.as_secs(),
        Err(_) => 0,
    }
}

/// The big-endian base-256 rendering of the low `digits` bytes of `x`.
pub open spec fn spec_base256(x: u64, digits: nat) -> Seq<u8>
    decreases digits,
{
    if digits == 0 {
        Seq::empty()
    } else {
        spec_base256((x / 256) as u64, (digits - 1) as nat).push((x % 256) as u8)
    }
}

/// The eight big-endian bytes of a counter.
pub fn counter_bytes(x: u64) -> (r: Vec<u8>)
    ensures
        r@ == spec_base256(x, 8),
{
    let mut tmp: Vec<u8> = Vec::new();
    let mut y = x;
    let mut i: usize = 0;
    while i < 8
        invariant
            i <= 8,
            tmp@.len() == i,
            spec_base256(x, 8) == spec_base256(y, (8 - i) as nat) + tmp@.reverse(),
        decreases 8 - i,
    {
        proof {
            assert(spec_base256(y, (8 - i) as nat) == spec_base256(
                (y / 256) as u64,
                (8 - i - 1) as nat,
            ).push((y % 256) as u8));
            assert(tmp@.push((y % 256) as u8).reverse() == seq![(y % 256) as u8] + tmp@.reverse());
            assert(spec_base256((y / 256) as u64, (8 - i - 1) as nat).push((y % 256) as u8)
                + tmp@.reverse() == spec_base256((y / 256) as u64, (8 - i - 1) as nat) + (seq![
                (y % 256) as u8,
            ] + tmp@.reverse()));
        }
        tmp.push((y % 256) as u8);
        y = y / 256;
        i = i + 1;
    }
    let mut r: Vec<u8> = Vec::new();
    let mut j: usize = 0;
    while j < 8
        invariant
            j <= 8,
            tmp@.len() == 8,
            r@ == tmp@.reverse().take(j as int),
            spec_base256(x, 8) == tmp@.reverse(),
        decreases 8 - j,
    {
        proof {
            assert(tmp@.reverse()[j as int] == tmp@[8 - 1 - j]);
            assert(tmp@.reverse().take(j + 1) == tmp@.reverse().take(j as int).push(
                tmp@.reverse()[j as int],
            ));
        }
        r.push(tmp[8 - 1 - j]);
        j = j + 1;
    }
    proof {
        assert(tmp@.reverse().take(8) == tmp@.reverse());
    }
    r
}

/// Dynamic truncation of a 20-byte tag: the low nibble of the last byte
/// picks an offset, and the four bytes there, with the top bit cleared,
/// form a 31-bit number.
pub open spec fn spec_hotp(digest: Seq<u8>) -> int
    recommends
        digest.len() == 20,
{
    let offset = (digest[19] & 0x0f) as int;
    ((digest[offset] & 0x7f) as int) * 0x1000000 + (digest[offset + 1] as int) * 0x10000 + (
    digest[offset + 2] as int) * 0x100 + (digest[offset + 3] as int)
}

/// Computes the dynamic truncation of a tag.
pub fn hotp_code(digest: &Vec<u8>) -> (r: u32)
    requires
        digest@.len() == 20,
    ensures
        r == spec_hotp(digest@),
        r < 0x80000000,
{
    let last = digest[19];
    proof {
        assert((last & 0x0f) <= 0x0f) by (bit_vector);
    }
    let offset = (last & 0x0f) as usize;
    let picked = digest[offset];
    proof {
        assert((picked & 0x7f) <= 0x7f) by (bit_vector);
    }
    let b0 = (picked & 0x7f) as u32;
    let b1 = digest[offset + 1] as u32;
    let b2 = digest[offset + 2] as u32;
    let b3 = digest[offset + 3] as u32;
    b0 * 0x1000000 + b1 * 0x10000 + b2 * 0x100 + b3
}

/// The six zero-padded decimal digits of `n` modulo one million.
pub open spec fn spec_dec_fixed(x: int, digits: nat) -> Seq<u8>
    decreases digits,
{
    if digits == 0 {
        Seq::empty()
    } else {
        spec_dec_fixed(x / 10, (digits - 1) as nat).push((0x30 + (x % 10)) as u8)
    }
}

/// The one-time password a tag denotes: six decimal digits.
pub open spec fn spec_code6(code: int) -> Seq<u8> {
    spec_dec_fixed(code % 1000000, 6)
}

/// Renders a truncated tag as six zero-padded decimal digits.
pub fn code_digits(code: u32) -> (r: Vec<u8>)
    ensures
        r@ == spec_code6(code as int),
{
    let reduced = code % 1000000;
    let mut tmp: Vec<u8> = Vec::new();
    let mut y = reduced;
    let mut i: usize = 0;
    while i < 6
        invariant
            i <= 6,
            tmp@.len() == i,
            spec_dec_fixed(reduced as int, 6) == spec_dec_fixed(y as int, (6 - i) as nat)
                + tmp@.reverse(),
        decreases 6 - i,
    {
        let d: u8 = 0x30 + (y % 10) as u8;
        proof {
            assert(spec_dec_fixed(y as int, (6 - i) as nat) == spec_dec_fixed(
                y as int / 10,
                (6 - i - 1) as nat,
            ).push(d));
            assert(tmp@.push(d).reverse() == seq![d] + tmp@.reverse());
            assert(spec_dec_fixed(y as int / 10, (6 - i - 1) as nat).push(d) + tmp@.reverse()
                == spec_dec_fixed(y as int / 10, (6 - i - 1) as nat) + (seq![d] + tmp@.reverse()));
        }
        tmp.push(d);
        y = y / 10;
        i = i + 1;
    }
    let mut r: Vec<u8> = Vec::new();
    let mut j: usize = 0;
    while j < 6
        invariant
            j <= 6,
            tmp@.len() == 6,
            r@ == tmp@.reverse().take(j as int),
            spec_dec_fixed(reduced as int, 6) == tmp@.reverse(),
        decreases 6 - j,
    {
        proof {
            assert(tmp@.reverse()[j as int] == tmp@[6 - 1 - j]);
            assert(tmp@.reverse().take(j + 1) == tmp@.reverse().take(j as int).push(
                tmp@.reverse()[j as int],
            ));
        }
        r.push(tmp[6 - 1 - j]);
        j = j + 1;
    }
    proof {
        assert(tmp@.reverse().take(6) == tmp@.reverse());
        assert(spec_code6(code as int) == spec_dec_fixed(reduced as int, 6));
    }
    r
}

/// The one-time password for a secret and a counter: `None` when the
/// secret is not valid base32 after case folding.
pub open spec fn spec_totp(secret: Seq<char>, counter: u64) -> Option<Seq<u8>> {
    match base32_of(upper_of(secret)) {
        Some(key) => Some(spec_code6(spec_hotp(hmac_sha1_of(key, spec_base256(counter, 8))))),
        None => None,
    }
}

/// Generates the six-digit one-time password for one counter value.
pub fn generate_totp(secret: &str, counter: u64) -> (r: Result<Vec<u8>, String>)
    ensures
        match r {
            Ok(digits) => spec_totp(secret@, counter) == Some(digits@),
            Err(e) => spec_totp(secret@, counter) is None && e@ == "Invalid Base32 Error"@,
        },
{
    let upper = to_upper(secret);
    match base32_decode(upper.as_str()) {
        None => Err(String::from_str("Invalid Base32 Error")),
        Some(key) => {
            let msg = counter_bytes(counter);
            let digest = hmac_sha1(key.as_slice(), msg.as_slice());
            let code = hotp_code(&digest);
            Ok(code_digits(code))
        },
    }
}

/// Validates a one-time password at a known time: the password is
/// accepted exactly when it equals the code of the current time step or
/// of the one before it.  The secret must decode from base32, else the
/// decode error is returned; a wrong password gives `Invalid OTP`.
pub fn validate_totp_at(secret: &str, otp: &str, time_step: u64, now_secs: u64) -> (r: Result<
    (),
    String,
>)
    requires
        time_step >= 1,
    ensures
        base32_of(upper_of(secret@)) is None ==> (r matches Err(e) && e@
            == "Invalid Base32 Error"@),
        base32_of(upper_of(secret@)) is Some ==> {
            let q = now_secs / time_step;
            &&& (r is Ok <==> (Some(otp.spec_bytes()) == spec_totp(secret@, q) || (q >= 1 && Some(
                otp.spec_bytes(),
            ) == spec_totp(secret@, (q - 1) as u64))))
            &&& (r matches Err(e) ==> e@ == "Invalid OTP"@)
        },
{
    let q = now_secs / time_step;
    match generate_totp(secret, q) {
        Err(e) => Err(e),
        Ok(digits) => {
            if bytes_eq(otp.as_bytes(), digits.as_slice()) {
                Ok(())
            } else if q >= 1 {
                match generate_totp(secret, q - 1) {
                    Err(e) => Err(e),
                    Ok(previous) => {
                        if bytes_eq(otp.as_bytes(), previous.as_slice()) {
                            Ok(())
                        } else {
                            Err(String::from_str("Invalid OTP"))
                        }
                    },
                }
            } else {
                Err(String::from_str("Invalid OTP"))
            }
        },
    }
}

/// Validates a one-time password against the wall clock: accepted
/// exactly when it matches the current or the previous time step.  The
/// accepted codes depend on the clock; whatever the clock read, an
/// accepted password is the code of some counter for this secret.
pub fn validate_totp(secret: &str, otp: &str, time_step: u64) -> (r: Result<(), String>)
    requires
        time_step >= 1,
    ensures
        base32_of(upper_of(secret@)) is None <==> (r matches Err(e) && e@
            == "Invalid Base32 Error"@),
        r is Ok ==> exists|c: u64| Some(otp.spec_bytes()) == spec_totp(secret@, c),
        base32_of(upper_of(secret@)) is Some && r is Err ==> (r matches Err(e) && e@
            == "Invalid OTP"@),
{
    let now = unix_time_secs();
    let r = validate_totp_at(secret, otp, time_step, now);
    proof {
        if base32_of(upper_of(secret@)) is Some {
            let q = now / time_step;
            if r is Ok {
                if Some(otp.spec_bytes()) == spec_totp(secret@, q) {
                    assert(Some(otp.spec_bytes()) == spec_totp(secret@, q));
                } else {
                    assert(Some(otp.spec_bytes()) == spec_totp(secret@, (q - 1) as u64));
                }
            }
        }
        reveal_strlit("Invalid OTP");
        reveal_strlit("Invalid Base32 Error");
        assert("Invalid OTP"@.len() == 11);
        assert("Invalid Base32 Error"@.len() == 20);
    }
    r
}

} // verus!
