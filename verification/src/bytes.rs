//! Byte-string helpers shared by the wire codec, the span manager and the
//! log serializer: lowercase hexadecimal rendering and parsing of
//! identifiers, decimal rendering of numbers, and small comparison and
//! concatenation utilities over `Vec<u8>`.

use vstd::prelude::*;
use vstd::arithmetic::power2::pow2;

verus! {

/// The number that 128 bits can not quite reach, as a literal.
pub proof fn lemma_pow2_128()
    ensures
        pow2(128) == 0x100000000000000000000000000000000,
        pow2(4) == 16,
{
    vstd::arithmetic::power2::lemma_pow2_adds(64, 64);
    vstd::arithmetic::power2::lemma2_to64();
}

/// An ASCII hexadecimal digit in lower case for a value below sixteen.
pub open spec fn spec_hex_digit(n: u8) -> u8
    recommends
        n < 16,
{
    if n < 10 {
        (0x30 + n) as u8
    } else {
        (0x57 + n) as u8
    }
}

/// The value of an ASCII hexadecimal digit, accepting both cases.
pub open spec fn spec_hex_value(b: u8) -> u8 {
    if 0x30 <= b <= 0x39 {
        (b - 0x30) as u8
    } else if 0x61 <= b <= 0x66 {
        (b - 0x57) as u8
    } else {
        (b - 0x37) as u8
    }
}

/// Whether a byte is an ASCII hexadecimal digit (either case).
pub open spec fn is_hex_digit(b: u8) -> bool {
    (0x30 <= b <= 0x39) || (0x61 <= b <= 0x66) || (0x41 <= b <= 0x46)
}

/// Reading back a freshly written digit gives the nibble it encodes.
pub proof fn lemma_hex_digit_value(n: u8)
    requires
        n < 16,
    ensures
        is_hex_digit(spec_hex_digit(n)),
        spec_hex_value(spec_hex_digit(n)) == n,
{
}

/// The lowercase hexadecimal rendering of the low `digits` nibbles of `x`,
/// most significant nibble first.
pub open spec fn spec_to_hex(x: u128, digits: nat) -> Seq<u8>
    decreases digits,
{
    if digits == 0 {
        Seq::empty()
    } else {
        spec_to_hex((x / 16) as u128, (digits - 1) as nat).push(spec_hex_digit((x % 16) as u8))
    }
}

/// Whether every byte of `s` is a hexadecimal digit.
pub open spec fn all_hex(s: Seq<u8>) -> bool {
    forall|i: int| 0 <= i < s.len() ==> is_hex_digit(#[trigger] s[i])
}

/// The number a big-endian string of hexadecimal digits denotes.
pub open spec fn spec_hex_num(s: Seq<u8>) -> int
    decreases s.len(),
{
    if s.len() == 0 {
        0
    } else {
        spec_hex_num(s.drop_last()) * 16 + spec_hex_value(s.last())
    }
}

pub proof fn lemma_to_hex_len(x: u128, digits: nat)
    ensures
        spec_to_hex(x, digits).len() == digits,
        all_hex(spec_to_hex(x, digits)),
    decreases digits,
{
    if digits > 0 {
        lemma_to_hex_len((x / 16) as u128, (digits - 1) as nat);
        lemma_hex_digit_value((x % 16) as u8);
    }
}

/// Hexadecimal rendering loses nothing: parsing it back yields the number.
pub proof fn lemma_hex_round_trip(x: u128, digits: nat)
    requires
        x < pow2(4 * digits),
    ensures
        spec_hex_num(spec_to_hex(x, digits)) == x,
    decreases digits,
{
    if digits == 0 {
        vstd::arithmetic::power2::lemma2_to64();
    } else {
        let rest = (x / 16) as u128;
        let low = (x % 16) as u8;
        let smaller = pow2(4 * (digits - 1) as nat);
        vstd::arithmetic::power2::lemma_pow2_adds(4 * (digits - 1) as nat, 4);
        lemma_pow2_128();
        assert(pow2(4 * digits) == smaller * 16);
        vstd::arithmetic::power2::lemma_pow2_pos(4 * (digits - 1) as nat);
        assert(rest < smaller) by (nonlinear_arith)
            requires
                x < smaller * 16,
                smaller > 0,
                rest == x / 16,
        ;
        lemma_hex_round_trip(rest, (digits - 1) as nat);
        lemma_hex_digit_value(low);
        let s = spec_to_hex(x, digits);
        assert(s.drop_last() == spec_to_hex(rest, (digits - 1) as nat));
        assert(spec_hex_num(s) == (x / 16) * 16 + (x % 16));
        assert((x / 16) * 16 + (x % 16) == x) by (nonlinear_arith);
    }
}

/// A parsed string of hexadecimal digits is bounded by `16^len`.
pub proof fn lemma_hex_num_bound(s: Seq<u8>)
    requires
        all_hex(s),
    ensures
        0 <= spec_hex_num(s) < pow2(4 * s.len()),
    decreases s.len(),
{
    if s.len() == 0 {
        vstd::arithmetic::power2::lemma2_to64();
    } else {
        let prefix = s.drop_last();
        assert(all_hex(prefix));
        lemma_hex_num_bound(prefix);
        vstd::arithmetic::power2::lemma_pow2_adds(4 * prefix.len(), 4);
        lemma_pow2_128();
        assert(pow2(4 * s.len()) == 16 * pow2(4 * prefix.len()));
        assert(spec_hex_value(s.last()) < 16);
        assert(spec_hex_num(prefix) * 16 + 16 <= 16 * pow2(4 * prefix.len())) by (nonlinear_arith)
            requires
                spec_hex_num(prefix) < pow2(4 * prefix.len()),
        ;
    }
}

/// Lowercase hexadecimal digit for a nibble.
pub fn hex_digit(n: u8) -> (r: u8)
    requires
        n < 16,
    ensures
        r == spec_hex_digit(n),
{
    if n < 10 {
        0x30 + n
    } else {
        0x57 + n
    }
}

/// Whether a byte is a hexadecimal digit, either case.
pub fn is_hex(b: u8) -> (r: bool)
    ensures
        r == is_hex_digit(b),
{
    (0x30 <= b && b <= 0x39) || (0x61 <= b && b <= 0x66) || (0x41 <= b && b <= 0x46)
}

/// The nibble a hexadecimal digit denotes.
pub fn hex_value(b: u8) -> (r: u8)
    requires
        is_hex_digit(b),
    ensures
        r == spec_hex_value(b),
{
    if 0x30 <= b && b <= 0x39 {
        b - 0x30
    } else if 0x61 <= b && b <= 0x66 {
        b - 0x57
    } else {
        b - 0x37
    }
}

/// Renders the low `digits` nibbles of `x` in lowercase hexadecimal,
/// most significant nibble first.
pub fn to_hex(x: u128, digits: usize) -> (r: Vec<u8>)
    ensures
        r@ == spec_to_hex(x, digits as nat),
{
    let mut tmp: Vec<u8> = Vec::new();
    let mut y = x;
    let mut i: usize = 0;
    while i < digits
        invariant
            i <= digits,
            tmp@.len() == i,
            spec_to_hex(x, digits as nat) == spec_to_hex(y, (digits - i) as nat) + tmp@.reverse(),
        decreases digits - i,
    {
        proof {
            assert(spec_to_hex(y, (digits - i) as nat) == spec_to_hex(
                (y / 16) as u128,
                (digits - i - 1) as nat,
            ).push(spec_hex_digit((y % 16) as u8)));
            assert(tmp@.push(spec_hex_digit((y % 16) as u8)).reverse() == seq![
                spec_hex_digit((y % 16) as u8),
            ] + tmp@.reverse());
            assert(spec_to_hex((y / 16) as u128, (digits - i - 1) as nat).push(
                spec_hex_digit((y % 16) as u8),
            ) + tmp@.reverse() == spec_to_hex((y / 16) as u128, (digits - i - 1) as nat) + (seq![
                spec_hex_digit((y % 16) as u8),
            ] + tmp@.reverse()));
        }
        tmp.push(hex_digit((y % 16) as u8));
        y = y / 16;
        i = i + 1;
    }
    let mut r: Vec<u8> = Vec::new();
    let mut j: usize = 0;
    while j < digits
        invariant
            j <= digits,
            tmp@.len() == digits,
            r@ == tmp@.reverse().take(j as int),
            spec_to_hex(x, digits as nat) == tmp@.reverse(),
        decreases digits - j,
    {
        proof {
            assert(tmp@.reverse()[j as int] == tmp@[digits - 1 - j]);
            assert(tmp@.reverse().take(j + 1) == tmp@.reverse().take(j as int).push(
                tmp@.reverse()[j as int],
            ));
        }
        r.push(tmp[digits - 1 - j]);
        j = j + 1;
    }
    proof {
        assert(r@ == tmp@.reverse().take(digits as int));
        assert(tmp@.reverse().take(digits as int) == tmp@.reverse());
    }
    r
}

/// Whether all bytes of `s[start..end]` are hexadecimal digits.
pub fn all_hex_range(s: &[u8], start: usize, end: usize) -> (r: bool)
    requires
        start <= end <= s@.len(),
    ensures
        r == all_hex(s@.subrange(start as int, end as int)),
{
    let mut i = start;
    while i < end
        invariant
            start <= i <= end <= s@.len(),
            forall|j: int| start <= j < i ==> is_hex_digit(#[trigger] s@[j]),
        decreases end - i,
    {
        if !is_hex(s[i]) {
            assert(!all_hex(s@.subrange(start as int, end as int))) by {
                assert(s@.subrange(start as int, end as int)[i - start] == s@[i as int]);
            }
            return false;
        }
        i = i + 1;
    }
    assert forall|j: int| 0 <= j < end - start implies is_hex_digit(
        #[trigger] s@.subrange(start as int, end as int)[j],
    ) by {
        assert(s@.subrange(start as int, end as int)[j] == s@[j + start]);
    }
    true
}

/// Parses `s[start..end]` as a big-endian hexadecimal number.
pub fn hex_num_range(s: &[u8], start: usize, end: usize) -> (r: u128)
    requires
        start <= end <= s@.len(),
        end - start <= 32,
        all_hex(s@.subrange(start as int, end as int)),
    ensures
        r == spec_hex_num(s@.subrange(start as int, end as int)),
{
    proof {
        vstd::arithmetic::power2::lemma2_to64();
    }
    let mut acc: u128 = 0;
    let mut i = start;
    while i < end
        invariant
            start <= i <= end <= s@.len(),
            end - start <= 32,
            all_hex(s@.subrange(start as int, end as int)),
            acc == spec_hex_num(s@.subrange(start as int, i as int)),
            acc < pow2(4 * (i - start) as nat),
        decreases end - i,
    {
        proof {
            assert(s@.subrange(start as int, end as int)[i - start] == s@[i as int]);
            assert(s@.subrange(start as int, i + 1).drop_last() == s@.subrange(
                start as int,
                i as int,
            ));
            assert(s@.subrange(start as int, i + 1).last() == s@[i as int]);
            vstd::arithmetic::power2::lemma_pow2_adds(4 * (i - start) as nat, 4);
            lemma_pow2_128();
            assert(pow2(4 * (i + 1 - start) as nat) == 16 * pow2(4 * (i - start) as nat));
            assert(acc * 16 + 16 <= 16 * pow2(4 * (i - start) as nat)) by (nonlinear_arith)
                requires
                    acc < pow2(4 * (i - start) as nat),
            ;
            if 4 * (i + 1 - start) < 128 {
                vstd::arithmetic::power2::lemma_pow2_strictly_increases(
                    4 * (i + 1 - start) as nat,
                    128,
                );
            }
        }
        acc = acc * 16 + hex_value(s[i]) as u128;
        i = i + 1;
    }
    acc
}

/// The decimal rendering of a natural number, no leading zeros.
pub open spec fn spec_dec(n: nat) -> Seq<u8>
    decreases n,
{
    if n < 10 {
        seq![(0x30 + n) as u8]
    } else {
        spec_dec(n / 10).push((0x30 + n % 10) as u8)
    }
}

/// The decimal rendering of a signed number: a minus sign, then digits.
pub open spec fn spec_dec_i64(v: int) -> Seq<u8> {
    if v >= 0 {
        spec_dec(v as nat)
    } else {
        seq![0x2du8] + spec_dec((-v) as nat)
    }
}

/// Renders `x` in decimal.
pub fn u64_dec(x: u64) -> (r: Vec<u8>)
    ensures
        r@ == spec_dec(x as nat),
{
    let mut tmp: Vec<u8> = Vec::new();
    let mut y = x;
    loop
        invariant_except_break
            tmp@.len() == 0 ==> y == x,
            tmp@.len() > 0 ==> y > 0 && spec_dec(x as nat) == spec_dec(y as nat) + tmp@.reverse(),
        ensures
            spec_dec(x as nat) == tmp@.reverse(),
        decreases y,
    {
        let d: u8 = 0x30 + (y % 10) as u8;
        proof {
            assert(tmp@.push(d).reverse() == seq![d] + tmp@.reverse());
            if y >= 10 {
                assert(spec_dec(y as nat) == spec_dec((y / 10) as nat).push(d));
                assert(spec_dec((y / 10) as nat).push(d) + tmp@.reverse() == spec_dec(
                    (y / 10) as nat,
                ) + (seq![d] + tmp@.reverse()));
            } else {
                assert(spec_dec(y as nat) == seq![d]);
            }
        }
        tmp.push(d);
        let next = y / 10;
        if next == 0 {
            break ;
        }
        y = next;
    }
    let n = tmp.len();
    let mut r: Vec<u8> = Vec::new();
    let mut j: usize = 0;
    while j < n
        invariant
            j <= n,
            tmp@.len() == n,
            r@ == tmp@.reverse().take(j as int),
            spec_dec(x as nat) == tmp@.reverse(),
        decreases n - j,
    {
        proof {
            assert(tmp@.reverse()[j as int] == tmp@[n - 1 - j]);
            assert(tmp@.reverse().take(j + 1) == tmp@.reverse().take(j as int).push(
                tmp@.reverse()[j as int],
            ));
        }
        r.push(tmp[n - 1 - j]);
        j = j + 1;
    }
    proof {
        assert(tmp@.reverse().take(n as int) == tmp@.reverse());
    }
    r
}

/// Renders `v` in decimal with a leading minus sign when negative.
pub fn i64_dec(v: i64) -> (r: Vec<u8>)
    ensures
        r@ == spec_dec_i64(v as int),
{
    if v >= 0 {
        u64_dec(v as u64)
    } else {
        let wide: i128 = -(v as i128);
        let magnitude: u64 = wide as u64;
        let digits = u64_dec(magnitude);
        let mut r: Vec<u8> = Vec::new();
        r.push(0x2d);
        vec_extend(&mut r, digits.as_slice());
        proof {
            assert(r@ == seq![0x2du8] + spec_dec(magnitude as nat));
        }
        r
    }
}

/// Appends all of `src` to `dst`.
pub fn vec_extend(dst: &mut Vec<u8>, src: &[u8])
    ensures
        final(dst)@ == old(dst)@ + src@,
{
    let n = src.len();
    let mut i: usize = 0;
    while i < n
        invariant
            i <= n,
            n == src@.len(),
            dst@ == old(dst)@ + src@.take(i as int),
        decreases n - i,
    {
        proof {
            assert(src@.take(i + 1) == src@.take(i as int).push(src@[i as int]));
            assert(old(dst)@ + src@.take(i + 1) == (old(dst)@ + src@.take(i as int)).push(
                src@[i as int],
            ));
        }
        dst.push(src[i]);
        i = i + 1;
    }
    proof {
        assert(src@.take(n as int) == src@);
    }
}

/// The position of the first occurrence of `b` in `s`, if any.
pub open spec fn spec_find(s: Seq<u8>, b: u8) -> Option<int>
    decreases s.len(),
{
    if s.len() == 0 {
        None
    } else if s[0] == b {
        Some(0int)
    } else {
        match spec_find(s.drop_first(), b) {
            Some(i) => Some(i + 1),
            None => None,
        }
    }
}

/// `spec_find` returns exactly the first position holding `b`.
pub proof fn lemma_find_is_first(s: Seq<u8>, b: u8)
    ensures
        match spec_find(s, b) {
            Some(i) => 0 <= i < s.len() && s[i] == b && (forall|j: int|
                0 <= j < i ==> s[j] != b),
            None => forall|j: int| 0 <= j < s.len() ==> s[j] != b,
        },
    decreases s.len(),
{
    if s.len() > 0 && s[0] != b {
        let rest = s.drop_first();
        lemma_find_is_first(rest, b);
        match spec_find(rest, b) {
            Some(i) => {
                assert(s[i + 1] == rest[i]);
                assert forall|j: int| 0 <= j < i + 1 implies s[j] != b by {
                    if j > 0 {
                        assert(s[j] == rest[j - 1]);
                    }
                }
            },
            None => {
                assert forall|j: int| 0 <= j < s.len() implies s[j] != b by {
                    if j > 0 {
                        assert(s[j] == rest[j - 1]);
                    }
                }
            },
        }
    }
}

/// Conversely, the first position holding `b` is what `spec_find` returns.
pub proof fn lemma_first_is_find(s: Seq<u8>, b: u8, i: int)
    requires
        0 <= i < s.len(),
        s[i] == b,
        forall|j: int| 0 <= j < i ==> s[j] != b,
    ensures
        spec_find(s, b) == Some(i),
    decreases s.len(),
{
    if i > 0 {
        lemma_first_is_find(s.drop_first(), b, i - 1);
    }
}

/// Finds the first occurrence of `b` in `s`.
pub fn find_byte(s: &[u8], b: u8) -> (r: Option<usize>)
    ensures
        match r {
            Some(i) => spec_find(s@, b) == Some(i as int),
            None => spec_find(s@, b) is None,
        },
{
    let n = s.len();
    let mut i: usize = 0;
    while i < n
        invariant
            i <= n,
            n == s@.len(),
            forall|j: int| 0 <= j < i ==> s@[j] != b,
        decreases n - i,
    {
        if s[i] == b {
            proof {
                lemma_first_is_find(s@, b, i as int);
            }
            return Some(i);
        }
        i = i + 1;
    }
    proof {
        lemma_find_is_first(s@, b);
        if spec_find(s@, b) is Some {
            assert(s@[spec_find(s@, b).unwrap()] == b);
        }
    }
    None
}

/// An ASCII upper-case letter folded to lower case; other bytes unchanged.
pub open spec fn spec_lower_byte(b: u8) -> u8 {
    if 0x41 <= b <= 0x5a {
        (b + 0x20) as u8
    } else {
        b
    }
}

/// A byte string folded to ASCII lower case.
pub open spec fn spec_lower(s: Seq<u8>) -> Seq<u8> {
    s.map_values(|b: u8| spec_lower_byte(b))
}

/// Whether two byte strings are equal up to ASCII case.
pub fn eq_ignore_ascii_case(a: &[u8], b: &[u8]) -> (r: bool)
    ensures
        r == (spec_lower(a@) == spec_lower(b@)),
{
    if a.len() != b.len() {
        assert(spec_lower(a@).len() != spec_lower(b@).len());
        return false;
    }
    let n = a.len();
    let mut i: usize = 0;
    while i < n
        invariant
            i <= n,
            n == a@.len() == b@.len(),
            forall|j: int| 0 <= j < i ==> spec_lower_byte(a@[j]) == spec_lower_byte(b@[j]),
        decreases n - i,
    {
        let x = a[i];
        let y = b[i];
        let xl = if 0x41 <= x && x <= 0x5a {
            x + 0x20
        } else {
            x
        };
        let yl = if 0x41 <= y && y <= 0x5a {
            y + 0x20
        } else {
            y
        };
        if xl != yl {
            assert(spec_lower(a@)[i as int] != spec_lower(b@)[i as int]);
            return false;
        }
        i = i + 1;
    }
    proof {
        assert(spec_lower(a@) =~= spec_lower(b@));
    }
    true
}

/// Whether two byte strings are equal.
pub fn bytes_eq(a: &[u8], b: &[u8]) -> (r: bool)
    ensures
        r == (a@ == b@),
{
    if a.len() != b.len() {
        return false;
    }
    let n = a.len();
    let mut i: usize = 0;
    while i < n
        invariant
            i <= n,
            n == a@.len() == b@.len(),
            forall|j: int| 0 <= j < i ==> a@[j] == b@[j],
        decreases n - i,
    {
        if a[i] != b[i] {
            return false;
        }
        i = i + 1;
    }
    proof {
        assert(a@ =~= b@);
    }
    true
}

} // verus!
