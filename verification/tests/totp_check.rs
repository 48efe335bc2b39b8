use cohere::totp::{generate_totp, validate_totp, validate_totp_at};

// The shared secret of the HOTP reference vectors: the ASCII bytes of
// "12345678901234567890" in base32 without padding.
const SECRET: &str = "GEZDGNBVGY3TQOJQGEZDGNBVGY3TQOJQ";

#[test]
fn hotp_reference_vectors() {
    let expected = [
        "755224", "287082", "359152", "969429", "338314", "254676", "287922", "162583", "399871",
        "520489",
    ];
    for (counter, want) in expected.iter().enumerate() {
        let digits = generate_totp(SECRET, counter as u64).expect("valid secret");
        assert_eq!(String::from_utf8(digits).unwrap(), *want, "counter {}", counter);
    }
}

#[test]
fn secret_case_is_folded() {
    let upper = generate_totp(SECRET, 3).unwrap();
    let lower = generate_totp(&SECRET.to_lowercase(), 3).unwrap();
    assert_eq!(upper, lower);
}

#[test]
fn invalid_base32_is_rejected() {
    let err = generate_totp("not!base32", 0).unwrap_err();
    assert_eq!(err, "Invalid Base32 Error");
    let err = validate_totp("not!base32", "000000", 30).unwrap_err();
    assert_eq!(err, "Invalid Base32 Error");
}

#[test]
fn validation_accepts_current_and_previous_step() {
    // At 59 seconds with a 30-second step the counter is 1; the code of
    // counter 1 and, one step back, of counter 0 are both accepted.
    assert!(validate_totp_at(SECRET, "287082", 30, 59).is_ok());
    assert!(validate_totp_at(SECRET, "755224", 30, 59).is_ok());
    let err = validate_totp_at(SECRET, "359152", 30, 59).unwrap_err();
    assert_eq!(err, "Invalid OTP");
}

#[test]
fn validation_with_small_clock_uses_only_counter_zero() {
    assert!(validate_totp_at(SECRET, "755224", 30, 10).is_ok());
    let err = validate_totp_at(SECRET, "287082", 30, 10).unwrap_err();
    assert_eq!(err, "Invalid OTP");
}

#[test]
fn wrong_password_fails_against_the_clock() {
    // A fixed wrong guess: it matches at most with negligible likelihood.
    let r = validate_totp(SECRET, "999999999", 30);
    assert_eq!(r.unwrap_err(), "Invalid OTP");
}
