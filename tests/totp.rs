use sha1::Digest;
use totp_console::hmac::hmac_sha1_digest;
use totp_console::totp::{ClockError, Totp};

#[test]
fn test_totp_generation() {
    let secret = b"12345678901234567890".to_vec();
    let totp = Totp::new(secret);

    let code = totp.generate_at_time(59).unwrap();
    assert_eq!(code.len(), 6);
    assert_eq!(code, "287082");
}

#[test]
fn test_totp_generation_multiple_times() {
    let secret = b"12345678901234567890".to_vec();
    let totp = Totp::new(secret);

    let test_cases = vec![
        (59, "287082"),
        (1111111109, "081804"),
        (1111111111, "050471"),
        (1234567890, "005924"),
        (2000000000, "279037"),
        (20000000000, "353130"),
    ];

    for (time, expected) in test_cases {
        let code = totp.generate_at_time(time).unwrap();
        assert_eq!(code, expected, "Failed at time {}", time);
    }
}

#[test]
fn test_time_remaining() {
    let secret = vec![1, 2, 3, 4, 5];
    let totp = Totp::new(secret);

    let remaining = totp.time_remaining();
    assert!(remaining > 0 && remaining <= 30);
}

#[test]
fn test_totp_code_length() {
    let secret = vec![1, 2, 3, 4, 5];
    let totp = Totp::new(secret);

    let code = totp.generate().unwrap();
    assert_eq!(code.len(), 6);
    assert!(code.chars().all(|c| c.is_ascii_digit()));
}

#[test]
fn time_remaining_at_window_edges() {
    let totp = Totp::new(vec![1, 2, 3]);
    assert_eq!(totp.time_remaining_at(0), 30);
    assert_eq!(totp.time_remaining_at(1), 29);
    assert_eq!(totp.time_remaining_at(29), 1);
    assert_eq!(totp.time_remaining_at(30), 30);
    assert_eq!(totp.time_remaining_at(59), 1);
    assert_eq!(totp.time_remaining_at(u64::MAX), 30 - u64::MAX % 30);
    for t in 0..200u64 {
        let r = totp.time_remaining_at(t);
        assert!((1..=30).contains(&r));
    }
}

#[test]
fn same_window_same_code() {
    let totp = Totp::new(b"12345678901234567890".to_vec());
    assert_eq!(totp.generate_at_time(30).unwrap(), totp.generate_at_time(59).unwrap());
    assert_eq!(totp.generate_at_time(59).unwrap(), "287082");
    assert_ne!(totp.generate_at_time(29).unwrap(), "287082");
}

#[test]
fn code_is_a_function_of_key_and_time() {
    let a = Totp::new(b"12345678901234567890".to_vec());
    let b = Totp::new(b"12345678901234567890".to_vec());
    for t in [0u64, 59, 1111111109, 20000000000, u64::MAX] {
        let first = a.generate_at_time(t).unwrap();
        assert_eq!(first, a.generate_at_time(t).unwrap());
        assert_eq!(first, b.generate_at_time(t).unwrap());
    }
}

#[test]
fn rfc4226_counter_vectors() {
    let totp = Totp::new(b"12345678901234567890".to_vec());
    let expected = [
        "755224", "287082", "359152", "969429", "338314", "254676", "287922", "162583", "399871",
        "520489",
    ];
    for (counter, code) in expected.iter().enumerate() {
        let t = counter as u64 * 30;
        assert_eq!(totp.generate_at_time(t).unwrap(), *code);
        assert_eq!(totp.generate_at_time(t + 29).unwrap(), *code);
    }
}

#[test]
fn codes_are_six_digits_with_leading_zeros() {
    let totp = Totp::new(b"12345678901234567890".to_vec());
    let code = totp.generate_at_time(1234567890).unwrap();
    assert_eq!(code, "005924");
    for t in (0..3000u64).step_by(30) {
        let code = totp.generate_at_time(t).unwrap();
        assert_eq!(code.len(), 6);
        assert!(code.chars().all(|c| c.is_ascii_digit()));
    }
}

#[test]
fn empty_and_long_keys_give_codes() {
    let empty = Totp::new(Vec::new());
    assert_eq!(empty.generate_at_time(59).unwrap().len(), 6);
    let long = Totp::new(vec![0xaa; 100]);
    assert_eq!(long.generate_at_time(59).unwrap().len(), 6);
}

#[test]
fn generate_matches_generate_at_time_now() {
    let totp = Totp::new(vec![9, 8, 7]);
    let before = std::time::SystemTime::now()
        .duration_since(std::time::UNIX_EPOCH)
        .unwrap()
        .as_secs();
    let code = totp.generate().unwrap();
    let after = std::time::SystemTime::now()
        .duration_since(std::time::UNIX_EPOCH)
        .unwrap()
        .as_secs();
    assert!(
        code == totp.generate_at_time(before).unwrap()
            || code == totp.generate_at_time(after).unwrap()
    );
}

#[test]
fn clock_error_is_a_plain_value() {
    let r: Result<String, ClockError> = Err(ClockError);
    assert_eq!(r, Err(ClockError));
}

#[test]
fn hmac_sha1_rfc2202_first_case() {
    let key = [0x0bu8; 20];
    let digest = hmac_sha1_digest(&key, b"Hi There");
    let expected: [u8; 20] = [
        0xb6, 0x17, 0x31, 0x86, 0x55, 0x05, 0x72, 0x64, 0xe2, 0x8b, 0xc0, 0xb6, 0xfb, 0x37, 0x8c,
        0x8e, 0xf1, 0x46, 0xbe, 0x00,
    ];
    assert_eq!(digest, expected);
}

#[test]
fn hmac_sha1_hashes_keys_longer_than_a_block() {
    let key = [0xaau8; 80];
    let hashed: [u8; 20] = sha1::Sha1::digest(key).into();
    let message = *b"counter!";
    assert_eq!(hmac_sha1_digest(&key, &message), hmac_sha1_digest(&hashed, &message));
    assert_ne!(hmac_sha1_digest(&key[..64], &message), hmac_sha1_digest(&key, &message));
}
