use wetc_buyback_backend::hex::to_hex;

#[test]
fn hex_of_zero_is_one_digit() {
    assert_eq!(to_hex(0), "0");
}

#[test]
fn hex_has_no_leading_zeros_and_is_lower_case() {
    assert_eq!(to_hex(1), "1");
    assert_eq!(to_hex(10), "a");
    assert_eq!(to_hex(15), "f");
    assert_eq!(to_hex(16), "10");
    assert_eq!(to_hex(255), "ff");
    assert_eq!(to_hex(0xdead_beef), "deadbeef");
    assert_eq!(to_hex(u64::MAX), "ffffffffffffffff");
}

#[test]
fn hex_agrees_with_the_standard_formatter() {
    let mut n: u64 = 1;
    for _ in 0..200 {
        assert_eq!(to_hex(n), format!("{:x}", n));
        n = n.wrapping_mul(6364136223846793005).wrapping_add(1442695040888963407);
    }
}
