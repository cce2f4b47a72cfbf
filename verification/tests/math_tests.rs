use dlmm::math::integer_sqrt;

#[test]
fn integer_sqrt_small_values() {
    assert_eq!(integer_sqrt(0), 0);
    assert_eq!(integer_sqrt(1), 1);
    assert_eq!(integer_sqrt(2), 1);
    assert_eq!(integer_sqrt(3), 1);
    assert_eq!(integer_sqrt(4), 2);
    assert_eq!(integer_sqrt(15), 3);
    assert_eq!(integer_sqrt(16), 4);
    assert_eq!(integer_sqrt(17), 4);
    assert_eq!(integer_sqrt(36), 6);
}

#[test]
fn integer_sqrt_large_values() {
    let m = u64::MAX as u128;
    assert_eq!(integer_sqrt(m * m), m);
    assert_eq!(integer_sqrt(m * m - 1), m - 1);
    assert_eq!(integer_sqrt(u128::MAX - 1), m);
    assert_eq!(integer_sqrt(1u128 << 100), 1u128 << 50);
    assert_eq!(integer_sqrt((1u128 << 100) - 1), (1u128 << 50) - 1);
}

#[test]
fn integer_sqrt_brackets_its_input() {
    let mut n: u128 = 0;
    while n < 5000 {
        let r = integer_sqrt(n);
        assert!(r * r <= n);
        assert!(n < (r + 1) * (r + 1));
        n += 7;
    }
}
