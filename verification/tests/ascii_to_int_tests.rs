use ccloader_installer::ascii_to_int::ascii_to_int;

#[test]
fn zero_parses() {
    assert_eq!(ascii_to_int::<u64>(b"0"), Some(0));
    assert_eq!(ascii_to_int::<usize>(b"0"), Some(0));
}

#[test]
fn empty_fails() {
    assert_eq!(ascii_to_int::<u64>(b""), None);
    assert_eq!(ascii_to_int::<usize>(b""), None);
}

#[test]
fn trailing_garbage_fails() {
    assert_eq!(ascii_to_int::<u64>(b"12a"), None);
    assert_eq!(ascii_to_int::<u64>(b"-1"), None);
    assert_eq!(ascii_to_int::<u64>(b" 1"), None);
}

#[test]
fn leading_zeros_accumulate() {
    assert_eq!(ascii_to_int::<u64>(b"000123"), Some(123));
}

#[test]
fn sixty_four_bit_boundary() {
    // the largest 64-bit value parses...
    assert_eq!(ascii_to_int::<u64>(b"18446744073709551615"), Some(u64::MAX));
    // ...one more overflows
    assert_eq!(ascii_to_int::<u64>(b"18446744073709551616"), None);
    assert_eq!(ascii_to_int::<u64>(b"99999999999999999999"), None);
}

#[test]
fn usize_width() {
    assert_eq!(ascii_to_int::<usize>(b"4096"), Some(4096));
    let max = usize::MAX.to_string();
    assert_eq!(ascii_to_int::<usize>(max.as_bytes()), Some(usize::MAX));
    let over = format!("{}0", usize::MAX);
    assert_eq!(ascii_to_int::<usize>(over.as_bytes()), None);
}
