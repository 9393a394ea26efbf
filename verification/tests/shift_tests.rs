use xux::shift_to_unsigned::ShiftToUnsigned;
use xux::to_unsigned::ToUnsigned;

#[test]
fn shift_test_i8() {
    let mut a: i8 = i8::MIN;
    let mut b: u8 = u8::MIN;
    loop {
        assert_eq!(a.shift_to_unsigned(), b);
        if a == i8::MAX {
            break;
        }
        a += 1;
        b += 1;
    }
}

#[test]
fn shift_test_i16() {
    let mut a: i16 = i16::MIN;
    let mut b: u16 = u16::MIN;
    loop {
        assert_eq!(a.shift_to_unsigned(), b);
        if a == i16::MAX {
            break;
        }
        a += 1;
        b += 1;
    }
}

// The full ranges of the wider types take too long to walk in a test run:
// these walk them with a stride, and both ends in full.

#[test]
fn shift_test_i32() {
    let mut k: u64 = 0;
    while k <= u32::MAX as u64 {
        let a = (k as i64 + i32::MIN as i64) as i32;
        assert_eq!(a.shift_to_unsigned(), k as u32);
        k += if k < 70_000 || k > u32::MAX as u64 - 70_000 { 1 } else { 65_537 };
    }
    assert_eq!(i32::MAX.shift_to_unsigned(), u32::MAX);
}

#[test]
fn shift_test_i64() {
    let mut k: u64 = 0;
    loop {
        let a = (k as i128 + i64::MIN as i128) as i64;
        assert_eq!(a.shift_to_unsigned(), k);
        let step = if k < 70_000 || k > u64::MAX - 70_000 { 1 } else { 0x0000_1000_0000_0001 };
        match k.checked_add(step) {
            Some(n) => k = n,
            None => break,
        }
    }
    assert_eq!(i64::MIN.shift_to_unsigned(), 0);
    assert_eq!(i64::MAX.shift_to_unsigned(), u64::MAX);
}

#[test]
fn shift_test_isize() {
    let mut k: usize = 0;
    loop {
        let a = (k as i128 + isize::MIN as i128) as isize;
        assert_eq!(a.shift_to_unsigned(), k);
        let step = if k < 70_000 || k > usize::MAX - 70_000 { 1 } else { usize::MAX / 65_521 };
        match k.checked_add(step) {
            Some(n) => k = n,
            None => break,
        }
    }
    assert_eq!(isize::MIN.shift_to_unsigned(), 0);
    assert_eq!(isize::MAX.shift_to_unsigned(), usize::MAX);
}

#[test]
fn shift_keeps_order() {
    let xs: [i32; 7] = [i32::MIN, -70_000, -1, 0, 1, 70_000, i32::MAX];
    for i in 0..xs.len() {
        for j in 0..xs.len() {
            assert_eq!(xs[i] < xs[j], xs[i].shift_to_unsigned() < xs[j].shift_to_unsigned());
        }
    }
}

#[test]
fn to_unsigned_matches_shift() {
    assert_eq!((-128i8).to_unsigned(), 0u8);
    assert_eq!(0i8.to_unsigned(), 128u8);
    assert_eq!(127i8.to_unsigned(), 255u8);
    assert_eq!((-1i16).to_unsigned(), 0x7fffu16);
    assert_eq!(0i32.to_unsigned(), 0x8000_0000u32);
    assert_eq!((-5i64).to_unsigned(), 0x7fff_ffff_ffff_fffbu64);
    assert_eq!(0isize.to_unsigned(), isize::MAX as usize + 1);
    assert_eq!(12345i32.to_unsigned(), 12345i32.shift_to_unsigned());
}
