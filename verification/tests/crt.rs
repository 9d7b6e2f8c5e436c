use gt_crust::crt::divmod::{
    __udivhi3, __udivmodhi4, __udivmodqi4, __udivqi3, __umodhi3, __umodqi3,
};
use gt_crust::crt::shift::{__ashlhi3, __ashrhi3, __lshrhi3, __lshrqi3};

#[test]
fn byte_division_matches_native_operators() {
    for a in 0..=255u8 {
        for b in 1..=255u8 {
            assert_eq!(__udivqi3(a, b), a / b);
            assert_eq!(__umodqi3(a, b), a % b);
            let mut rem = 0u8;
            assert_eq!(__udivmodqi4(a, b, &mut rem), a / b);
            assert_eq!(rem, a % b);
        }
    }
}

#[test]
fn byte_division_by_zero() {
    assert_eq!(__udivqi3(200, 0), 0);
    assert_eq!(__umodqi3(200, 0), 200);
    let mut rem = 7u8;
    assert_eq!(__udivmodqi4(200, 0, &mut rem), 0);
    assert_eq!(rem, 200);
}

#[test]
fn word_division_matches_native_operators() {
    let samples: [u16; 14] = [0, 1, 2, 3, 7, 10, 255, 256, 1000, 4097, 32767, 32768, 65534, 65535];
    for &a in samples.iter() {
        for &b in samples.iter() {
            if b == 0 {
                continue;
            }
            assert_eq!(__udivhi3(a, b), a / b);
            assert_eq!(__umodhi3(a, b), a % b);
            let mut rem = 0u16;
            assert_eq!(__udivmodhi4(a, b, &mut rem), a / b);
            assert_eq!(rem, a % b);
        }
    }
    let mut a: u16 = 1;
    while a < 60000 {
        assert_eq!(__udivhi3(a, 37), a / 37);
        assert_eq!(__umodhi3(a, 37), a % 37);
        a += 97;
    }
}

#[test]
fn word_division_exact_values() {
    assert_eq!(__udivhi3(1000, 7), 142);
    assert_eq!(__umodhi3(1000, 7), 6);
    assert_eq!(__udivhi3(65535, 1), 65535);
    assert_eq!(__udivhi3(5, 6), 0);
    assert_eq!(__umodhi3(5, 6), 5);
    assert_eq!(__udivhi3(9, 0), 0);
    assert_eq!(__umodhi3(9, 0), 9);
    let mut rem = 0u16;
    assert_eq!(__udivmodhi4(40000, 300, &mut rem), 133);
    assert_eq!(rem, 100);
}

#[test]
fn quotient_times_divisor_plus_remainder() {
    for a in 0..=255u8 {
        for b in 0..=255u8 {
            let q = __udivqi3(a, b) as u32;
            let r = __umodqi3(a, b) as u32;
            assert_eq!(q * b as u32 + r, a as u32);
            if b > 0 {
                assert!(r < b as u32);
            }
        }
    }
}

#[test]
fn shifts_match_native_operators() {
    let samples: [u16; 6] = [0, 1, 0x00ff, 0x1234, 0x8001, 0xffff];
    for &n in samples.iter() {
        for amt in 0..16u8 {
            assert_eq!(__ashlhi3(n, amt), n << amt);
            assert_eq!(__lshrhi3(n, amt), n >> amt);
            assert_eq!(__ashrhi3(n as i16, amt), (n as i16) >> amt);
        }
        for amt in 16..=40u8 {
            assert_eq!(__ashlhi3(n, amt), 0);
            assert_eq!(__lshrhi3(n, amt), 0);
        }
    }
    for n in 0..=255u8 {
        for amt in 0..8u8 {
            assert_eq!(__lshrqi3(n, amt), n >> amt);
        }
        assert_eq!(__lshrqi3(n, 8), 0);
        assert_eq!(__lshrqi3(n, 255), 0);
    }
}

#[test]
fn arithmetic_shift_keeps_sign() {
    assert_eq!(__ashrhi3(-7, 1), -4);
    assert_eq!(__ashrhi3(-1, 15), -1);
    assert_eq!(__ashrhi3(-1, 200), -1);
    assert_eq!(__ashrhi3(-32768, 15), -1);
    assert_eq!(__ashrhi3(32767, 20), 0);
    assert_eq!(__ashrhi3(100, 2), 25);
}

#[test]
fn shift_left_then_right_round_trip() {
    assert_eq!(__lshrhi3(__ashlhi3(0x0123, 4), 4), 0x0123);
    assert_eq!(__lshrhi3(__ashlhi3(1, 15), 15), 1);
    assert_eq!(__lshrhi3(__ashlhi3(3, 15), 15), 1);
}
