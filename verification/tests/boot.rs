use gt_crust::bank_0::test_function;
use gt_crust::boot::{__memset, address_bytes};

#[test]
fn memset_fills_the_prefix_only() {
    let mut mem = [1u8, 2, 3, 4, 5];
    __memset(&mut mem, 9, 3);
    assert_eq!(mem, [9, 9, 9, 4, 5]);
    __memset(&mut mem, 0, 0);
    assert_eq!(mem, [9, 9, 9, 4, 5]);
    __memset(&mut mem, 7, 5);
    assert_eq!(mem, [7; 5]);
}

#[test]
fn address_split_into_bytes() {
    assert_eq!(address_bytes(0x1234), (0x34, 0x12));
    assert_eq!(address_bytes(0x00ff), (0xff, 0x00));
    assert_eq!(address_bytes(0x12_3456), (0x56, 0x34));
    let (lo, hi) = address_bytes(0xbeef);
    assert_eq!(lo as usize + 256 * hi as usize, 0xbeef);
}

#[test]
fn bank_function_runs() {
    test_function();
}
