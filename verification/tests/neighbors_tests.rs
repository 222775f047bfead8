use core::mem;
use wee_alloc_bw::neighbors::Neighbors;

/// A cell type for the words under test.
#[derive(Debug)]
struct Cell;

type CellNeighbors = Neighbors<Cell>;

#[test]
fn can_use_low_bits() {
    assert!(
        mem::align_of::<&u8>() >= 0b100,
        "we rely on being able to stick tags into the lowest two bits"
    );
}

#[test]
fn default_has_null_neighbors_and_no_bits() {
    let n = CellNeighbors::default();
    assert_eq!(n.next_unchecked(), 0);
    assert_eq!(n.prev_unchecked(), 0);
    assert_eq!(n.next_and_bits(), 0);
    assert_eq!(n.prev_and_bits(), 0);
    assert!(!n.get_next_bit_1());
    assert!(!n.get_next_bit_2());
    assert!(!n.get_prev_bit_1());
    assert!(!n.get_prev_bit_2());
}

#[test]
fn bit_constants() {
    assert_eq!(CellNeighbors::BIT_1, 1);
    assert_eq!(CellNeighbors::BIT_2, 2);
}

#[test]
fn setting_next_bits_keeps_address_and_other_word() {
    let mut n = CellNeighbors::default();
    n.set_next(0x1000);
    n.set_prev(0x2000);
    n.set_next_bit_1();
    assert!(n.get_next_bit_1());
    assert!(!n.get_next_bit_2());
    assert_eq!(n.next_unchecked(), 0x1000);
    assert_eq!(n.next_and_bits(), 0x1001);
    n.set_next_bit_2();
    assert!(n.get_next_bit_1());
    assert!(n.get_next_bit_2());
    assert_eq!(n.next_and_bits(), 0x1003);
    assert_eq!(n.prev_and_bits(), 0x2000);
    assert!(!n.get_prev_bit_1());
    assert!(!n.get_prev_bit_2());
}

#[test]
fn setting_prev_bits_keeps_address_and_other_word() {
    let mut n = CellNeighbors::default();
    n.set_next(0x1000);
    n.set_prev(0x2000);
    n.set_prev_bit_2();
    assert!(n.get_prev_bit_2());
    assert!(!n.get_prev_bit_1());
    assert_eq!(n.prev_and_bits(), 0x2002);
    n.set_prev_bit_1();
    assert_eq!(n.prev_and_bits(), 0x2003);
    assert_eq!(n.prev_unchecked(), 0x2000);
    assert_eq!(n.next_and_bits(), 0x1000);
}

#[test]
fn clearing_bits_keeps_address_and_other_bit() {
    let mut n = CellNeighbors::default();
    n.set_next_and_bits(0x1003);
    n.set_prev_and_bits(0x2003);
    n.clear_next_bit_1();
    assert_eq!(n.next_and_bits(), 0x1002);
    assert!(!n.get_next_bit_1());
    assert!(n.get_next_bit_2());
    n.clear_next_bit_2();
    assert_eq!(n.next_and_bits(), 0x1000);
    n.clear_prev_bit_2();
    assert_eq!(n.prev_and_bits(), 0x2001);
    assert!(n.get_prev_bit_1());
    assert!(!n.get_prev_bit_2());
    n.clear_prev_bit_1();
    assert_eq!(n.prev_and_bits(), 0x2000);
}

#[test]
fn set_then_clear_restores_word() {
    let mut n = CellNeighbors::default();
    n.set_next_and_bits(0x40);
    n.set_next_bit_2();
    n.clear_next_bit_2();
    assert_eq!(n.next_and_bits(), 0x40);
    n.set_prev_and_bits(0x82);
    n.set_prev_bit_1();
    n.clear_prev_bit_1();
    assert_eq!(n.prev_and_bits(), 0x82);
}

#[test]
fn set_next_and_prev_keep_tag_bits() {
    let mut n = CellNeighbors::default();
    n.set_next_and_bits(0x1002);
    n.set_prev_and_bits(0x2001);
    n.set_next(0x3000);
    assert_eq!(n.next_and_bits(), 0x3002);
    assert_eq!(n.next_unchecked(), 0x3000);
    n.set_prev(0);
    assert_eq!(n.prev_and_bits(), 0x1);
    assert_eq!(n.prev_unchecked(), 0);
    assert!(n.get_prev_bit_1());
}

#[test]
fn raw_setters_clobber_bits() {
    let mut n = CellNeighbors::default();
    n.set_next_bit_1();
    n.set_next_and_bits(0x4000);
    assert!(!n.get_next_bit_1());
    assert_eq!(n.next_unchecked(), 0x4000);
    n.set_prev_and_bits(0x5003);
    assert_eq!(n.prev_unchecked(), 0x5000);
    assert!(n.get_prev_bit_1());
    assert!(n.get_prev_bit_2());
}
