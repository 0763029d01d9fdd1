use kern::allocator::Allocator;
use kern::util::{align_down, align_up};

#[test]
fn align_down_rounds_to_multiple() {
    assert_eq!(align_down(0x1234, 0x1000), 0x1000);
    assert_eq!(align_down(0x1000, 0x1000), 0x1000);
    assert_eq!(align_down(7, 8), 0);
    assert_eq!(align_down(0, 1), 0);
}

#[test]
fn align_up_rounds_to_multiple() {
    assert_eq!(align_up(0x1234, 0x1000), 0x2000);
    assert_eq!(align_up(0x1000, 0x1000), 0x1000);
    assert_eq!(align_up(1, 8), 8);
    assert_eq!(align_up(0, 16), 0);
}

#[test]
fn fresh_allocator_holds_whole_range() {
    let a = Allocator::new(0x100000, 0x100000 + 4096);
    assert_eq!(a.free_byte_count(), 4096);
}

#[test]
fn fresh_allocator_leaks_sub_eight_tail() {
    let a = Allocator::new(0, 1029);
    assert_eq!(a.free_byte_count(), 1024);
}

#[test]
fn allocation_is_aligned_and_in_range() {
    let mut a = Allocator::new(0x10000, 0x20000);
    let p = a.allocate(100, 64).expect("allocation failed");
    assert_eq!(p % 64, 0);
    assert!(p >= 0x10000);
    assert!(p + 100 <= 0x20000);
}

#[test]
fn eight_byte_allocations_until_exhaustion() {
    // a fresh range of n bytes serves exactly n / 8 eight-byte requests
    let n: u64 = 1024;
    let mut a = Allocator::new(0, n);
    let mut count = 0u64;
    let mut seen = Vec::new();
    loop {
        match a.allocate(8, 8) {
            Some(p) => {
                assert_eq!(p % 8, 0);
                assert!(p + 8 <= n);
                // no two live allocations overlap
                assert!(!seen.contains(&p));
                seen.push(p);
                count += 1;
            }
            None => break,
        }
    }
    assert_eq!(count, n / 8);
    assert_eq!(a.free_byte_count(), 0);
}

#[test]
fn page_allocation_is_page_aligned() {
    let mut a = Allocator::new(0x30000, 0x30000 + 8 * 65536);
    match a.allocate(65536, 65536) {
        Some(p) => assert_eq!(p % 65536, 0),
        None => {}
    }
}

#[test]
fn deallocate_returns_bytes() {
    let mut a = Allocator::new(0, 65536);
    let before = a.free_byte_count();
    let p = a.allocate(256, 8).expect("allocation failed");
    assert_eq!(a.free_byte_count(), before - 256);
    a.deallocate(p, 256, 8);
    assert_eq!(a.free_byte_count(), before);
}

#[test]
fn distinct_live_allocations_do_not_overlap() {
    let mut a = Allocator::new(0, 65536);
    let p1 = a.allocate(512, 16).expect("allocation failed");
    let p2 = a.allocate(512, 16).expect("allocation failed");
    assert!(p1 + 512 <= p2 || p2 + 512 <= p1);
}

#[test]
fn exhausted_allocator_refuses() {
    let mut a = Allocator::new(0, 64);
    assert!(a.allocate(64, 8).is_some());
    assert!(a.allocate(8, 8).is_none());
}
