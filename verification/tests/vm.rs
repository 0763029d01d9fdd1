use kern::allocator::Allocator;
use kern::vm::{PageTable, KernPageTable, UserPageTable, PagePerm, RawL3Entry, AP_KERN_RW};
use kern::param::{USER_IMG_BASE, USER_STACK_BASE, IO_BASE};

#[test]
fn locate_splits_virtual_address() {
    // bit 29 selects the table, bits 28:16 the entry
    assert_eq!(PageTable::locate(0), (0, 0));
    assert_eq!(PageTable::locate(0x10000), (0, 1));
    assert_eq!(PageTable::locate(0x2000_0000), (1, 0));
    assert_eq!(PageTable::locate(0x2001_0000), (1, 1));
    assert_eq!(PageTable::locate(USER_IMG_BASE), (0, 0));
    assert_eq!(PageTable::locate(USER_STACK_BASE), (1, 8191));
}

#[test]
fn fresh_page_table_maps_nothing() {
    let pt = PageTable::new(AP_KERN_RW, 0x100000);
    assert!(!pt.is_valid(0));
    assert!(pt.is_invalid(0x10000));
    assert_eq!(pt.get_baddr(), 0x100000);
}

#[test]
fn set_entry_makes_address_valid() {
    let mut pt = PageTable::new(AP_KERN_RW, 0);
    pt.set_entry(0x30000, RawL3Entry { bits: 0x40000 + 1795 });
    assert!(pt.is_valid(0x30000));
    assert!(!pt.is_valid(0x20000));
}

#[test]
fn kernel_table_identity_maps_ram_and_devices() {
    let ram_end: u64 = 4 * 65536;
    let kpt = KernPageTable::new(0x200000, ram_end);
    assert!(kpt.0.is_valid(0));
    assert!(kpt.0.is_valid(0x10000));
    assert!(kpt.0.is_valid(3 * 65536));
    assert!(!kpt.0.is_valid(4 * 65536));
    assert!(kpt.0.is_valid(IO_BASE));
    assert!(kpt.0.is_valid(IO_BASE + 65536));
}

#[test]
fn user_alloc_then_is_valid() {
    let mut a = Allocator::new(0, 16 * 65536);
    let mut upt = UserPageTable::new(0x100000);
    assert!(!upt.0.is_valid(USER_IMG_BASE));
    let p = upt.allocate(USER_IMG_BASE, PagePerm::RWX, &mut a);
    assert!(upt.0.is_valid(USER_IMG_BASE));
    // an address not yet allocated stays invalid
    assert!(!upt.0.is_valid(USER_IMG_BASE + 65536));
    assert_eq!(p % 65536, 0);
}

#[test]
fn user_alloc_entry_points_at_returned_page() {
    let mut a = Allocator::new(0, 16 * 65536);
    let mut upt = UserPageTable::new(0x100000);
    let p = upt.allocate(USER_IMG_BASE, PagePerm::RW, &mut a);
    // the kernel reads the same frame through the entry's address field
    let (l2, _l3) = PageTable::locate(USER_IMG_BASE);
    assert_eq!(l2, 0);
    let entry = upt.0.l3[0].entries[0];
    assert_eq!(entry.get_page_addr(), Some(p));
}

#[test]
fn teardown_returns_every_page() {
    let mut a = Allocator::new(0, 16 * 65536);
    let before = a.free_byte_count();
    let mut upt = UserPageTable::new(0x100000);
    let _p1 = upt.allocate(USER_IMG_BASE, PagePerm::RWX, &mut a);
    let _p2 = upt.allocate(USER_IMG_BASE + 65536, PagePerm::RWX, &mut a);
    let _p3 = upt.allocate(USER_STACK_BASE, PagePerm::RW, &mut a);
    assert_eq!(a.free_byte_count(), before - 3 * 65536);
    upt.teardown(&mut a);
    assert_eq!(a.free_byte_count(), before);
}
