use kern::allocator::Allocator;
use kern::io::{Cursor, ErrorKind, SeekFrom, slice_write, vec_write};
use kern::process::{OsError, Process, Stack};
use kern::vm::ADDR_LIMIT;
use kern::param::{USER_IMG_BASE, USER_STACK_BASE};
use kern::atag::{Atag, Core, Mem};
use kern::interrupt::Interrupt;

#[test]
fn cursor_reads_and_advances() {
    let mut c = Cursor::new(vec![1, 2, 3, 4, 5]);
    let mut buf = vec![0u8; 2];
    assert_eq!(c.read(&mut buf), 2);
    assert_eq!(buf, vec![1, 2]);
    assert_eq!(c.read(&mut buf), 2);
    assert_eq!(buf, vec![3, 4]);
    assert_eq!(c.read(&mut buf), 1);
    assert_eq!(buf, vec![5, 4]);
    assert_eq!(c.read(&mut buf), 0);
}

#[test]
fn cursor_seeks() {
    let mut c = Cursor::new(vec![10, 20, 30]);
    assert_eq!(c.seek(SeekFrom::Start(2)).unwrap(), 2);
    assert_eq!(c.seek(SeekFrom::Current(-1)).unwrap(), 1);
    assert_eq!(c.seek(SeekFrom::End(0)).unwrap(), 3);
    let e = c.seek(SeekFrom::Current(-4)).unwrap_err();
    assert_eq!(e.kind(), ErrorKind::InvalidInput);
    // a failed seek keeps the position
    assert_eq!(c.seek(SeekFrom::Current(0)).unwrap(), 3);
    assert_eq!(c.fill_buf(), &[] as &[u8]);
}

#[test]
fn slice_write_fills_without_resizing() {
    let mut pos = 1u64;
    let mut dst = vec![0u8; 4];
    let n = slice_write(&mut pos, &mut dst, &vec![7, 8, 9, 10]);
    assert_eq!(n, 3);
    assert_eq!(pos, 4);
    assert_eq!(dst, vec![0, 7, 8, 9]);
}

#[test]
fn vec_write_resizes_and_zero_fills() {
    let mut pos = 4u64;
    let mut dst = vec![1u8, 2];
    let n = vec_write(&mut pos, &mut dst, &vec![9, 9]).unwrap();
    assert_eq!(n, 2);
    assert_eq!(pos, 6);
    assert_eq!(dst, vec![1, 2, 0, 0, 9, 9]);
}

#[test]
fn process_new_allocates_stack_and_tables() {
    let mut a = Allocator::new(0, 64 * 65536);
    let before = a.free_byte_count();
    let p = Process::new(&mut a).expect("process allocation failed");
    // one stack page plus four pages of page-table storage
    assert_eq!(a.free_byte_count(), before - 65536 - 4 * 65536);
    assert_eq!(p.context.tpidr, 0);
    assert!(!p.vmap.0.is_valid(USER_IMG_BASE));
}

#[test]
fn process_new_without_memory() {
    let mut a = Allocator::new(0, 64);
    match Process::new(&mut a) {
        Err(OsError::NoMemory) => {}
        Ok(_) => panic!("expected an allocation failure"),
    }
    assert_eq!(a.free_byte_count(), 64);
}

#[test]
fn stack_is_sixteen_byte_aligned() {
    let mut a = Allocator::new(0, 4 * 65536);
    let s = Stack::new(&mut a).expect("stack allocation failed");
    assert_eq!(s.bottom() % 16, 0);
    assert_eq!(s.top(), s.bottom() + 65536);
}

#[test]
fn load_maps_stack_and_code_pages() {
    let mut a = Allocator::new(0, 64 * 65536);
    assert!(a.end <= ADDR_LIMIT);
    let kern_baddr = 0x7000;
    let p = Process::load(100_000, kern_baddr, &mut a).expect("load failed");
    assert_eq!(p.context.sp, Process::get_stack_top());
    assert_eq!(p.context.elr, USER_IMG_BASE);
    assert_eq!(p.context.spsr, 0b11_0100_0000);
    assert_eq!(p.context.ttbr0, kern_baddr);
    assert_eq!(p.context.ttbr1, p.vmap.0.get_baddr());
    assert!(p.vmap.0.is_valid(USER_STACK_BASE));
    // 100000 bytes need two 64 KiB pages
    assert!(p.vmap.0.is_valid(USER_IMG_BASE));
    assert!(p.vmap.0.is_valid(USER_IMG_BASE + 65536));
    assert!(!p.vmap.0.is_valid(USER_IMG_BASE + 2 * 65536));
}

#[test]
fn load_reports_memory_exhaustion() {
    let mut a = Allocator::new(0, 6 * 65536);
    match Process::load(16 * 65536, 0, &mut a) {
        Err(OsError::NoMemory) => {}
        Ok(_) => panic!("expected an allocation failure"),
    }
}

#[test]
fn atag_accessors_pick_their_variant() {
    let c = Atag::Core(Core { flags: 1, page_size: 4096, root_dev: 0 });
    assert_eq!(c.core_tag(), Some(Core { flags: 1, page_size: 4096, root_dev: 0 }));
    let m = Atag::Mem(Mem { size: 0x2000_0000, start: 0 });
    assert_eq!(m.mem(), Some(Mem { size: 0x2000_0000, start: 0 }));
    assert_eq!(Atag::End.mem(), None);
    let s = Atag::Cmd(String::from("console=ttyS0"));
    assert_eq!(s.cmd(), Some(String::from("console=ttyS0")));
    assert_eq!(Atag::Unknown(7).cmd(), None);
}

#[test]
fn interrupt_indexing_round_trips() {
    let lines = Interrupt::iter();
    assert_eq!(lines.len(), 8);
    for (i, line) in lines.iter().enumerate() {
        assert_eq!(Interrupt::to_index(*line), i);
        assert_eq!(Interrupt::from_index(i), *line);
    }
    assert_eq!(Interrupt::Timer1.irq_number(), 1);
    assert_eq!(Interrupt::Uart.irq_number(), 57);
}
