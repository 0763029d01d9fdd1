use kern::fat32::cluster::Cluster;
use kern::fat32::ebpb::BiosParameterBlock;
use kern::fat32::mbr::{MasterBootRecord, Error as MbrError};
use kern::fat32::metadata::{Attributes, Date, Metadata, Time, Timestamp};
use kern::fat32::file::File;
use kern::fat32::vfat::{VFat, Error as VfatError};
use kern::io::SeekFrom;
use kern::shell::{attribute_glyphs, Command, Error as ShellError};

fn sector_with_signature() -> Vec<u8> {
    let mut s = vec![0u8; 512];
    s[510] = 0x55;
    s[511] = 0xaa;
    s
}

#[test]
fn mbr_rejects_bad_signature() {
    let s = vec![0u8; 512];
    assert!(matches!(MasterBootRecord::from(&s), Err(MbrError::BadSignature)));
}

#[test]
fn mbr_rejects_bad_boot_indicator() {
    let mut s = sector_with_signature();
    s[446 + 16] = 0x01; // second partition entry
    match MasterBootRecord::from(&s) {
        Err(MbrError::UnknownBootIndicator(n)) => assert_eq!(n, 1),
        _ => panic!("expected an unknown boot indicator"),
    }
}

#[test]
fn mbr_parses_partition_table() {
    let mut s = sector_with_signature();
    // first partition: bootable flag, FAT32 type, offset 2048, 8192 sectors
    s[446] = 0x80;
    s[446 + 4] = 0x0c;
    s[446 + 8] = 0x00;
    s[446 + 9] = 0x08;
    s[446 + 12] = 0x00;
    s[446 + 13] = 0x20;
    let m = MasterBootRecord::from(&s).expect("parse failed");
    assert_eq!(m.signature, 0xaa55);
    assert_eq!(m.partition_table[0].boot_indicator, 0x80);
    assert_eq!(m.partition_table[0].partition_type, 0x0c);
    assert_eq!(m.partition_table[0].sector_offset, 2048);
    assert_eq!(m.partition_table[0].num_sectors, 8192);
    assert_eq!(VFat::find_partition(&m).expect("no partition"), 2048);
}

#[test]
fn find_partition_reports_missing_volume() {
    let s = sector_with_signature();
    let m = MasterBootRecord::from(&s).expect("parse failed");
    assert!(matches!(VFat::find_partition(&m), Err(VfatError::NotFound)));
}

#[test]
fn ebpb_parses_layout_fields() {
    let mut s = sector_with_signature();
    s[11] = 0x00;
    s[12] = 0x02; // 512 bytes per sector
    s[13] = 8; // sectors per cluster
    s[14] = 32; // reserved sectors
    s[16] = 2; // FAT copies
    s[36] = 0x40;
    s[37] = 0x01; // sectors per FAT = 0x140
    s[44] = 2; // root directory cluster
    let b = BiosParameterBlock::from(&s).expect("parse failed");
    assert_eq!(b.bytes_per_sector, 512);
    assert_eq!(b.sectors_per_cluster, 8);
    assert_eq!(b.reserved_sectors, 32);
    assert_eq!(b.fats, 2);
    assert_eq!(b.sectors_per_fat, 0x140);
    assert_eq!(b.root_directory_cluster, 2);

    let v = VFat::from(&b);
    assert_eq!(v.fat_start_sector, 32);
    assert_eq!(v.data_start_sector, 32 + 2 * 0x140);
    assert_eq!(v.rootdir_cluster.0, 2);
    assert_eq!(v.get_cluster_size(), 4096);
}

#[test]
fn ebpb_rejects_bad_signature() {
    let s = vec![0u8; 512];
    assert!(matches!(BiosParameterBlock::from(&s), Err(VfatError::BadSignature)));
}

#[test]
fn cluster_masks_reserved_bits() {
    let c = Cluster::from(0xf000_0002);
    assert_eq!(c.get_value(), 2);
}

#[test]
fn cluster_fat_position() {
    let c = Cluster::from(100);
    // entry 100 is 400 bytes in; sector 0 of the FAT region at 512-byte
    // sectors
    assert_eq!(c.fat_table_sector(32, 512), 32);
    assert_eq!(Cluster::from(200).fat_table_sector(32, 512), 33);
    assert_eq!(c.fat_sector_index(128), 100);
}

#[test]
fn metadata_reads_attribute_bits() {
    let m = Metadata { attributes: Attributes(0x13), ..Default::default() };
    assert!(m.read_only());
    assert!(m.hidden());
    assert!(!m.is_system());
    assert!(!m.is_volume_id());
    assert!(m.is_dir());
    assert!(!m.is_archive());
}

#[test]
fn metadata_assembles_first_cluster() {
    let m = Metadata {
        first_cluster_low: 0x5678,
        first_cluster_high: 0x1234,
        ..Default::default()
    };
    assert_eq!(m.first_cluster(), 0x1234_5678);
}

#[test]
fn timestamp_unpacks_fields() {
    // 2005-06-07, 12:34:56
    let date = Date(((2005 - 1980) << 9) | (6 << 5) | 7);
    let time = Time((12 << 11) | (34 << 5) | (56 / 2));
    let t = Timestamp { date, time };
    assert_eq!(t.year(), 2005);
    assert_eq!(t.month(), 6);
    assert_eq!(t.day(), 7);
    assert_eq!(t.hour(), 12);
    assert_eq!(t.minute(), 34);
    assert_eq!(t.second(), 56);
}

#[test]
fn file_seek_within_bounds() {
    let mut f = File {
        first_cluster: Cluster::from(2),
        name: String::from("hello.txt"),
        metadata: Metadata::default(),
        seek_offset: 0,
        file_size: 100,
    };
    assert_eq!(f.seek(SeekFrom::Start(40)).unwrap(), 40);
    assert_eq!(f.seek(SeekFrom::Current(10)).unwrap(), 50);
    assert_eq!(f.seek(SeekFrom::Current(-50)).unwrap(), 0);
    assert_eq!(f.seek(SeekFrom::End(-100)).unwrap(), 0);
    assert_eq!(f.seek(SeekFrom::End(0)).unwrap(), 100);
}

#[test]
fn file_seek_outside_bounds_is_rejected() {
    let mut f = File {
        first_cluster: Cluster::from(2),
        name: String::from("hello.txt"),
        metadata: Metadata::default(),
        seek_offset: 10,
        file_size: 100,
    };
    assert!(f.seek(SeekFrom::Start(101)).is_err());
    assert!(f.seek(SeekFrom::Current(-11)).is_err());
    assert!(f.seek(SeekFrom::End(1)).is_err());
    assert!(f.seek(SeekFrom::End(-101)).is_err());
    // a failed seek leaves the offset alone
    assert_eq!(f.seek(SeekFrom::Current(0)).unwrap(), 10);
}

#[test]
fn glyphs_render_attribute_flags() {
    // a hidden directory renders "-h--d-"; a plain archive file "----fa"
    let d = Metadata { attributes: Attributes(0x12), ..Default::default() };
    assert_eq!(attribute_glyphs(&d), b"-h--d-".to_vec());
    let f = Metadata { attributes: Attributes(0x20), ..Default::default() };
    assert_eq!(attribute_glyphs(&f), b"----fa".to_vec());
}

#[test]
fn command_parse_splits_arguments() {
    let line = b"ls -a /".to_vec();
    let c = Command::parse(&line).expect("parse failed");
    assert_eq!(c.args.len(), 3);
    assert_eq!(c.path(), &b"ls".to_vec());
    assert_eq!(c.args[1], b"-a".to_vec());
    assert_eq!(c.args[2], b"/".to_vec());
}

#[test]
fn command_parse_drops_repeated_spaces() {
    let line = b"  echo   hello  ".to_vec();
    let c = Command::parse(&line).expect("parse failed");
    assert_eq!(c.args.len(), 2);
    assert_eq!(c.args[0], b"echo".to_vec());
    assert_eq!(c.args[1], b"hello".to_vec());
}

#[test]
fn command_parse_empty_line() {
    let line = b"   ".to_vec();
    assert!(matches!(Command::parse(&line), Err(ShellError::Empty)));
}

#[test]
fn command_parse_too_many_arguments() {
    let mut line = Vec::new();
    for _ in 0..65 {
        line.push(b'x');
        line.push(b' ');
    }
    assert!(matches!(Command::parse(&line), Err(ShellError::TooManyArgs)));
}
