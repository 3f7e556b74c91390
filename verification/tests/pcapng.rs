use netscope::capture::pcapng::{
    file_link_type, rotated_path, rotation_size, PcapNgWriter, RawCaptureOptions,
};
use netscope::paths::FilePath;

fn writer(rotate_bytes: u64) -> PcapNgWriter {
    PcapNgWriter::new(
        RawCaptureOptions {
            path: FilePath::new("/tmp/capture.pcapng"),
            rotate_bytes,
        },
        1,
    )
}

#[test]
fn writes_an_enhanced_packet_block_with_a_stable_offset() {
    let mut writer = writer(1024);
    let mut file = writer.header();
    let written = writer.write(&[1, 2, 3], 60, 0);
    assert!(written.open.is_none());
    file.extend_from_slice(&written.block);

    assert_eq!(written.reference.offset, 48);
    assert_eq!(&file[0..4], &0x0a0d0d0au32.to_le_bytes());
    assert_eq!(&file[12..16], &1u32.to_le_bytes());
    assert_eq!(&file[28..32], &1u32.to_le_bytes());
    assert_eq!(&file[36..40], &1u32.to_le_bytes());
    assert_eq!(&file[48..52], &0x00000006u32.to_le_bytes());
    assert_eq!(u32::from_le_bytes(file[52..56].try_into().unwrap()), 36);
    assert_eq!(file.len(), 84);
}

#[test]
fn blocks_hold_the_time_the_lengths_and_the_bytes() {
    let mut writer = writer(1024);
    let block = writer.write(&[1, 2, 3, 4, 5], 60, 0x0102_0304_0506_0708).block;
    assert_eq!(block.len(), 40);
    assert_eq!(&block[8..12], &[0, 0, 0, 0]);
    assert_eq!(&block[12..16], &[4, 3, 2, 1]);
    assert_eq!(&block[16..20], &[8, 7, 6, 5]);
    assert_eq!(&block[20..24], &[5, 0, 0, 0]);
    assert_eq!(&block[24..28], &[60, 0, 0, 0]);
    assert_eq!(&block[28..36], &[1, 2, 3, 4, 5, 0, 0, 0]);
    assert_eq!(&block[4..8], &block[36..40]);
    assert_eq!(&block[4..8], &[40, 0, 0, 0]);
}

#[test]
fn files_rotate_before_they_grow_too_large() {
    let mut writer = writer(120);
    let first = writer.write(&[0; 4], 4, 0);
    assert_eq!(first.reference.packet_id, "/tmp/capture.pcapng-1");
    assert_eq!(first.reference.file, "/tmp/capture.pcapng");
    let second = writer.write(&[0; 4], 4, 0);
    assert_eq!(second.reference.offset, 84);
    assert!(second.open.is_none());
    let third = writer.write(&[0; 4], 4, 0);
    assert_eq!(third.open.unwrap().display(), "/tmp/capture.0001.pcapng");
    assert_eq!(third.header.len(), 48);
    assert_eq!(third.reference.offset, 48);
    assert_eq!(third.reference.packet_id, "/tmp/capture.0001.pcapng-3");
}

#[test]
fn a_packet_larger_than_the_limit_has_a_file_of_its_own() {
    let mut writer = writer(0);
    assert!(writer.write(&[0; 9], 9, 0).open.is_none());
    assert!(writer.write(&[0; 9], 9, 0).open.is_some());
    assert!(writer.write(&[0; 9], 9, 0).open.is_some());
    assert_eq!(writer.rotation, 2);
    assert!(writer.can_write(100));
    assert!(!writer.can_write(u32::MAX as usize));
}

#[test]
fn rotations_are_numbered_with_four_digits() {
    let path = FilePath::new("x.pcap");
    assert_eq!(rotated_path(&path, 7).display(), "x.0007.pcap");
    assert_eq!(rotated_path(&path, 12345).display(), "x.12345.pcap");
}

#[test]
fn sizes_saturate_and_link_types_are_bounded() {
    assert_eq!(rotation_size(128), 134217728);
    assert_eq!(rotation_size(u64::MAX), u64::MAX);
    assert_eq!(file_link_type(1), Some(1));
    assert_eq!(file_link_type(-1), None);
    assert_eq!(file_link_type(65536), None);
}

#[test]
fn what_was_written_stays_where_its_reference_says() {
    let mut writer = writer(160);
    let mut files = vec![("/tmp/capture.pcapng".to_string(), writer.header(), 0)];
    let mut kept = Vec::new();
    for n in 1..40_u8 {
        let packet = vec![n; n as usize];
        let written = writer.write(&packet, packet.len(), n as u64);
        if let Some(path) = &written.open {
            let path = path.display();
            assert!(files.iter().all(|(other, _, _)| *other != path));
            files.push((path, written.header.clone(), 0));
        }
        let (path, bytes, packets) = files.last_mut().unwrap();
        assert_eq!(written.reference.file, *path);
        assert_eq!(written.reference.offset as usize, bytes.len());
        bytes.extend_from_slice(&written.block);
        *packets += 1;
        kept.push((written.reference, packet));
    }
    assert!(files.len() > 10);
    for (_, bytes, packets) in &files {
        assert!(*packets == 1 || bytes.len() <= 160);
    }
    for (reference, packet) in kept {
        let (_, bytes, _) = files.iter().find(|(path, _, _)| *path == reference.file).unwrap();
        let block = &bytes[reference.offset as usize..];
        assert_eq!(&block[..4], &6_u32.to_le_bytes());
        assert_eq!(&block[28..28 + packet.len()], &packet[..]);
    }
}

#[test]
fn rotated_files_never_share_a_path() {
    for path in ["x.pcap", "x", "x.", ".x", "d/x.0001.pcap", "..", "/", "d/x.pcap/"] {
        let path = FilePath::new(path);
        assert_ne!(rotated_path(&path, 1), path);
        assert_ne!(rotated_path(&path, 1), rotated_path(&path, 10));
        assert_ne!(rotated_path(&path, 1234), rotated_path(&path, 12340));
    }
}
