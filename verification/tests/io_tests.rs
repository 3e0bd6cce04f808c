use rafs::io::{MemReader, MemWriter, RafsIoRead, RafsIoWrite};

#[test]
fn test_rafs_io_writer() {
    let mut file = MemWriter::new();

    assert!(file.validate_alignment(2, 8).is_err());
    assert!(file.validate_alignment(7, 8).is_err());
    assert!(file.validate_alignment(9, 8).is_err());
    assert!(file.validate_alignment(8, 8).is_ok());

    file.write_all(&[0x0u8; 7]).unwrap();
    assert!(file.validate_alignment(8, 8).is_err());
    {
        let obj: &mut MemWriter = &mut file;
        obj.write_padding(1).unwrap();
    }
    assert!(file.validate_alignment(8, 8).is_ok());
    file.write_all(&[0x0u8; 1]).unwrap();
    assert!(file.validate_alignment(8, 8).is_err());

    let obj: &mut MemReader = &mut MemReader::new(file.into_inner());
    assert_eq!(obj.seek_to_offset(0).unwrap(), 0);
    assert_eq!(obj.seek_plus_offset(7).unwrap(), 7);
    assert_eq!(obj.seek_to_next_aligned(7, 8).unwrap(), 8);
    assert_eq!(obj.seek_plus_offset(7).unwrap(), 15);
}

#[test]
fn write_padding_refuses_oversize() {
    let mut w = MemWriter::new();
    assert!(w.write_padding(65).is_err());
    assert!(w.write_padding(64).is_ok());
    assert_eq!(w.len(), 64);
}

#[test]
fn write_at_cursor_overwrites_and_extends() {
    let mut w = MemWriter::new();
    w.write_all(&[1, 2, 3, 4]).unwrap();
    w.seek_to_offset(2).unwrap();
    w.write_all(&[9, 9, 9]).unwrap();
    assert_eq!(w.into_inner(), vec![1, 2, 9, 9, 9]);
}

#[test]
fn alignment_zero_disables_check() {
    let mut w = MemWriter::new();
    w.write_all(&[0u8; 3]).unwrap();
    assert_eq!(w.validate_alignment(5, 0).unwrap(), 5);
}

#[test]
fn reader_seeks_relative_to_end() {
    let mut r = MemReader::new(vec![0u8; 10]);
    assert_eq!(r.seek_to_end(-4).unwrap(), 6);
    assert_eq!(r.seek_to_end(0).unwrap(), 10);
}
