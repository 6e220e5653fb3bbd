use gta_img::error::ReadError;
use gta_img::name::read_null_terminated;
use gta_img::read::Reader;
use gta_img::read::V1Reader;
use gta_img::read::V2Reader;

/// The 24-byte on-disk name field for an ASCII name.
fn name_field(name: &str) -> Vec<u8> {
    let mut field: Vec<u8> = name.bytes().take(24).collect();
    field.resize(24, 0);
    field
}

/// One V1 index record.
fn v1_record(off: u32, len: u32, name: &str) -> Vec<u8> {
    let mut rec = Vec::new();
    rec.extend_from_slice(&off.to_le_bytes());
    rec.extend_from_slice(&len.to_le_bytes());
    rec.extend_from_slice(&name_field(name));
    rec
}

/// One V2 table record.
fn v2_record(off: u32, len: u16, name: &str) -> Vec<u8> {
    let mut rec = Vec::new();
    rec.extend_from_slice(&off.to_le_bytes());
    rec.extend_from_slice(&len.to_le_bytes());
    rec.extend_from_slice(&[0, 0]);
    rec.extend_from_slice(&name_field(name));
    rec
}

/// The index of the three-entry V1 fixture archive.
fn v1_dir_fixture() -> Vec<u8> {
    let mut dir = Vec::new();
    dir.extend_from_slice(&v1_record(0, 1, "VIRGO.DFF"));
    dir.extend_from_slice(&v1_record(1, 2, "LANDSTAL.DFF"));
    dir.extend_from_slice(&v1_record(3, 8, "abcdefghijklmnopqrstuvwx"));
    dir
}

/// The data of the V1 fixture archive: eleven sectors, the first starting
/// with the literal bytes of "Virgo-v1".
fn v1_img_fixture() -> Vec<u8> {
    let mut img = vec![0u8; 11 * 2048];
    img[0..8].copy_from_slice(b"Virgo-v1");
    img
}

/// The combined V2 fixture archive: header, three table records, and the
/// first payload sector starting with the literal bytes of "Virgo-v2".
fn v2_img_fixture() -> Vec<u8> {
    let mut img = Vec::new();
    img.extend_from_slice(&[0x56, 0x45, 0x52, 0x32]);
    img.extend_from_slice(&3u32.to_le_bytes());
    img.extend_from_slice(&v2_record(1, 1, "VIRGO.DFF"));
    img.extend_from_slice(&v2_record(2, 1, "LANDSTAL.DFF"));
    img.extend_from_slice(&v2_record(3, 8, "abcdefghijklmnopqrstuvwx"));
    img.resize(11 * 2048, 0);
    img[2048..2056].copy_from_slice(b"Virgo-v2");
    img
}

#[test]
fn read_test_to_name() {
    let bytes = vec![b'V', b'I', b'R', b'G', b'O', b'.', b'D', b'F', b'F', 0];
    let string = read_null_terminated(&bytes);

    assert_eq!(string, "VIRGO.DFF");
}

#[test]
fn read_test_to_name_truncate() {
    let bytes = vec![
        b'S', b'o', b'm', b'e', b'b', b'o', b'd', b'y', b'O', b'n', b'c', b'e', b'T', b'o', b'l',
        b'd', b'M', b'e', b'W', b'o', b'r', b'l', b'd', b'G', b'o', b'n', b'n', b'a', b'R', b'o',
        b'l', b'l', b'M', b'e', 0,
    ];

    let string = read_null_terminated(&bytes);

    assert_eq!(string, "SomebodyOnceToldMeWorldG");
}

#[test]
fn test_read_v1() {
    let dir = v1_dir_fixture();
    let img = v1_img_fixture();

    let archive = V1Reader::new(dir, img).read().expect("failed to read archive");

    assert_eq!(archive.len(), 3);

    let virgo = archive.get(0).expect("expected first entry");
    let landstal = archive.get(1).expect("expected second entry");
    let test = archive.get(2).expect("expected third entry");

    assert_eq!(virgo.name, "VIRGO.DFF");
    assert_eq!(virgo.off, 0);
    assert_eq!(virgo.len, 1);

    assert_eq!(landstal.name, "LANDSTAL.DFF");
    assert_eq!(landstal.off, 1);
    assert_eq!(landstal.len, 2);

    assert_eq!(test.name, "abcdefghijklmnopqrstuvwx");
    assert_eq!(test.off, 3);
    assert_eq!(test.len, 8);
}

#[test]
fn test_read_v1_entry() {
    let dir = v1_dir_fixture();
    let img = v1_img_fixture();

    let archive = V1Reader::new(dir, img).read().expect("failed to read archive");
    let mut virgo = archive.open(0).expect("expected first entry");

    let mut buf = vec![0u8; 4096];
    let len = virgo.read(&mut buf);

    assert_eq!(buf[0..8], [b'V', b'i', b'r', b'g', b'o', b'-', b'v', b'1']);
    assert_eq!(len, 2048);
    assert_eq!(virgo.read(&mut buf), 0);
}

#[test]
fn test_read_v2() {
    let img = v2_img_fixture();

    let archive = V2Reader::new(img).read().expect("failed to read archive");

    assert_eq!(archive.len(), 3);

    let virgo = archive.get(0).expect("expected first entry");
    let landstal = archive.get(1).expect("expected second entry");
    let longer = archive.get(2).expect("expected third entry");

    assert_eq!(virgo.name, "VIRGO.DFF");
    assert_eq!(virgo.off, 1);
    assert_eq!(virgo.len, 1);

    assert_eq!(landstal.name, "LANDSTAL.DFF");
    assert_eq!(landstal.off, 2);
    assert_eq!(landstal.len, 1);

    assert_eq!(longer.name, "abcdefghijklmnopqrstuvwx");
    assert_eq!(longer.off, 3);
    assert_eq!(longer.len, 8);
}

#[test]
fn test_read_v2_entry() {
    let img = v2_img_fixture();

    let archive = V2Reader::new(img).read().expect("failed to read archive");
    let mut virgo = archive.open(0).expect("expected first entry");

    let mut buf = vec![0u8; 4096];
    let len = virgo.read(&mut buf);

    assert_eq!(buf[0..8], [b'V', b'i', b'r', b'g', b'o', b'-', b'v', b'2']);
    assert_eq!(len, 2048);
    assert_eq!(virgo.read(&mut buf), 0);
}

#[test]
fn test_read_entry_partial() {
    let dir = v1_dir_fixture();
    let img = v1_img_fixture();

    let archive = V1Reader::new(dir, img).read().expect("failed to read archive");
    let mut entry = archive.open(0).expect("expected first entry");

    let mut buf = vec![0u8; 1024];
    let num = entry.read(&mut buf);

    assert_eq!(buf[0..8], [b'V', b'i', b'r', b'g', b'o', b'-', b'v', b'1']);
    assert_eq!(num, 1024);

    let num = entry.read(&mut buf);

    assert_eq!(num, 1024);

    let num = entry.read(&mut buf);

    assert_eq!(num, 0);
}

#[test]
fn test_read_version_dispatch() {
    let archive = gta_img::read(gta_img::Version::V1 {
        dir: v1_dir_fixture(),
        img: v1_img_fixture(),
    })
    .expect("failed to read V1 archive");
    assert_eq!(archive.len(), 3);

    let archive = gta_img::read(gta_img::Version::V2 { img: v2_img_fixture() })
        .expect("failed to read V2 archive");
    assert_eq!(archive.len(), 3);
    assert!(!archive.is_empty());
}

#[test]
fn test_read_v1_empty() {
    let archive = V1Reader::new(Vec::new(), Vec::new()).read().expect("failed to read archive");

    assert_eq!(archive.len(), 0);
    assert!(archive.is_empty());
    assert!(archive.get(0).is_none());
    assert!(archive.open(0).is_none());
}

#[test]
fn test_read_v1_truncated_record() {
    let mut dir = v1_dir_fixture();
    dir.pop();

    let err = V1Reader::new(dir, v1_img_fixture()).read().unwrap_err();

    assert!(matches!(err, ReadError::UnexpectedEof));
}

#[test]
fn test_read_v2_bad_magic() {
    let mut img = v2_img_fixture();
    img[3] = b'3';

    let err = V2Reader::new(img).read().unwrap_err();

    assert!(matches!(err, ReadError::InvalidHeader));
    assert_eq!(err.message(), "invalid header");
}

#[test]
fn test_read_v2_truncated() {
    let err = V2Reader::new(vec![0x56, 0x45]).read().unwrap_err();
    assert!(matches!(err, ReadError::UnexpectedEof));
    assert_eq!(err.message(), "unexpected end of stream");

    let err = V2Reader::new(vec![0x56, 0x45, 0x52, 0x32, 9]).read().unwrap_err();
    assert!(matches!(err, ReadError::UnexpectedEof));

    let mut img = v2_img_fixture();
    img.truncate(64);
    let err = V2Reader::new(img).read().unwrap_err();
    assert!(matches!(err, ReadError::UnexpectedEof));
}

#[test]
fn test_read_iter() {
    let archive = V1Reader::new(v1_dir_fixture(), v1_img_fixture())
        .read()
        .expect("failed to read archive");

    let names: Vec<&str> = archive.iter().iter().map(|e| e.name.as_str()).collect();

    assert_eq!(names, ["VIRGO.DFF", "LANDSTAL.DFF", "abcdefghijklmnopqrstuvwx"]);
}

#[test]
fn test_read_truncated_data_source() {
    // The data buffer is shorter than the entry claims: the failure shows
    // at read time, as zero bytes produced, not at parse time.
    let dir = v1_record(0, 1, "SHORT.DFF");
    let img = vec![7u8; 100];

    let archive = V1Reader::new(dir, img).read().expect("failed to read archive");
    let mut entry = archive.open(0).expect("expected entry");

    let mut buf = vec![0u8; 4096];
    assert_eq!(entry.read(&mut buf), 100);
    assert_eq!(entry.read(&mut buf), 0);
}
