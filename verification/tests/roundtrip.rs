use gta_img::error::ReadError;
use gta_img::name::read_null_terminated;
use gta_img::name::to_null_terminated;
use gta_img::read::Reader;
use gta_img::read::V1Reader;
use gta_img::read::V2Reader;
use gta_img::sector::bytes_to_sectors;
use gta_img::sector::padding_len;
use gta_img::sector::sectors_to_bytes;
use gta_img::write::V1Writer;
use gta_img::write::V2Writer;
use gta_img::write::Writer;

#[test]
fn test_v1_write_then_read_round_trip() {
    let mut writer = V1Writer::new();

    let first: Vec<u8> = vec![1u8; 100];
    let second: Vec<u8> = vec![2u8; 5000];
    let third: Vec<u8> = vec![3u8; 2048];

    writer.write("FIRST.DFF", &first).expect("failed to write first entry");
    writer.write("SECOND.DFF", &second).expect("failed to write second entry");
    writer.write("THIRD.DFF", &third).expect("failed to write third entry");

    let archive = V1Reader::new(writer.dir().clone(), writer.img().clone())
        .read()
        .expect("failed to parse written archive");

    assert_eq!(archive.len(), 3);

    let e0 = archive.get(0).unwrap();
    assert_eq!((e0.name.as_str(), e0.off, e0.len), ("FIRST.DFF", 0, 1));
    let e1 = archive.get(1).unwrap();
    assert_eq!((e1.name.as_str(), e1.off, e1.len), ("SECOND.DFF", 1, 3));
    let e2 = archive.get(2).unwrap();
    assert_eq!((e2.name.as_str(), e2.off, e2.len), ("THIRD.DFF", 4, 1));

    // The payload bytes come back exactly, with padding trimmed to the
    // sector-aligned entry length.
    let mut stream = archive.open(1).expect("expected second entry");
    let mut buf = vec![0u8; 8192];
    let n = stream.read(&mut buf);
    assert_eq!(n, 6144);
    assert!(buf[0..5000].iter().all(|&b| b == 2));
    assert!(buf[5000..6144].iter().all(|&b| b == 0));
}

#[test]
fn test_v2_write_then_read_round_trip() {
    let mut writer = V2Writer::new(2);

    let first: Vec<u8> = b"alpha".to_vec();
    let second: Vec<u8> = vec![7u8; 4096];

    writer.write("ALPHA.TXD", &first).expect("failed to write first entry");
    writer.write("BETA.TXD", &second).expect("failed to write second entry");

    let img = writer.img().clone();

    // The magic bytes are exactly `56 45 52 32`.
    assert_eq!(img[0..4], [0x56, 0x45, 0x52, 0x32]);

    let archive = V2Reader::new(img).read().expect("failed to parse written archive");

    assert_eq!(archive.len(), 2);

    let e0 = archive.get(0).unwrap();
    assert_eq!((e0.name.as_str(), e0.off, e0.len), ("ALPHA.TXD", 1, 1));
    let e1 = archive.get(1).unwrap();
    assert_eq!((e1.name.as_str(), e1.off, e1.len), ("BETA.TXD", 2, 2));

    let mut stream = archive.open(0).expect("expected first entry");
    let mut buf = vec![0u8; 2048];
    let n = stream.read(&mut buf);
    assert_eq!(n, 2048);
    assert_eq!(&buf[0..5], &b"alpha"[..]);
    assert!(buf[5..2048].iter().all(|&b| b == 0));
}

#[test]
fn test_name_round_trip() {
    // Encoding a representable name and decoding it gives it back exactly.
    let field = to_null_terminated("VIRGO.DFF");
    assert_eq!(read_null_terminated(&field), "VIRGO.DFF");

    // A 35-character name keeps exactly its 23-byte content prefix.
    let long = "SomebodyOnceToldMeWorldGonnaRollMe!";
    assert_eq!(long.len(), 35);
    let field = to_null_terminated(long);
    assert_eq!(read_null_terminated(&field), "SomebodyOnceToldMeWorld");
}

#[test]
fn test_chunked_reads_match_one_large_read() {
    let mut writer = V1Writer::new();
    let payload: Vec<u8> = (0..2048u32).map(|i| (i % 251) as u8).collect();
    writer.write("DATA.BIN", &payload).expect("failed to write entry");

    let archive = V1Reader::new(writer.dir().clone(), writer.img().clone())
        .read()
        .expect("failed to parse archive");

    // One large read.
    let mut whole = vec![0u8; 4096];
    let mut stream = archive.open(0).expect("expected entry");
    let n = stream.read(&mut whole);
    assert_eq!(n, 2048);

    // The same entry in 1024-byte chunks.
    let mut chunked = Vec::new();
    let mut stream = archive.open(0).expect("expected entry");
    let mut buf = vec![0u8; 1024];
    loop {
        let n = stream.read(&mut buf);
        if n == 0 {
            break;
        }
        chunked.extend_from_slice(&buf[0..n]);
    }

    assert_eq!(chunked[..], whole[0..2048]);
    assert_eq!(chunked[0..2048], payload[0..2048]);

    // At the end of the entry, further reads keep producing zero bytes.
    assert_eq!(stream.read(&mut buf), 0);
    assert_eq!(stream.read(&mut buf), 0);
}

#[test]
fn test_concrete_v1_scenario() {
    // A V1 archive with VIRGO.DFF and LANDSTAL.DFF, one sector of content
    // each: parsing yields their index entries, and reading the first
    // entry's first bytes yields the literal payload text.
    let mut writer = V1Writer::new();
    let mut virgo = vec![0u8; 2048];
    virgo[0..8].copy_from_slice(b"Virgo-v1");
    let landstal = vec![0u8; 2048];

    writer.write("VIRGO.DFF", &virgo).expect("failed to write first entry");
    writer.write("LANDSTAL.DFF", &landstal).expect("failed to write second entry");

    let archive = V1Reader::new(writer.dir().clone(), writer.img().clone())
        .read()
        .expect("failed to parse archive");

    let first = archive.get(0).expect("expected first entry");
    assert_eq!((first.name.as_str(), first.off, first.len), ("VIRGO.DFF", 0, 1));
    let second = archive.get(1).expect("expected second entry");
    assert_eq!((second.name.as_str(), second.off, second.len), ("LANDSTAL.DFF", 1, 1));

    let mut stream = archive.open(0).expect("expected first entry");
    let mut buf = vec![0u8; 8];
    let n = stream.read(&mut buf);
    assert_eq!(n, 8);
    assert_eq!(&buf[..], b"Virgo-v1");
}

#[test]
fn test_sector_arithmetic() {
    assert_eq!(bytes_to_sectors(0), 0);
    assert_eq!(bytes_to_sectors(1), 1);
    assert_eq!(bytes_to_sectors(2048), 1);
    assert_eq!(bytes_to_sectors(2049), 2);
    assert_eq!(bytes_to_sectors(4096), 2);
    assert_eq!(sectors_to_bytes(0), 0);
    assert_eq!(sectors_to_bytes(3), 6144);
    assert_eq!(padding_len(1, 2048), 0);
    assert_eq!(padding_len(2, 2049), 2047);
    assert_eq!(padding_len(0, 5), 0);
}

#[test]
fn test_version_dispatch_errors() {
    let err = gta_img::read(gta_img::Version::V2 { img: b"NOPE1234".to_vec() }).unwrap_err();
    assert!(matches!(err, ReadError::InvalidHeader));

    let err = gta_img::read(gta_img::Version::V1 {
        dir: vec![1, 2, 3],
        img: Vec::new(),
    })
    .unwrap_err();
    assert!(matches!(err, ReadError::UnexpectedEof));
}

#[test]
fn test_empty_buffer_read() {
    let mut writer = V1Writer::new();
    let payload: Vec<u8> = b"abc".to_vec();
    writer.write("ABC.BIN", &payload).expect("failed to write entry");

    let archive = V1Reader::new(writer.dir().clone(), writer.img().clone())
        .read()
        .expect("failed to parse archive");

    let mut stream = archive.open(0).expect("expected entry");
    let mut empty: Vec<u8> = Vec::new();
    assert_eq!(stream.read(&mut empty), 0);

    let mut buf = vec![0u8; 3];
    assert_eq!(stream.read(&mut buf), 3);
    assert_eq!(&buf[..], b"abc");
}
