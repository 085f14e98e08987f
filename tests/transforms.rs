use rw_builder::{AdhocWriter, Compression, Error, Pipeline, RwBuilder, VecBuilder};

const TEXT: &str = "This text is written from a String and read back into a String.";

fn round_trip_text(mut builder: rw_builder::StringBuilder, text: &str) -> String {
    builder.write_string(text).expect("String couldn't be written");
    builder.to_string().expect("String couldn't be read")
}

fn read_raw(pipeline: Pipeline) -> Vec<u8> {
    let source = pipeline.into_source();
    let mut reader = source.reader();
    let mut out = vec![0u8; source.len()];
    let n = reader.read(&source, &mut out);
    assert_eq!(n, out.len());
    out
}

#[test]
fn compression() {
    for level in [Compression::fast(), Compression::best(), Compression::none()] {
        let mut zlib = VecBuilder::default().zlib(level);
        zlib.write_string(TEXT).expect("String couldn't be written");
        assert_eq!(zlib.to_string().expect("String couldn't be read"), TEXT);

        let mut gz = VecBuilder::default().gz(level);
        gz.write_string(TEXT).expect("String couldn't be written");
        assert_eq!(gz.to_string().expect("String couldn't be read"), TEXT);

        let mut deflate = VecBuilder::default().deflate(level);
        deflate.write_string(TEXT).expect("String couldn't be written");
        assert_eq!(deflate.to_string().expect("String couldn't be read"), TEXT);
    }
}

#[test]
fn crc() {
    let expected_crc = 1_191_942_644;
    let data = [1u8, 2, 3, 4, 5];
    let mut builder = VecBuilder::default().crc();
    {
        let mut writer = builder.writer();
        let n = builder.write(&mut writer, &data).expect("Couldn't write data.");
        assert_eq!(n, 5);
        assert_eq!(writer.crc(0), Some(expected_crc));
    }
    {
        let mut reader = builder.reader();
        let mut buffer = vec![0u8; 64];
        let bytes_read = builder.read(&mut reader, &mut buffer).expect("Couldn't read into buffer.");
        assert_eq!(bytes_read, 5);
        assert_eq!(reader.crc(0), Some(expected_crc));
        assert_eq!(&buffer[..5], &data);
    }
}

#[test]
fn chacha20() {
    let key = [0x42; 32];
    let nonce = [0x24; 12];
    let actual = round_trip_text(VecBuilder::default().chacha20(key.into(), nonce.into()).string(), TEXT);
    assert_eq!(actual, TEXT);
}

#[test]
fn salsa20() {
    let key = [0x42; 32];
    let nonce = [0x24; 8];
    let actual = round_trip_text(VecBuilder::default().salsa20(key.into(), nonce.into()).string(), TEXT);
    assert_eq!(actual, TEXT);
}

#[test]
fn chacha20_matches_published_vector() {
    // Key 00..1f, nonce 00 00 00 00 00 00 00 4a 00 00 00 00, block counter 1.
    let key: [u8; 32] = core::array::from_fn(|i| i as u8);
    let nonce = [0, 0, 0, 0, 0, 0, 0, 0x4a, 0, 0, 0, 0];
    let plain = b"Ladies and Gentlemen of the class of '99: If I could offer you only one tip for the future, sunscreen would be it.";
    let mut builder = VecBuilder::default().chacha20(key, nonce);
    let mut writer = builder.writer();
    builder.write(&mut writer, &[0u8; 64]).unwrap();
    builder.write(&mut writer, plain).unwrap();
    let raw = read_raw(builder);
    let expected = [
        0x6e, 0x2e, 0x35, 0x9a, 0x25, 0x68, 0xf9, 0x80, 0x41, 0xba, 0x07, 0x28, 0xdd, 0x0d, 0x69, 0x81,
    ];
    assert_eq!(&raw[64..80], &expected);
}

#[test]
fn cipher_changes_the_stored_bytes() {
    let data: Vec<u8> = (0..200u8).collect();
    let mut chacha = VecBuilder::default().chacha20([7; 32], [9; 12]);
    chacha.write_all(&data).unwrap();
    let chacha_raw = read_raw(chacha);
    let mut salsa = VecBuilder::default().salsa20([7; 32], [9; 8]);
    salsa.write_all(&data).unwrap();
    let salsa_raw = read_raw(salsa);
    assert_eq!(chacha_raw.len(), data.len());
    assert_ne!(chacha_raw, data);
    assert_ne!(salsa_raw, data);
    assert_ne!(chacha_raw, salsa_raw);
}

#[test]
fn cipher_round_trip_empty_and_long() {
    for len in [0usize, 1, 63, 64, 65, 1023, 1024, 1025, 3000] {
        let data: Vec<u8> = (0..len).map(|i| (i * 31 % 251) as u8).collect();
        let mut builder = VecBuilder::default().chacha20([1; 32], [2; 12]).salsa20([3; 32], [4; 8]);
        builder.write_all(&data).unwrap();
        assert_eq!(builder.read_all().unwrap(), data);
    }
}

#[test]
fn call_sizes_do_not_matter() {
    let data: Vec<u8> = (0..500u32).map(|i| (i * 7 % 256) as u8).collect();
    for write_size in [1usize, 3, 64, 100, 500] {
        for read_size in [1usize, 7, 64, 1000] {
            let mut builder = VecBuilder::default().crc().chacha20([5; 32], [6; 12]).buffered();
            let mut writer = builder.writer();
            for chunk in data.chunks(write_size) {
                assert_eq!(builder.write(&mut writer, chunk).unwrap(), chunk.len());
            }
            let mut reader = builder.reader();
            let mut out = Vec::new();
            loop {
                let mut buf = vec![0u8; read_size];
                let n = builder.read(&mut reader, &mut buf).unwrap();
                out.extend_from_slice(&buf[..n]);
                if n < read_size {
                    break;
                }
            }
            assert_eq!(out, data);
            assert_eq!(reader.crc(0), writer.crc(0));
            assert!(reader.crc(0).is_some());
            assert_eq!(reader.crc(1), None);
        }
    }
}

#[test]
fn invalid_utf8_is_reported() {
    let mut pipeline = Pipeline::new(VecBuilder::default());
    pipeline.write_all(&[0xff, 0xfe]).unwrap();
    assert_eq!(pipeline.string().to_string(), Err(Error::Utf8));
}

#[test]
fn compressed_store_has_format_headers() {
    let mut zlib = VecBuilder::default().zlib(Compression::new(6));
    zlib.save(TEXT.as_bytes()).unwrap();
    let raw = read_raw(zlib.into_inner());
    assert_eq!(raw[0], 0x78);
    let mut gz = VecBuilder::default().gz(Compression::fast());
    gz.save(TEXT.as_bytes()).unwrap();
    let raw = read_raw(gz.into_inner());
    assert_eq!(&raw[..2], &[0x1f, 0x8b]);
}

#[test]
fn garbage_is_a_codec_error() {
    let mut pipeline = Pipeline::new(VecBuilder::default());
    pipeline.write_all(b"not compressed at all").unwrap();
    let zlib = pipeline.zlib(Compression::fast());
    assert_eq!(zlib.load(), Err(Error::Codec));
}

#[test]
fn compression_under_and_over_other_layers() {
    let mut s = VecBuilder::default()
        .chacha20([0x42; 32], [0x24; 12])
        .zlib(Compression::fast())
        .salsa20([1; 32], [2; 8])
        .buffered()
        .string();
    s.write_string(TEXT).expect("String couldn't be written");
    assert_eq!(s.to_string().expect("String couldn't be read"), TEXT);
    let mut empty = VecBuilder::default().gz(Compression::best()).chacha20([3; 32], [4; 12]);
    empty.write_string("").unwrap();
    assert_eq!(empty.to_string().unwrap(), "");
}

#[test]
fn crc_amount_counts_bytes() {
    let mut builder = VecBuilder::default().crc();
    let mut writer = builder.writer();
    builder.write(&mut writer, &[1, 2, 3, 4, 5]).unwrap();
    builder.write(&mut writer, &[6, 7]).unwrap();
    assert_eq!(writer.amount(0), Some(7));
    assert_eq!(writer.amount(1), None);
    let mut reader = builder.reader();
    let mut buf = [0u8; 4];
    assert_eq!(builder.read(&mut reader, &mut buf), Ok(4));
    assert_eq!(reader.amount(0), Some(4));
}

#[test]
fn cipher_reader_advances_by_bytes_read() {
    let mut b = VecBuilder::default().chacha20([0x42; 32], [0x24; 12]);
    let mut w = b.writer();
    let mut r = b.reader();
    assert_eq!(b.write(&mut w, &[1u8; 10]), Ok(10));
    let mut buf = [0u8; 16];
    assert_eq!(b.read(&mut r, &mut buf), Ok(10));
    assert_eq!(&buf[..10], &[1u8; 10]);
    assert_eq!(b.write(&mut w, &[2u8; 10]), Ok(10));
    let mut buf = [0u8; 16];
    assert_eq!(b.read(&mut r, &mut buf), Ok(10));
    assert_eq!(&buf[..10], &[2u8; 10]);
    assert_eq!(&buf[10..], &[0u8; 6]);
}

#[test]
fn empty_cipher_read_leaves_buffer_alone() {
    let mut b = VecBuilder::default().chacha20([0x42; 32], [0x24; 12]);
    let mut w = b.writer();
    assert_eq!(b.write(&mut w, &[]), Ok(0));
    let mut r = b.reader();
    let mut buf = [0u8; 16];
    assert_eq!(b.read(&mut r, &mut buf), Ok(0));
    assert_eq!(buf, [0u8; 16]);
}

#[test]
fn cipher_reads_in_blocks() {
    let p: Vec<u8> = (0..3000usize).map(|i| (i % 251) as u8).collect();
    let mut b = VecBuilder::default().chacha20([0x42; 32], [0x24; 12]);
    b.write_all(&p).unwrap();
    let mut r = b.reader();
    let mut out = Vec::new();
    for expected in [1024usize, 1024, 952, 0] {
        let mut buf = [0u8; 1024];
        assert_eq!(b.read(&mut r, &mut buf), Ok(expected));
        out.extend_from_slice(&buf[..expected]);
    }
    assert_eq!(out, p);
}
