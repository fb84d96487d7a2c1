use iyes_mesh::io::{compress_payload, decompress_payload, exact_read, FrameOptions};

fn sample() -> Vec<u8> {
    let mut data = Vec::new();
    for i in 0..4000u32 {
        data.extend_from_slice(&(i % 97).to_le_bytes());
    }
    data
}

#[test]
fn bare_framing() {
    let f = FrameOptions::bare();
    assert!(!f.checksum);
    assert!(!f.content_size);
    assert!(!f.dict_id);
    assert!(!f.magic_bytes);
    assert!(f.long_distance_matching);
    assert_eq!(f.target_cblock_size, None);
}

#[test]
fn payload_round_trip() {
    let data = sample();
    for level in [1, 3, 19, 22] {
        let stream = compress_payload(&data, level).unwrap();
        assert_ne!(stream, data);
        assert!(stream.len() < data.len());
        let back = decompress_payload(&stream, data.len() as u64).unwrap();
        assert_eq!(back, data);
    }
}

#[test]
fn empty_payload_round_trip() {
    let stream = compress_payload(&[], 3).unwrap();
    assert!(!stream.is_empty());
    let back = decompress_payload(&stream, 0).unwrap();
    assert!(back.is_empty());
}

#[test]
fn stream_has_no_magic_bytes() {
    let data = sample();
    let stream = compress_payload(&data, 3).unwrap();
    assert_ne!(&stream[..4], &[0x28, 0xb5, 0x2f, 0xfd]);
    // a decoder that expects a standalone frame does not take the stream
    assert!(zstd::decode_all(stream.as_slice()).is_err());
    // and the stream is shorter than a standalone frame of the same data
    let framed = zstd::encode_all(data.as_slice(), 3).unwrap();
    assert!(stream.len() < framed.len());
}

#[test]
fn compression_does_not_depend_on_the_call() {
    let data = sample();
    assert_eq!(compress_payload(&data, 5).unwrap(), compress_payload(&data, 5).unwrap());
}

#[test]
fn only_the_first_bytes_are_decompressed() {
    let data = sample();
    let stream = compress_payload(&data, 3).unwrap();
    let head = decompress_payload(&stream, 10).unwrap();
    assert_eq!(head.as_slice(), &data[..10]);
    let none = decompress_payload(&stream, 0).unwrap();
    assert!(none.is_empty());
}

#[test]
fn stream_that_ends_too_early_is_an_error() {
    let data = sample();
    let stream = compress_payload(&data, 3).unwrap();
    let r = decompress_payload(&stream, data.len() as u64 + 1);
    assert_eq!(r.unwrap_err().kind(), std::io::ErrorKind::UnexpectedEof);
    let r = decompress_payload(&stream[..stream.len() / 2], data.len() as u64);
    assert!(r.is_err());
    let r = decompress_payload(&[], 1);
    assert!(r.is_err());
}

#[test]
fn broken_stream_is_an_error() {
    let r = decompress_payload(&[0xff; 64], 16);
    assert!(r.is_err());
}

#[test]
fn exactly_the_expected_bytes() {
    assert_eq!(exact_read(vec![1, 2, 3], 3).unwrap(), vec![1, 2, 3]);
    assert_eq!(exact_read(vec![], 0).unwrap(), Vec::<u8>::new());
    assert_eq!(
        exact_read(vec![1, 2, 3], 4).unwrap_err().kind(),
        std::io::ErrorKind::UnexpectedEof
    );
    assert!(exact_read(vec![1, 2, 3], 2).is_err());
}

#[test]
fn levels_out_of_range_are_taken() {
    let data = sample();
    for level in [i32::MIN, -1000, -1, 0, 23, 1000, i32::MAX] {
        let stream = compress_payload(&data, level).unwrap();
        let back = decompress_payload(&stream, data.len() as u64).unwrap();
        assert_eq!(back, data, "level {}", level);
    }
}
