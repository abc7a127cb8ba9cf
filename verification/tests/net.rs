use sync::protocol::net::{
    check_status, check_trailer, data_text, encode, encode_frame, finish_frame, frame_sizes, next_block_len,
    next_file_block_len, string32_bytes, string32_text, NetError, ENCODE_KEY,
};
use sync::types::{BUFFER_SIZE, DEFAULT_ERROR, DEFAULT_OK, MAGIC_NUMBER};

fn roundtrip(data: &[u8]) -> Vec<u8> {
    let frame = encode_frame(data).unwrap();
    let (orig, packed) = frame_sizes(&frame[..8]);
    assert_eq!(orig, data.len());
    assert_eq!(frame.len(), 8 + packed + 1);
    let body = frame[8..8 + packed].to_vec();
    let trailer = frame[8 + packed];
    finish_frame(body, trailer, orig).unwrap()
}

#[test]
fn encode_twice_gives_back_the_bytes() {
    let mut b: Vec<u8> = (0..=255u8).collect();
    let orig = b.clone();
    encode(&mut b);
    assert_ne!(b, orig);
    assert_eq!(b[0], 0x5A);
    assert_eq!(b[5], 5 ^ 0x35);
    encode(&mut b);
    assert_eq!(b, orig);
}

#[test]
fn encode_key_is_the_greetings_prefix() {
    assert_eq!(&MAGIC_NUMBER.as_bytes()[..4], &ENCODE_KEY[..]);
}

#[test]
fn frame_roundtrips() {
    for data in [b"a".to_vec(), b"hello hello hello hello".to_vec(), vec![7u8; 10_000], (0..5000u32).map(|i| (i * 31 % 251) as u8).collect()] {
        assert_eq!(roundtrip(&data), data);
    }
}

#[test]
fn frame_layout() {
    let frame = encode_frame(b"abc").unwrap();
    assert_eq!(&frame[..4], &[0, 0, 0, 3]);
    assert_eq!(*frame.last().unwrap(), DEFAULT_OK);
    // the block is scrambled: unscrambling gives the LZ4 block, whose
    // token for three literal bytes is 0x30
    let mut body = frame[8..frame.len() - 1].to_vec();
    encode(&mut body);
    assert_eq!(body[0], 0x30);
    assert_eq!(&body[1..4], b"abc");
}

#[test]
fn empty_data_is_not_read_back() {
    let frame = encode_frame(b"").unwrap();
    assert_eq!(frame, vec![0, 0, 0, 0, 0, 0, 0, 0, DEFAULT_OK]);
    assert!(matches!(finish_frame(Vec::new(), DEFAULT_OK, 0), Err(NetError::Lz4(_))));
}

#[test]
fn bad_trailer_is_refused() {
    let frame = encode_frame(b"payload").unwrap();
    let (orig, packed) = frame_sizes(&frame[..8]);
    let body = frame[8..8 + packed].to_vec();
    assert!(matches!(finish_frame(body, DEFAULT_ERROR, orig), Err(NetError::InvalidData)));
}

#[test]
fn garbage_block_is_refused() {
    assert!(matches!(finish_frame(vec![0xff, 0xff, 0xff], DEFAULT_OK, 10), Err(NetError::Lz4(_))));
}

#[test]
fn header_sizes() {
    assert_eq!(frame_sizes(&[0, 0, 1, 2, 0x7f, 0, 0, 0xff]), (258, 0x7f0000ff));
}

#[test]
fn string32() {
    let b = string32_bytes("Z53Yj@e29").unwrap();
    assert_eq!(b.len(), 32);
    assert_eq!(&b[..9], b"Z53Yj@e29");
    assert!(b[9..].iter().all(|&c| c == b' '));
    assert_eq!(string32_text(&b).unwrap(), "Z53Yj@e29");
    let s32 = "x".repeat(32);
    assert_eq!(string32_bytes(&s32).unwrap(), s32.as_bytes());
    assert!(matches!(string32_bytes(&"x".repeat(33)), Err(NetError::InvalidData)));
    assert!(matches!(string32_bytes(&"é".repeat(17)), Err(NetError::InvalidData)));
    assert_eq!(string32_text(&string32_bytes("  ü ").unwrap()).unwrap(), "ü");
    assert!(matches!(string32_text(&[0xff; 32]), Err(NetError::InvalidData)));
}

#[test]
fn text_of_data() {
    assert_eq!(data_text(b"ok".to_vec()).unwrap(), "ok");
    assert_eq!(data_text("żółw".as_bytes().to_vec()).unwrap(), "żółw");
    assert!(matches!(data_text(vec![0xc0, 0x80]), Err(NetError::InvalidData)));
    assert!(matches!(data_text(vec![0xed, 0xa0, 0x80]), Err(NetError::InvalidData)));
}

#[test]
fn status_bytes() {
    assert_eq!(check_status(DEFAULT_OK).unwrap(), DEFAULT_OK);
    assert_eq!(check_status(101).unwrap(), 101);
    assert!(matches!(check_status(DEFAULT_ERROR), Err(NetError::InvalidData)));
}

#[test]
fn blocks_cover_a_transfer() {
    for total in [0usize, 1, 4095, 4096, 4097, 10_000] {
        let mut pos = 0;
        let mut lens = vec![];
        loop {
            let r = next_block_len(pos, total);
            lens.push(r);
            pos += r;
            if pos == total {
                break;
            }
        }
        assert_eq!(lens.iter().sum::<usize>(), total);
        assert!(lens[..lens.len() - 1].iter().all(|&l| l == BUFFER_SIZE));
    }
    assert_eq!(next_file_block_len(0, 10_000), 4096);
    assert_eq!(next_file_block_len(8192, 10_000), 1808);
    assert_eq!(next_file_block_len(5, 5), 0);
    assert_eq!(next_file_block_len(u64::MAX - 10, u64::MAX), 10);
}

#[test]
fn blockwise_scrambling_is_whole_scrambling() {
    let data: Vec<u8> = (0..10_000u32).map(|i| (i % 256) as u8).collect();
    let mut whole = data.clone();
    encode(&mut whole);
    let mut blocks = Vec::new();
    let mut pos = 0usize;
    while pos < data.len() {
        let r = next_block_len(pos, data.len());
        let mut b = data[pos..pos + r].to_vec();
        encode(&mut b);
        blocks.extend_from_slice(&b);
        pos += r;
    }
    assert_eq!(blocks, whole);
}

#[test]
fn trailers() {
    assert!(check_trailer(DEFAULT_OK).is_ok());
    assert!(matches!(check_trailer(DEFAULT_ERROR), Err(NetError::InvalidData)));
    assert!(matches!(check_trailer(7), Err(NetError::InvalidData)));
}

#[test]
fn large_frame_round_trips() {
    let data: Vec<u8> = (0..200_000u32).map(|i| (i * 7 % 251) as u8).collect();
    assert_eq!(roundtrip(&data), data);
}
