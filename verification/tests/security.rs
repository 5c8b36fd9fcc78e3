use w2_rust::consts::{SERVER_LIST_KEY, SERVER_LIST_KEY_LEN};
use w2_rust::security::{decoders, encoders};

fn sample(len: usize) -> Vec<u8> {
    (0..len).map(|i| ((i * 37 + 11) % 256) as u8).collect()
}

#[test]
fn key_table_has_sixty_three_bytes_and_ends_in_zero() {
    assert_eq!(SERVER_LIST_KEY.len(), 63);
    assert_eq!(SERVER_LIST_KEY_LEN, 63);
    assert_eq!(SERVER_LIST_KEY[0], 0xc1);
    assert_eq!(SERVER_LIST_KEY[3], 0xcc);
    assert_eq!(SERVER_LIST_KEY[61], 0xbb);
    assert_eq!(SERVER_LIST_KEY[62], 0x00);
}

#[test]
fn server_list_decode_subtracts_the_key_of_the_place() {
    let mut body = vec![0u8; 7040];
    assert!(decoders::server_list(&mut body));
    // The first byte of a cell is skipped.
    assert_eq!(body[0], 0);
    assert_eq!(body[64], 0);
    assert_eq!(body[704], 0);
    // Offset k of a cell loses key[63 - k].
    assert_eq!(body[1], 0x00);
    assert_eq!(body[2], 0x45); // 0 - 0xbb
    assert_eq!(body[63], 0x3f); // 0 - 0xc1
    assert_eq!(body[60], 0x34); // 0 - 0xcc
    assert_eq!(body[64 + 63], 0x3f);
    assert_eq!(body[7039], 0x3f);
}

#[test]
fn server_list_decode_wraps_around() {
    let mut body = vec![0xc0u8; 7040];
    assert!(decoders::server_list(&mut body));
    assert_eq!(body[63], 0xff); // 0xc0 - 0xc1 wraps
    assert_eq!(body[62], 0x0a); // 0xc0 - 0xb6
    assert_eq!(body[0], 0xc0);
}

#[test]
fn server_list_encode_adds_the_key_of_the_place() {
    let mut body = vec![0xffu8; 7040];
    assert!(encoders::server_list(&mut body));
    assert_eq!(body[0], 0xff);
    assert_eq!(body[1], 0xff); // key[62] is zero
    assert_eq!(body[2], 0xba); // 0xff + 0xbb wraps
    assert_eq!(body[63], 0xc0); // 0xff + 0xc1 wraps
}

#[test]
fn server_list_every_position_follows_the_rule() {
    let before = sample(7040);
    let mut body = before.clone();
    assert!(decoders::server_list(&mut body));
    for p in 0..7040usize {
        let k = p % 64;
        if k == 0 {
            assert_eq!(body[p], before[p]);
        } else {
            assert_eq!(body[p], before[p].wrapping_sub(SERVER_LIST_KEY[63 - k]));
        }
    }
}

#[test]
fn server_list_round_trips_bit_for_bit() {
    let before = sample(7040);
    let mut body = before.clone();
    assert!(decoders::server_list(&mut body));
    assert_ne!(body, before);
    assert!(encoders::server_list(&mut body));
    assert_eq!(body, before);
    assert!(encoders::server_list(&mut body));
    assert!(decoders::server_list(&mut body));
    assert_eq!(body, before);
}

#[test]
fn server_list_short_buffer_is_left_alone() {
    let before = sample(7039);
    let mut body = before.clone();
    assert!(!decoders::server_list(&mut body));
    assert_eq!(body, before);
    assert!(!encoders::server_list(&mut body));
    assert_eq!(body, before);
    let mut empty: Vec<u8> = Vec::new();
    assert!(!decoders::server_list(&mut empty));
}

#[test]
fn server_list_bytes_beyond_the_body_stay() {
    let before = sample(7050);
    let mut body = before.clone();
    assert!(decoders::server_list(&mut body));
    assert_eq!(&body[7040..], &before[7040..]);
    assert_ne!(&body[..7040], &before[..7040]);
}

#[test]
fn server_name_first_byte_loses_one_hundred() {
    let mut buf = vec![5u8, 6, 7];
    decoders::server_name(&mut buf);
    assert_eq!(buf, vec![161u8, 6, 7]);
    encoders::server_name(&mut buf);
    assert_eq!(buf, vec![5u8, 6, 7]);
}

#[test]
fn server_name_only_the_first_byte_changes() {
    let before = sample(143);
    let mut buf = before.clone();
    decoders::server_name(&mut buf);
    assert_eq!(buf[0], before[0].wrapping_sub(100));
    assert_eq!(&buf[1..], &before[1..]);
    encoders::server_name(&mut buf);
    assert_eq!(buf, before);
}

#[test]
fn server_name_empty_buffer_stays_empty() {
    let mut buf: Vec<u8> = Vec::new();
    decoders::server_name(&mut buf);
    encoders::server_name(&mut buf);
    assert!(buf.is_empty());
}
