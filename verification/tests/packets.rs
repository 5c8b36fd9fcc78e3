use w2_rust::encodings::{utf8_to_windows1252, windows1252_to_utf8};
use w2_rust::packets::serializer::{deserialize, read_u16, read_u32, serialize, write_u16, write_u32};
use w2_rust::packets::strings::{bytes_to_str, fill, str_to_bytes};
use w2_rust::packets::structs::header::SHeader;
use w2_rust::packets::structs::packets::p101::P101;
use w2_rust::packets::structs::packets::p20d::P20D;

#[test]
fn header_new_is_all_zero() {
    let h = SHeader::new();
    assert_eq!(
        h,
        SHeader { size: 0, key: 0, checksum: 0, packet_id: 0, client_id: 0, timestamp: 0 }
    );
}

#[test]
fn header_new_packet_declares_the_size_of_the_packet() {
    let h = SHeader::new_packet::<P101>(0x101);
    assert_eq!(h.size, 140);
    assert_eq!(h.packet_id, 0x101);
    assert_eq!(h.key, 0);
    assert_eq!(h.checksum, 0);
    assert_eq!(h.client_id, 0);
    assert_eq!(h.timestamp, 0);
    assert_eq!(SHeader::new_packet::<SHeader>(7).size, 12);
    assert_eq!(SHeader::new_packet::<P20D>(0x20d).size, 116);
}

#[test]
fn header_serializes_little_endian_and_packed() {
    let h = SHeader {
        size: 0x0110,
        key: 0xaa,
        checksum: 0xbb,
        packet_id: 0x0203,
        client_id: 0x0405,
        timestamp: 0x0a0b0c0d,
    };
    let bytes = serialize(&h);
    assert_eq!(
        bytes,
        vec![0x10, 0x01, 0xaa, 0xbb, 0x03, 0x02, 0x05, 0x04, 0x0d, 0x0c, 0x0b, 0x0a]
    );
    assert_eq!(deserialize::<SHeader>(&bytes), Some(h));
}

#[test]
fn header_deserializes_the_scenario_bytes() {
    let bytes = [0x10u8, 0, 0, 0, 1, 0, 2, 0, 3, 0, 0, 0];
    let h = deserialize::<SHeader>(&bytes).unwrap();
    assert_eq!(
        h,
        SHeader { size: 16, key: 0, checksum: 0, packet_id: 1, client_id: 2, timestamp: 3 }
    );
}

#[test]
fn deserialize_rejects_another_length() {
    assert_eq!(deserialize::<SHeader>(&[0u8; 11]), None);
    assert_eq!(deserialize::<SHeader>(&[0u8; 13]), None);
    assert_eq!(deserialize::<SHeader>(&[]), None);
    assert!(deserialize::<P101>(&[0u8; 139]).is_none());
    assert!(deserialize::<P20D>(&[0u8; 117]).is_none());
}

#[test]
fn numbers_read_and_write_little_endian() {
    let mut out = Vec::new();
    write_u16(&mut out, 0xabcd);
    write_u32(&mut out, 0x01020304);
    assert_eq!(out, vec![0xcd, 0xab, 0x04, 0x03, 0x02, 0x01]);
    assert_eq!(read_u16(&out, 0), 0xabcd);
    assert_eq!(read_u32(&out, 2), 0x01020304);
    let mut max = Vec::new();
    write_u16(&mut max, u16::MAX);
    write_u32(&mut max, u32::MAX);
    assert_eq!(max, vec![0xff; 6]);
    assert_eq!(read_u32(&max, 2), u32::MAX);
}

#[test]
fn encoding_maps_latin_letters_to_single_bytes() {
    assert_eq!(utf8_to_windows1252("abc"), b"abc".to_vec());
    assert_eq!(utf8_to_windows1252("é"), vec![0xe9]);
    assert_eq!(utf8_to_windows1252("€"), vec![0x80]);
    assert_eq!(utf8_to_windows1252("ação"), vec![b'a', 0xe7, 0xe3, b'o']);
    assert_eq!(utf8_to_windows1252(""), Vec::<u8>::new());
}

#[test]
fn decoding_maps_single_bytes_to_letters_and_trims() {
    assert_eq!(windows1252_to_utf8(b"abc"), "abc");
    assert_eq!(windows1252_to_utf8(&[0xe9]), "é");
    assert_eq!(windows1252_to_utf8(&[0x80]), "€");
    assert_eq!(windows1252_to_utf8(b"  padded \t\r\n"), "padded");
    assert_eq!(windows1252_to_utf8(b""), "");
}

#[test]
fn bytes_to_str_keeps_white_space_and_zeros() {
    assert_eq!(bytes_to_str(b" a "), " a ");
    assert_eq!(bytes_to_str(&[b'h', b'i', 0, 0]), "hi\0\0");
    assert_eq!(bytes_to_str(&[0xc7]), "Ç");
}

#[test]
fn str_to_bytes_pads_with_zeros() {
    let mut field = [0xffu8; 8];
    str_to_bytes(&mut field, "abc");
    assert_eq!(field, [b'a', b'b', b'c', 0, 0, 0, 0, 0]);
}

#[test]
fn str_to_bytes_cuts_what_does_not_fit() {
    let mut field = [0u8; 4];
    str_to_bytes(&mut field, "abcdefgh");
    assert_eq!(field, [b'a', b'b', b'c', b'd']);
}

#[test]
fn str_to_bytes_drops_zero_bytes_and_encodes() {
    let mut field = [0xffu8; 6];
    str_to_bytes(&mut field, "a\0é\0b");
    assert_eq!(field, [b'a', 0xe9, b'b', 0, 0, 0]);
    let mut none: [u8; 0] = [];
    str_to_bytes(&mut none, "abc");
}

#[test]
fn fill_takes_encoded_bytes_as_they_are() {
    let mut field = [1u8; 5];
    fill(&mut field, &[0, 9, 0, 8, 7, 0, 6, 5]);
    assert_eq!(field, [9, 8, 7, 6, 5]);
    fill(&mut field, &[0, 0]);
    assert_eq!(field, [0; 5]);
}

#[test]
fn p101_new_carries_the_message() {
    let p = P101::new("hello");
    assert_eq!(p.header.size, 140);
    assert_eq!(p.header.packet_id, 0x101);
    assert_eq!(p.get_header().packet_id, 0x101);
    let mut expected = String::from("hello");
    expected.push_str(&"\0".repeat(75));
    assert_eq!(p.get_message(), expected);
}

#[test]
fn p101_set_message_replaces_the_text() {
    let mut p = P101::new("first");
    p.set_message("olá");
    let text = p.get_message();
    assert_eq!(text.chars().count(), 80);
    assert!(text.starts_with("olá\0"));
    assert_eq!(text.trim_end_matches('\0'), "olá");
    assert_eq!(p.header.size, 140);
}

#[test]
fn p101_long_message_is_cut_to_eighty_bytes() {
    let long = "x".repeat(100);
    let p = P101::new(&long);
    assert_eq!(p.get_message(), "x".repeat(80));
}

#[test]
fn p101_serializes_to_140_bytes_and_back() {
    let p = P101::new("abc");
    let bytes = serialize(&p);
    assert_eq!(bytes.len(), 140);
    assert_eq!(&bytes[0..2], &[140, 0]);
    assert_eq!(&bytes[4..6], &[0x01, 0x01]);
    assert_eq!(&bytes[12..15], b"abc");
    assert!(bytes[15..].iter().all(|b| *b == 0));
    let q = deserialize::<P101>(&bytes).unwrap();
    assert_eq!(serialize(&q), bytes);
    assert_eq!(q.get_message(), p.get_message());
}

#[test]
fn p20d_reads_its_names_from_the_wire() {
    let mut bytes = vec![0u8; 116];
    bytes[0] = 116;
    bytes[4] = 0x0d;
    bytes[5] = 0x02;
    bytes[12..18].copy_from_slice(b"secret");
    bytes[24..28].copy_from_slice(b"user");
    bytes[92..96].copy_from_slice(&[1, 0, 0, 0]);
    bytes[96..100].copy_from_slice(&[2, 1, 0, 0]);
    bytes[100] = 0xaa;
    let p = deserialize::<P20D>(&bytes).unwrap();
    assert_eq!(p.header.size, 116);
    assert_eq!(p.header.packet_id, 0x20d);
    assert_eq!(p.get_password(), "secret\0\0\0\0\0\0");
    assert_eq!(p.get_username(), "user\0\0\0\0\0\0\0\0");
    assert_eq!(p.what1, 1);
    assert_eq!(p.what2, 258);
    assert_eq!(p.mac_id[0], 0xaa);
    assert_eq!(serialize(&p), bytes);
}

#[test]
fn decoding_reads_every_byte_in_the_legacy_encoding() {
    // Bytes that open like a byte-order mark are text like any other.
    assert_eq!(windows1252_to_utf8(&[0xef, 0xbb, 0xbf, 0xc3, 0xa9]), "ï»¿Ã©");
    assert_eq!(bytes_to_str(&[0xff, 0xfe, b'a', 0]), "ÿþa\0");
    assert_eq!(bytes_to_str(&[0xfe, 0xff, 0, b'a']), "þÿ\0a");
    assert_eq!(bytes_to_str(&[0xef, 0xbb, b'a']), "ï»a");
    for b in 0..=255u8 {
        assert_eq!(bytes_to_str(&[b, b'x']).chars().count(), 2);
    }
    assert_eq!(bytes_to_str(&[0x80, 0x99, 0xa0, 0xff]), "€™\u{a0}ÿ");
}

#[test]
fn encoding_writes_what_the_charset_lacks_as_a_reference() {
    assert_eq!(utf8_to_windows1252("日"), b"&#26085;".to_vec());
    let mut field = [0xffu8; 4];
    str_to_bytes(&mut field, "日");
    assert_eq!(&field, b"&#26");
}
