use w2_rust::consts::{
    SERVER_LIST_FILE, SERVER_LIST_SIZE, SERVER_NAME_FILE, SERVER_NAME_SIZE, STRDEF_FILE,
    STRDEF_MESSAGES_LEN, STRDEF_SIZE,
};
use w2_rust::errors::ErrorKind;
use w2_rust::security::{decoders, encoders};
use w2_rust::structs::server_list::ServerList;
use w2_rust::structs::server_name::ServerName;
use w2_rust::structs::strdef::Strdef;
use w2_rust::structs::ZStr;

fn pattern(len: usize) -> Vec<u8> {
    (0..len).map(|i| ((i * 31 + 7) % 251) as u8).collect()
}

fn clear_server_list() -> Vec<u8> {
    let mut clear = vec![0u8; 7044];
    clear[0..4].copy_from_slice(&[0x78, 0x56, 0x34, 0x12]);
    for world in 0..10 {
        let base = 4 + world * 704;
        let url = format!("world{}.example.org", world);
        clear[base..base + url.len()].copy_from_slice(url.as_bytes());
        for channel in 0..10 {
            let at = base + 64 * (channel + 1);
            let addr = format!("10.0.{}.{}", world, channel);
            clear[at..at + addr.len()].copy_from_slice(addr.as_bytes());
        }
    }
    clear
}

fn server_list_file() -> Vec<u8> {
    let mut file = clear_server_list();
    assert!(encoders::server_list(&mut file[4..]));
    file
}

#[test]
fn sizes_and_names_of_the_files() {
    assert_eq!(SERVER_LIST_SIZE, 4 + 10 * (64 + 10 * 64));
    assert_eq!(SERVER_LIST_SIZE, 7044);
    assert_eq!(SERVER_NAME_SIZE, 11 * 9 + 11 * 4);
    assert_eq!(SERVER_NAME_SIZE, 143);
    assert_eq!(STRDEF_SIZE, STRDEF_MESSAGES_LEN * 128 + 4);
    assert_eq!(SERVER_LIST_FILE, "serverlist.bin");
    assert_eq!(SERVER_NAME_FILE, "server_name.bin");
    assert_eq!(STRDEF_FILE, "strdef.bin");
}

#[test]
fn zstr_from_raw_stops_at_the_first_zero() {
    let z = ZStr::<8>::from_raw(&[b'a', b'b', 0, b'c']);
    assert_eq!(z.to_bytes(), [b'a', b'b', 0, 0, 0, 0, 0, 0]);
    assert_eq!(z.len(), 2);
    assert_eq!(z.as_bytes_non_terminated(), b"ab".to_vec());
}

#[test]
fn zstr_from_raw_keeps_room_for_the_terminator() {
    let z = ZStr::<4>::from_raw(b"abcdefg");
    assert_eq!(z.to_bytes(), [b'a', b'b', b'c', 0]);
    assert_eq!(z.len(), 3);
    let empty = ZStr::<4>::from_raw(b"");
    assert_eq!(empty.to_bytes(), [0; 4]);
    assert_eq!(empty.len(), 0);
    let one = ZStr::<1>::from_raw(b"abc");
    assert_eq!(one.to_bytes(), [0]);
}

#[test]
fn zstr_read_from_a_file_is_kept_byte_for_byte() {
    let z = ZStr::<6>::from_bytes([b'a', 0, b'x', b'y', 0, b'z']);
    assert_eq!(z.to_bytes(), [b'a', 0, b'x', b'y', 0, b'z']);
    assert_eq!(z.len(), 1);
    assert_eq!(z.to_string(), "a");
    let full = ZStr::<3>::from_bytes([b'a', b'b', b'c']);
    assert_eq!(full.len(), 3);
    assert_eq!(full.to_string(), "abc");
}

#[test]
fn zstr_text_goes_through_the_legacy_encoding() {
    let z = ZStr::<16>::from_text("São João");
    assert_eq!(&z.to_bytes()[..9], &[b'S', 0xe3, b'o', b' ', b'J', b'o', 0xe3, b'o', 0]);
    assert_eq!(z.to_string(), "São João");
    assert_eq!(ZStr::<16>::from_text("  spaced  ").to_string(), "spaced");
}

#[test]
fn server_list_rejects_another_length() {
    assert_eq!(ServerList::new(&vec![0u8; 7043]).err(), Some(ErrorKind::RecordSize));
    assert_eq!(ServerList::new(&vec![0u8; 7045]).err(), Some(ErrorKind::RecordSize));
    assert_eq!(ServerList::new(&[]).err(), Some(ErrorKind::RecordSize));
    assert!(ServerList::new(&vec![0u8; 7044]).is_ok());
}

#[test]
fn server_list_reads_key_worlds_and_channels() {
    let list = ServerList::new(&server_list_file()).unwrap();
    assert_eq!(list.get_key(), 0x12345678);
    assert_eq!(list.get_url(0), "world0.example.org");
    assert_eq!(list.get_url(9), "world9.example.org");
    assert_eq!(list.get_channel(0, 0), "10.0.0.0");
    assert_eq!(list.get_channel(3, 9), "10.0.3.9");
    assert_eq!(list.get_channel(9, 9), "10.0.9.9");
    assert_eq!(list.get_cell(3, 10).as_bytes_non_terminated(), b"10.0.3.9".to_vec());
}

#[test]
fn server_list_key_prefix_is_clear_on_disk() {
    let file = server_list_file();
    assert_eq!(&file[0..4], &[0x78, 0x56, 0x34, 0x12]);
    let mut list = ServerList::new(&file).unwrap();
    list.set_key(0xdeadbeef);
    let saved = list.save();
    assert_eq!(&saved[0..4], &[0xef, 0xbe, 0xad, 0xde]);
    assert_eq!(&saved[4..], &file[4..]);
}

#[test]
fn server_list_round_trip_is_bit_identical() {
    for file in [server_list_file(), pattern(7044), vec![0u8; 7044], vec![0xffu8; 7044]] {
        let list = ServerList::new(&file).unwrap();
        assert_eq!(list.save(), file);
    }
}

#[test]
fn server_list_edit_of_one_url_keeps_the_rest() {
    let file = server_list_file();
    let mut list = ServerList::new(&file).unwrap();
    list.set_url(0, "example.com");
    let saved = list.save();
    assert_eq!(saved.len(), file.len());
    assert_eq!(saved.len(), 7044);
    let again = ServerList::new(&saved).unwrap();
    assert_eq!(again.get_url(0), "example.com");
    // The key, the channels of world 0 and every other world are untouched.
    assert_eq!(&saved[0..4], &file[0..4]);
    assert_eq!(&saved[4 + 64..], &file[4 + 64..]);
    assert_ne!(&saved[4..4 + 64], &file[4..4 + 64]);
    for world in 1..10 {
        assert_eq!(again.get_url(world), format!("world{}.example.org", world));
    }
    assert_eq!(again.get_channel(0, 0), "10.0.0.0");
}

#[test]
fn server_list_edit_writes_a_clean_cell() {
    let mut list = ServerList::new(&server_list_file()).unwrap();
    list.set_channel(2, 4, "ab");
    let cell = list.get_cell(2, 5).to_bytes();
    assert_eq!(&cell[..2], b"ab");
    assert!(cell[2..].iter().all(|b| *b == 0));
    assert_eq!(list.get_channel(2, 4), "ab");
    assert_eq!(list.get_channel(2, 3), "10.0.2.3");
    assert_eq!(list.get_channel(2, 5), "10.0.2.5");
    let long = "u".repeat(100);
    list.set_url(7, &long);
    assert_eq!(list.get_url(7), "u".repeat(63));
}

#[test]
fn server_list_file_is_obfuscated_on_disk() {
    let clear = clear_server_list();
    let list = ServerList::new(&server_list_file()).unwrap();
    let saved = list.save();
    let mut body = saved[4..].to_vec();
    assert!(decoders::server_list(&mut body));
    assert_eq!(&body[..], &clear[4..]);
    assert_ne!(&saved[4..], &clear[4..]);
}

#[test]
fn server_name_rejects_another_length() {
    assert_eq!(ServerName::new(&vec![0u8; 142]).err(), Some(ErrorKind::RecordSize));
    assert_eq!(ServerName::new(&vec![0u8; 144]).err(), Some(ErrorKind::RecordSize));
    assert!(ServerName::new(&vec![0u8; 143]).is_ok());
}

#[test]
fn server_name_reads_names_and_counts() {
    let mut clear = vec![0u8; 143];
    clear[0..5].copy_from_slice(b"Alpha");
    clear[9..13].copy_from_slice(b"Beta");
    clear[90..95].copy_from_slice(b"Omega");
    clear[99] = 3;
    clear[103] = 7;
    clear[139] = 11;
    let mut file = clear.clone();
    encoders::server_name(&mut file);
    assert_eq!(file[0], b'A'.wrapping_add(100));
    let record = ServerName::new(&file).unwrap();
    assert_eq!(record.get_name(0), "Alpha");
    assert_eq!(record.get_name(1), "Beta");
    assert_eq!(record.get_name(2), "");
    assert_eq!(record.get_name(10), "Omega");
    assert_eq!(record.get_count(0), 3);
    assert_eq!(record.get_count(1), 7);
    assert_eq!(record.get_count(10), 11);
    assert_eq!(record.save(), file);
}

#[test]
fn server_name_round_trip_is_bit_identical() {
    for file in [pattern(143), vec![0u8; 143], vec![0xffu8; 143]] {
        let record = ServerName::new(&file).unwrap();
        assert_eq!(record.save(), file);
    }
}

#[test]
fn server_name_edits_are_local() {
    let file = pattern(143);
    let mut record = ServerName::new(&file).unwrap();
    record.set_name(1, "Gamma");
    record.set_count(2, 42);
    let saved = record.save();
    assert_eq!(saved.len(), 143);
    assert_eq!(&saved[..9], &file[..9]);
    assert_eq!(&saved[9..18], b"Gamma\0\0\0\0");
    assert_eq!(&saved[18..99 + 8], &file[18..99 + 8]);
    assert_eq!(saved[99 + 8], 42);
    assert_eq!(&saved[99 + 9..], &file[99 + 9..]);
    let again = ServerName::new(&saved).unwrap();
    assert_eq!(again.get_name(1), "Gamma");
    assert_eq!(again.get_count(2), 42);
    record.set_name(3, "LongerThanEight");
    assert_eq!(record.get_name(3), "LongerTh");
}

#[test]
fn strdef_rejects_another_length() {
    assert_eq!(Strdef::new(&vec![0u8; STRDEF_SIZE - 1]).err(), Some(ErrorKind::RecordSize));
    assert_eq!(Strdef::new(&vec![0u8; STRDEF_SIZE + 1]).err(), Some(ErrorKind::RecordSize));
    assert_eq!(Strdef::new(&[]).err(), Some(ErrorKind::RecordSize));
}

#[test]
fn strdef_round_trip_is_bit_identical() {
    let file = pattern(STRDEF_SIZE);
    let table = Strdef::new(&file).unwrap();
    assert_eq!(table.to_file(), file);
    let tail = &file[STRDEF_SIZE - 4..];
    assert_eq!(table.get_unk(), u32::from_le_bytes([tail[0], tail[1], tail[2], tail[3]]));
}

#[test]
fn strdef_messages_are_decoded_and_saved_in_the_legacy_encoding() {
    let mut file = vec![0u8; STRDEF_SIZE];
    file[0..5].copy_from_slice(&[b'O', b'l', 0xe1, b'!', b' ']);
    file[128..131].copy_from_slice(b"two");
    file[STRDEF_SIZE - 4..].copy_from_slice(&[9, 0, 0, 0]);
    let mut table = Strdef::new(&file).unwrap();
    let mut messages = table.get_messages();
    assert_eq!(messages.len(), STRDEF_MESSAGES_LEN);
    assert_eq!(messages[0], "Olá!");
    assert_eq!(messages[1], "two");
    assert_eq!(messages[2], "");
    messages[1] = "não".to_string();
    messages[1999] = "z".repeat(200);
    let saved = table.save(&messages);
    assert_eq!(saved.len(), STRDEF_SIZE);
    assert_eq!(&saved[0..5], &[b'O', b'l', 0xe1, b'!', 0]);
    assert_eq!(&saved[128..132], &[b'n', 0xe3, b'o', 0]);
    assert_eq!(&saved[1999 * 128..1999 * 128 + 127], "z".repeat(127).as_bytes());
    assert_eq!(saved[1999 * 128 + 127], 0);
    assert_eq!(&saved[STRDEF_SIZE - 4..], &[9, 0, 0, 0]);
    assert_eq!(table.get_unk(), 9);
    let again = Strdef::new(&saved).unwrap();
    assert_eq!(again.get_messages()[1], "não");
}

#[test]
fn zstr_without_room_holds_nothing() {
    let none = ZStr::<0>::from_raw(b"abc");
    assert_eq!(none.to_bytes(), [0u8; 0]);
    assert_eq!(none.len(), 0);
    assert!(none.as_bytes_non_terminated().is_empty());
    assert_eq!(none.to_string(), "");
}

#[test]
fn text_written_into_a_cell_loses_its_zero_bytes() {
    let z = ZStr::<8>::from_encoded(&[0x61, 0x00, 0x62]);
    assert_eq!(z.to_bytes(), [0x61, 0x62, 0, 0, 0, 0, 0, 0]);
    let z = ZStr::<8>::from_text("a\0b\0\0c");
    assert_eq!(z.to_bytes(), [b'a', b'b', b'c', 0, 0, 0, 0, 0]);
    assert_eq!(z.to_string(), "abc");
    let z = ZStr::<4>::from_encoded(&[0, 0, 1, 0, 2, 3, 0, 4, 5]);
    assert_eq!(z.to_bytes(), [1, 2, 3, 0]);
    let z = ZStr::<4>::from_encoded(&[0, 0, 0]);
    assert_eq!(z.to_bytes(), [0; 4]);
    let z = ZStr::<4>::from_encoded(&[7, 8, 9]);
    assert_eq!(z.to_bytes(), [7, 8, 9, 0]);
    let z = ZStr::<0>::from_encoded(&[7, 8, 9]);
    assert_eq!(z.to_bytes(), [0u8; 0]);
    // Raw bytes, by contrast, end at their first zero.
    let z = ZStr::<8>::from_raw(&[0x61, 0x00, 0x62]);
    assert_eq!(z.to_bytes(), [0x61, 0, 0, 0, 0, 0, 0, 0]);
}

#[test]
fn records_keep_what_follows_a_zero_in_a_typed_text() {
    let mut list = ServerList::new(&vec![0u8; 7044]).unwrap();
    list.set_url(3, "ex\0ample.com");
    assert_eq!(list.get_url(3), "example.com");
    list.set_channel(3, 0, "\01.2.3.4\0");
    assert_eq!(list.get_channel(3, 0), "1.2.3.4");
    let mut names = ServerName::new(&vec![0u8; 143]).unwrap();
    names.set_name(0, "A\0lpha");
    assert_eq!(names.get_name(0), "Alpha");
    let mut table = Strdef::new(&vec![0u8; STRDEF_SIZE]).unwrap();
    let mut messages = table.get_messages();
    messages[0] = "one\0two".to_string();
    let saved = table.save(&messages);
    assert_eq!(&saved[0..7], b"onetwo\0");
    assert!(saved[7..128].iter().all(|b| *b == 0));
}
