use w2_rust::files::{load, save};
use w2_rust::get_file::{get_file, get_server_list_file, get_server_name_file};

#[test]
fn load_accepts_the_exact_length_only() {
    assert_eq!(load::load(Some(vec![1, 2, 3]), 3), Some(vec![1, 2, 3]));
    assert_eq!(load::load(Some(vec![1, 2, 3]), 4), None);
    assert_eq!(load::load(Some(vec![1, 2, 3]), 2), None);
    assert_eq!(load::load(None, 0), None);
    assert_eq!(load::load(Some(vec![]), 0), Some(vec![]));
}

#[test]
fn load_knows_the_length_of_each_file() {
    assert_eq!(load::server_list(Some(vec![7; 7044])), Some(vec![7; 7044]));
    assert_eq!(load::server_list(Some(vec![7; 7043])), None);
    assert_eq!(load::server_list(None), None);
    assert_eq!(load::server_name(Some(vec![7; 143])), Some(vec![7; 143]));
    assert_eq!(load::server_name(Some(vec![7; 144])), None);
    assert_eq!(load::strdef(Some(vec![7; 256004])), Some(vec![7; 256004]));
    assert_eq!(load::strdef(Some(vec![7; 7044])), None);
}

#[test]
fn save_names_the_file_and_keeps_the_bytes() {
    let w = save::server_list(vec![3; 7044]).unwrap();
    assert_eq!(w.name, "serverlist.bin");
    assert_eq!(w.bytes, vec![3; 7044]);
    let w = save::server_name(vec![4; 143]).unwrap();
    assert_eq!(w.name, "server_name.bin");
    assert_eq!(w.bytes, vec![4; 143]);
    let w = save::strdef(vec![5; 256004]).unwrap();
    assert_eq!(w.name, "strdef.bin");
    assert_eq!(w.bytes.len(), 256004);
    let w = save::save("other.bin", vec![1, 2], 2).unwrap();
    assert_eq!(w.name, "other.bin");
    assert_eq!(w.bytes, vec![1, 2]);
}

#[test]
fn save_refuses_a_record_of_another_length() {
    assert!(save::server_list(vec![3; 7045]).is_none());
    assert!(save::server_name(vec![]).is_none());
    assert!(save::strdef(vec![5; 143]).is_none());
    assert!(save::save("x", vec![1], 2).is_none());
}

#[test]
fn get_file_takes_a_file_of_the_exact_length() {
    assert_eq!(get_file::<4>(Some(vec![1, 2, 3, 4])), Some((4, [1, 2, 3, 4])));
    assert_eq!(get_file::<0>(Some(vec![])), Some((0, [])));
    assert_eq!(get_file::<1>(Some(vec![9])), Some((1, [9])));
}

#[test]
fn get_file_rejects_another_length() {
    assert_eq!(get_file::<4>(Some(vec![1, 2])), None);
    assert_eq!(get_file::<4>(Some(vec![1, 2, 3, 4, 5, 6])), None);
    assert_eq!(get_file::<4>(Some(vec![])), None);
    assert_eq!(get_file::<4>(None), None);
    assert_eq!(get_file::<0>(Some(vec![9])), None);
    assert_eq!(get_file::<0>(None), None);
}

#[test]
fn get_file_knows_the_size_of_each_record() {
    let list: Vec<u8> = (0..7044usize).map(|i| (i % 251) as u8).collect();
    let (size, buf) = get_server_list_file(Some(list.clone())).unwrap();
    assert_eq!(size, 7044);
    assert_eq!(buf.to_vec(), list);
    assert!(get_server_list_file(Some(vec![8; 8000])).is_none());
    assert!(get_server_list_file(Some(vec![8; 7043])).is_none());
    assert!(get_server_list_file(Some(vec![8; 7045])).is_none());
    assert!(get_server_list_file(Some(vec![])).is_none());
    assert!(get_server_list_file(None).is_none());
    let names: Vec<u8> = (0..143usize).map(|i| (i * 3 % 256) as u8).collect();
    let (size, buf) = get_server_name_file(Some(names.clone())).unwrap();
    assert_eq!(size, 143);
    assert_eq!(buf.to_vec(), names);
    assert!(get_server_name_file(Some(vec![8; 100])).is_none());
    assert!(get_server_name_file(Some(vec![8; 144])).is_none());
    assert!(get_server_name_file(None).is_none());
}
