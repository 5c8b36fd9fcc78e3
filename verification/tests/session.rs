use w2_rust::sniffer::codec::Cleartext;
use w2_rust::sniffer::connection::{
    AcceptAction, AcceptEvent, ConnectionState, DataSource, DialAction, DialEvent, ReadEvent,
    RelayAction,
};
use w2_rust::sniffer::last_id::LastId;
use w2_rust::sniffer::packet::PacketDirection;
use w2_rust::sniffer::buffer_view::{buffer_texts, byte_to_text};
use w2_rust::sniffer::state::{BufferType, State};

const FRAME: [u8; 16] = [0x10, 0, 0, 0, 1, 0, 2, 0, 3, 0, 0, 0, 4, 0, 5, 0];

fn open(state: &mut State, ip: &str) -> u64 {
    let id = state.add_connections(ip.to_string()).unwrap();
    assert_eq!(state.accept_connection(id, AcceptEvent::Bound), AcceptAction::Poll);
    assert_eq!(state.accept_connection(id, AcceptEvent::Accepted), AcceptAction::Dial);
    assert_eq!(state.connect_to_remote(id, DialEvent::Connected), DialAction::Relay);
    id
}

#[test]
fn new_session_is_empty() {
    let state = State::new();
    assert!(state.get_connections().is_empty());
    assert!(state.get_selected_connection().is_none());
    assert!(state.get_selected_packet().is_none());
    assert!(state.get_buffer_view().is_empty());
    assert_eq!(state.get_buffer_view_type(), BufferType::Byte);
    assert_eq!(state.get_last_id(), LastId { connections: 0, packets: 0 });
}

#[test]
fn connections_get_growing_identifiers() {
    let mut state = State::new();
    assert_eq!(state.add_connections("a".to_string()), Some(1));
    assert_eq!(state.add_connections("b".to_string()), Some(2));
    assert_eq!(state.add_connections("c".to_string()), Some(3));
    let ids: Vec<u64> = state.get_connections().iter().map(|c| c.get_id()).collect();
    assert_eq!(ids, vec![1, 2, 3]);
    assert_eq!(state.get_connection(2).unwrap().get_ip(), "b");
    assert!(state.get_connection(4).is_none());
    assert_eq!(state.find_connection(3), Some(2));
    assert_eq!(state.find_connection(9), None);
    state.remove_connection(2);
    assert_eq!(state.add_connections("d".to_string()), Some(4));
    let ids: Vec<u64> = state.get_connections().iter().map(|c| c.get_id()).collect();
    assert_eq!(ids, vec![1, 3, 4]);
}

#[test]
fn frames_of_different_connections_never_share_an_identifier() {
    let mut state = State::new();
    let a = open(&mut state, "a");
    let b = open(&mut state, "b");
    let mut pa = Vec::new();
    let mut pb = Vec::new();
    state.receive_data(a, DataSource::Local, &FRAME, &mut pa, &Cleartext);
    state.receive_data(b, DataSource::Remote, &FRAME, &mut pb, &Cleartext);
    state.receive_data(a, DataSource::Remote, &FRAME, &mut pa, &Cleartext);
    state.receive_data(b, DataSource::Local, &FRAME, &mut pb, &Cleartext);
    let of = |id: u64| -> Vec<u64> {
        state.get_connection(id).unwrap().get_packets().iter().map(|p| p.get_id()).collect()
    };
    assert_eq!(of(a), vec![1, 3]);
    assert_eq!(of(b), vec![2, 4]);
    assert_eq!(state.get_last_id(), LastId { connections: 2, packets: 4 });
}

#[test]
fn steps_of_a_missing_connection_change_nothing() {
    let mut state = State::new();
    let a = open(&mut state, "a");
    let mut persisted = vec![1, 2, 3];
    assert_eq!(state.accept_connection(9, AcceptEvent::Accepted), AcceptAction::Stop);
    assert_eq!(state.connect_to_remote(9, DialEvent::Connected), DialAction::Stop);
    assert_eq!(state.relay_poll(9, DataSource::Local), RelayAction::Shutdown);
    assert_eq!(state.relay_read(9, DataSource::Local, ReadEvent::Data(4)), RelayAction::Shutdown);
    assert_eq!(state.receive_data(9, DataSource::Local, &FRAME, &mut persisted, &Cleartext), None);
    assert_eq!(persisted, vec![1, 2, 3]);
    state.close(9);
    state.pause(9);
    state.resume(9);
    state.remove_connection(9);
    assert_eq!(state.get_connections().len(), 1);
    assert_eq!(state.get_connection(a).unwrap().get_state(), ConnectionState::Connecting);
    assert_eq!(state.get_last_id().packets, 0);
}

#[test]
fn session_relays_and_records() {
    let mut state = State::new();
    let id = open(&mut state, "10.0.0.1");
    let mut persisted = Vec::new();
    assert_eq!(state.relay_poll(id, DataSource::Local), RelayAction::Read);
    assert_eq!(state.relay_read(id, DataSource::Local, ReadEvent::Data(16)), RelayAction::Forward);
    state.receive_data(id, DataSource::Local, &FRAME, &mut persisted, &Cleartext);
    let conn = state.get_connection(id).unwrap();
    assert_eq!(conn.get_state(), ConnectionState::Connected);
    assert_eq!(conn.count_packets(), 1);
    assert_eq!(conn.get_packets()[0].get_direction(), PacketDirection::SND);
    state.pause(id);
    assert_eq!(state.get_connection(id).unwrap().get_state(), ConnectionState::Paused);
    state.receive_data(id, DataSource::Local, &FRAME, &mut persisted, &Cleartext);
    assert_eq!(state.get_connection(id).unwrap().count_packets(), 1);
    state.resume(id);
    state.close(id);
    assert_eq!(state.get_connection(id).unwrap().get_state(), ConnectionState::Closed);
    assert_eq!(state.relay_poll(id, DataSource::Local), RelayAction::Shutdown);
    assert_eq!(state.relay_poll(id, DataSource::Remote), RelayAction::Shutdown);
}

#[test]
fn selecting_a_connection_clears_the_selected_frame() {
    let mut state = State::new();
    let a = open(&mut state, "a");
    let b = open(&mut state, "b");
    let mut persisted = Vec::new();
    state.receive_data(a, DataSource::Local, &FRAME, &mut persisted, &Cleartext);
    state.set_selected_connection(a);
    assert!(state.is_connection_selected(a));
    assert!(!state.is_connection_selected(b));
    assert_eq!(state.get_selected_connection().unwrap().get_id(), a);
    state.set_selected_packet(Some(1));
    assert_eq!(state.get_selected_packet().unwrap().get_id(), 1);
    state.set_selected_connection(b);
    assert!(state.get_selected_packet().is_none());
    assert_eq!(state.get_selected_connection().unwrap().get_id(), b);
    state.set_selected_connection(77);
    assert_eq!(state.get_selected_connection().unwrap().get_id(), b);
}

#[test]
fn a_frame_of_another_connection_cannot_be_selected() {
    let mut state = State::new();
    let a = open(&mut state, "a");
    let b = open(&mut state, "b");
    let mut persisted = Vec::new();
    state.receive_data(a, DataSource::Local, &FRAME, &mut persisted, &Cleartext);
    state.set_selected_packet(Some(1));
    assert!(state.get_selected_packet().is_none());
    state.set_selected_connection(b);
    state.set_selected_packet(Some(1));
    assert!(state.get_selected_packet().is_none());
    state.set_selected_connection(a);
    state.set_selected_packet(Some(2));
    assert!(state.get_selected_packet().is_none());
    state.set_selected_packet(Some(1));
    assert!(state.get_selected_packet().is_some());
    state.set_selected_packet(None);
    assert!(state.get_selected_packet().is_none());
}

#[test]
fn removing_the_selected_connection_clears_the_selection() {
    let mut state = State::new();
    let a = open(&mut state, "a");
    let b = open(&mut state, "b");
    let mut persisted = Vec::new();
    state.receive_data(a, DataSource::Local, &FRAME, &mut persisted, &Cleartext);
    state.set_selected_connection(a);
    state.set_selected_packet(Some(1));
    state.remove_connection(b);
    assert_eq!(state.get_selected_connection().unwrap().get_id(), a);
    assert_eq!(state.get_selected_packet().unwrap().get_id(), 1);
    state.remove_connection(a);
    assert!(state.get_selected_connection().is_none());
    assert!(state.get_selected_packet().is_none());
    assert!(state.get_connections().is_empty());
}

#[test]
fn buffer_view_shows_the_selected_frame_in_the_chosen_way() {
    let mut state = State::new();
    let a = open(&mut state, "a");
    let frame = [12u8, 0, 255, 65, 9, 10, 99, 100, 0x7f, 0xe9, 0x1f, 200];
    let mut persisted = Vec::new();
    state.receive_data(a, DataSource::Local, &frame, &mut persisted, &Cleartext);
    state.set_selected_connection(a);
    assert!(state.get_buffer_view().is_empty());
    state.set_selected_packet(Some(1));
    assert_eq!(
        state.get_buffer_view(),
        &vec!["12", "0", "255", "65", "9", "10", "99", "100", "127", "233", "31", "200"]
    );
    state.set_buffer_view_type(BufferType::Hex);
    assert_eq!(state.get_buffer_view_type(), BufferType::Hex);
    assert_eq!(
        state.get_buffer_view(),
        &vec!["0C", "00", "FF", "41", "09", "0A", "63", "64", "7F", "E9", "1F", "C8"]
    );
    state.set_buffer_view_type(BufferType::ASCII);
    assert_eq!(state.get_buffer_view()[3], "A");
    assert_eq!(state.get_buffer_view()[9], "é");
    assert_eq!(state.get_buffer_view()[1], "\0");
    // With no frame selected what is shown stays.
    state.set_selected_packet(None);
    assert_eq!(state.get_buffer_view()[3], "A");
    state.set_buffer_view_type(BufferType::Byte);
    assert_eq!(state.get_buffer_view()[3], "A");
}

#[test]
fn every_byte_is_shown_as_std_formats_it() {
    for b in 0..=255u8 {
        assert_eq!(byte_to_text(b, BufferType::Byte), b.to_string());
        assert_eq!(byte_to_text(b, BufferType::Hex), format!("{:02X}", b));
        assert_eq!(byte_to_text(b, BufferType::ASCII), (b as char).to_string());
    }
    assert_eq!(buffer_texts(&[1, 22, 255], BufferType::Byte), vec!["1", "22", "255"]);
    assert!(buffer_texts(&[], BufferType::Hex).is_empty());
}
