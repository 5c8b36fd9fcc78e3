use w2_rust::errors::ErrorKind;
use w2_rust::packets::structs::header::SHeader;
use w2_rust::sniffer::codec::{extract_frames, Cleartext, FrameTransform};
use w2_rust::sniffer::connection::{
    AcceptAction, AcceptEvent, Connection, ConnectionState, DataSource, DialAction, DialEvent,
    ReadEvent, RelayAction, DIAL_TIMEOUT_MS, HANDSHAKE_PREFIX, HANDSHAKE_SEGMENT, POLL_TIMEOUT_MS,
    PORT, READ_CHUNK,
};
use w2_rust::sniffer::last_id::LastId;
use w2_rust::sniffer::packet::{Packet, PacketDirection};

const FRAME: [u8; 16] = [0x10, 0, 0, 0, 1, 0, 2, 0, 3, 0, 0, 0, 4, 0, 5, 0];

fn frame(size: u16, fill: u8) -> Vec<u8> {
    let mut f = vec![fill; size as usize];
    f[0] = (size % 256) as u8;
    f[1] = (size / 256) as u8;
    f
}

fn relaying(ids: &mut LastId) -> Connection {
    let mut conn = Connection::new(ids, "10.1.2.3".to_string()).unwrap();
    assert_eq!(conn.accept_connection(AcceptEvent::Bound), AcceptAction::Poll);
    assert_eq!(conn.accept_connection(AcceptEvent::Accepted), AcceptAction::Dial);
    assert_eq!(conn.connect_to_remote(DialEvent::Connected), DialAction::Relay);
    assert_eq!(conn.get_state(), ConnectionState::Connecting);
    conn
}

#[test]
fn constants_of_the_proxy() {
    assert_eq!(PORT, 8281);
    assert_eq!(POLL_TIMEOUT_MS, 100);
    assert_eq!(DIAL_TIMEOUT_MS, 1500);
    assert_eq!(READ_CHUNK, 1024);
    assert_eq!(HANDSHAKE_SEGMENT, 120);
    assert_eq!(HANDSHAKE_PREFIX, 4);
}

#[test]
fn identifiers_start_at_one_and_grow_by_one() {
    let mut ids = LastId::new();
    assert_eq!(ids, LastId::default());
    assert_eq!(ids.sync_next_connection_id(), Some(1));
    assert_eq!(ids.sync_next_connection_id(), Some(2));
    assert_eq!(ids.sync_next_packet_id(), Some(1));
    assert_eq!(ids.sync_next_connection_id(), Some(3));
    assert_eq!(ids.sync_next_packet_id(), Some(2));
    assert_eq!(ids, LastId { connections: 3, packets: 2 });
}

#[test]
fn identifiers_run_out_without_wrapping() {
    let mut ids = LastId { connections: u64::MAX - 1, packets: u64::MAX };
    assert_eq!(ids.sync_next_connection_id(), Some(u64::MAX));
    assert_eq!(ids.sync_next_connection_id(), None);
    assert_eq!(ids.sync_next_packet_id(), None);
    assert_eq!(ids, LastId { connections: u64::MAX, packets: u64::MAX });
    assert!(Connection::new(&mut ids, "x".to_string()).is_none());
    assert!(Packet::new_sync(&mut ids, PacketDirection::SND, FRAME.to_vec()).is_none());
}

#[test]
fn extract_frames_cuts_whole_frames() {
    let mut buf = Vec::new();
    buf.extend_from_slice(&frame(12, 1));
    buf.extend_from_slice(&frame(20, 2));
    buf.extend_from_slice(&frame(300, 3));
    let (frames, end) = extract_frames(&mut buf);
    assert_eq!(frames, vec![frame(12, 1), frame(20, 2), frame(300, 3)]);
    assert!(buf.is_empty());
    assert_eq!(end, None);
}

#[test]
fn extract_frames_leaves_an_incomplete_frame() {
    let mut buf = frame(16, 9);
    buf.extend_from_slice(&[40, 0, 7, 7, 7]);
    let (frames, end) = extract_frames(&mut buf);
    assert_eq!(frames, vec![frame(16, 9)]);
    assert_eq!(buf, vec![40, 0, 7, 7, 7]);
    assert_eq!(end, None);
    let mut one = vec![16u8];
    let (none, end) = extract_frames(&mut one);
    assert!(none.is_empty());
    assert_eq!(one, vec![16u8]);
    assert_eq!(end, None);
    let mut empty: Vec<u8> = Vec::new();
    assert!(extract_frames(&mut empty).0.is_empty());
}

#[test]
fn extract_frames_stops_at_a_malformed_frame() {
    let mut buf = frame(12, 5);
    let bad = [11u8, 0, 1, 2, 3, 4, 5, 6, 7, 8, 9, 10, 11, 12];
    buf.extend_from_slice(&bad);
    let (frames, end) = extract_frames(&mut buf);
    assert_eq!(frames, vec![frame(12, 5)]);
    assert_eq!(buf, bad.to_vec());
    assert_eq!(end, Some(ErrorKind::FrameMalformed));
    let mut zero = vec![0u8, 0, 9, 9];
    let (frames, end) = extract_frames(&mut zero);
    assert!(frames.is_empty());
    assert_eq!(zero, vec![0u8, 0, 9, 9]);
    assert_eq!(end, Some(ErrorKind::FrameMalformed));
}

#[test]
fn extracted_frames_and_residue_make_up_the_stream() {
    let mut stream = Vec::new();
    for (i, size) in [12u16, 13, 64, 1024, 12, 700].iter().enumerate() {
        stream.extend_from_slice(&frame(*size, i as u8 + 1));
    }
    stream.extend_from_slice(&[50, 0, 1, 2, 3]);
    for cut in 0..stream.len() {
        let mut buf = stream[..cut].to_vec();
        let (mut frames, _) = extract_frames(&mut buf);
        buf.extend_from_slice(&stream[cut..]);
        let (more, end) = extract_frames(&mut buf);
        frames.extend(more);
        assert_eq!(end, None);
        let mut joined: Vec<u8> = frames.concat();
        assert_eq!(frames.len(), 6);
        joined.extend_from_slice(&buf);
        assert_eq!(joined, stream);
        assert_eq!(buf, vec![50, 0, 1, 2, 3]);
        assert!(buf.len() < 50);
    }
}

#[test]
fn cleartext_leaves_a_frame_as_it_is() {
    let mut buf = FRAME.to_vec();
    Cleartext.decode(&mut buf);
    assert_eq!(buf, FRAME.to_vec());
    Cleartext.encode(&mut buf);
    assert_eq!(buf, FRAME.to_vec());
}

#[test]
fn packet_reads_its_header_from_the_first_twelve_bytes() {
    let p = Packet::new(7, PacketDirection::RCV, FRAME.to_vec());
    assert_eq!(p.get_id(), 7);
    assert_eq!(p.get_direction(), PacketDirection::RCV);
    assert_eq!(p.get_buffer(), &FRAME.to_vec());
    assert_eq!(
        p.get_header(),
        SHeader { size: 16, key: 0, checksum: 0, packet_id: 1, client_id: 2, timestamp: 3 }
    );
    assert_eq!(p.get_columns_count(), 0);
    assert_eq!(p.get_selected_buffer_index(), 0);
    let mut ids = LastId::new();
    let q = Packet::new_sync(&mut ids, PacketDirection::SND, FRAME.to_vec()).unwrap();
    assert_eq!(q.get_id(), 1);
    assert_eq!(ids.packets, 1);
    let copy = q.clone();
    assert_eq!(copy.get_id(), 1);
    assert_eq!(copy.get_buffer(), q.get_buffer());
}

#[test]
fn packet_keeps_what_the_viewer_selected() {
    let mut p = Packet::new(1, PacketDirection::SND, FRAME.to_vec());
    p.update_columns_count(8);
    p.set_selected_buffer_index(13);
    assert_eq!(p.get_columns_count(), 8);
    assert_eq!(p.get_selected_buffer_index(), 13);
    assert_eq!(p.get_id(), 1);
    assert_eq!(p.get_buffer(), &FRAME.to_vec());
}

#[test]
fn new_connection_waits_for_its_local_client() {
    let mut ids = LastId::new();
    let conn = Connection::new(&mut ids, "10.1.2.3".to_string()).unwrap();
    assert_eq!(conn.get_id(), 1);
    assert_eq!(conn.get_ip(), "10.1.2.3");
    assert_eq!(conn.get_state(), ConnectionState::WaitingLocal);
    assert_eq!(conn.count_packets(), 0);
    assert_eq!(conn.get_failure(), None);
    assert!(conn.is_new_connection_disabled());
    let second = Connection::new(&mut ids, "10.1.2.4".to_string()).unwrap();
    assert_eq!(second.get_id(), 2);
}

#[test]
fn lifecycle_follows_accept_dial_and_first_byte() {
    let mut ids = LastId::new();
    let mut conn = Connection::new(&mut ids, "10.1.2.3".to_string()).unwrap();
    assert_eq!(conn.relay_poll(DataSource::Local), RelayAction::Shutdown);
    assert_eq!(conn.accept_connection(AcceptEvent::Bound), AcceptAction::Poll);
    assert_eq!(conn.accept_connection(AcceptEvent::TimedOut), AcceptAction::Poll);
    assert_eq!(conn.get_state(), ConnectionState::WaitingLocal);
    assert_eq!(conn.accept_connection(AcceptEvent::Accepted), AcceptAction::Dial);
    assert_eq!(conn.get_state(), ConnectionState::WaitingRemote);
    assert!(conn.is_new_connection_disabled());
    assert_eq!(conn.relay_poll(DataSource::Remote), RelayAction::Shutdown);
    assert_eq!(conn.connect_to_remote(DialEvent::Connected), DialAction::Relay);
    assert_eq!(conn.get_state(), ConnectionState::Connecting);
    assert!(!conn.is_new_connection_disabled());
    assert_eq!(conn.relay_poll(DataSource::Local), RelayAction::Read);
    assert_eq!(conn.relay_poll(DataSource::Remote), RelayAction::Read);
    let mut persisted = Vec::new();
    conn.receive_data(DataSource::Local, &[1], &mut persisted, &mut ids, &Cleartext);
    assert_eq!(conn.get_state(), ConnectionState::Connected);
    assert_eq!(persisted, vec![1]);
}

#[test]
fn accept_failure_closes_with_a_transient_error() {
    for event in [AcceptEvent::BindFailed, AcceptEvent::Failed] {
        let mut ids = LastId::new();
        let mut conn = Connection::new(&mut ids, "h".to_string()).unwrap();
        assert_eq!(conn.accept_connection(event), AcceptAction::Stop);
        assert_eq!(conn.get_state(), ConnectionState::Closed);
        assert_eq!(conn.get_failure(), Some(ErrorKind::IoTransient));
        assert_eq!(conn.accept_connection(AcceptEvent::Accepted), AcceptAction::Stop);
        assert_eq!(conn.get_state(), ConnectionState::Closed);
    }
}

#[test]
fn dial_failure_closes_the_connection() {
    let mut ids = LastId::new();
    let mut conn = Connection::new(&mut ids, "h".to_string()).unwrap();
    conn.accept_connection(AcceptEvent::Accepted);
    assert_eq!(conn.connect_to_remote(DialEvent::TimedOut), DialAction::Stop);
    assert_eq!(conn.get_state(), ConnectionState::Closed);
    assert_eq!(conn.get_failure(), Some(ErrorKind::IoTimeout));
    let mut other = Connection::new(&mut ids, "h".to_string()).unwrap();
    other.accept_connection(AcceptEvent::Accepted);
    assert_eq!(other.connect_to_remote(DialEvent::Failed), DialAction::Stop);
    assert_eq!(other.get_state(), ConnectionState::Closed);
    assert_eq!(other.get_failure(), Some(ErrorKind::IoTransient));
}

#[test]
fn dial_before_accept_changes_nothing() {
    let mut ids = LastId::new();
    let mut conn = Connection::new(&mut ids, "h".to_string()).unwrap();
    assert_eq!(conn.connect_to_remote(DialEvent::Connected), DialAction::Stop);
    assert_eq!(conn.get_state(), ConnectionState::WaitingLocal);
    assert_eq!(conn.get_failure(), None);
}

#[test]
fn two_frame_relay() {
    let mut ids = LastId::new();
    let mut conn = relaying(&mut ids);
    let mut persisted = Vec::new();
    assert_eq!(conn.relay_poll(DataSource::Local), RelayAction::Read);
    assert_eq!(conn.relay_read(DataSource::Local, ReadEvent::Data(16)), RelayAction::Forward);
    let end = conn.receive_data(DataSource::Local, &FRAME, &mut persisted, &mut ids, &Cleartext);
    assert_eq!(end, None);
    assert_eq!(conn.get_state(), ConnectionState::Connected);
    assert_eq!(conn.count_packets(), 1);
    let packet = &conn.get_packets()[0];
    assert_eq!(packet.get_direction(), PacketDirection::SND);
    assert_eq!(packet.get_id(), 1);
    assert_eq!(
        packet.get_header(),
        SHeader { size: 16, key: 0, checksum: 0, packet_id: 0x0001, client_id: 0x0002, timestamp: 3 }
    );
    assert_eq!(packet.get_buffer(), &FRAME.to_vec());
    assert_eq!(&packet.get_buffer()[12..], &[4, 0, 5, 0]);
    assert!(persisted.is_empty());
}

#[test]
fn partial_segment() {
    let mut ids = LastId::new();
    let mut conn = relaying(&mut ids);
    let mut persisted = Vec::new();
    conn.receive_data(DataSource::Local, &FRAME[..6], &mut persisted, &mut ids, &Cleartext);
    assert_eq!(conn.count_packets(), 0);
    assert_eq!(persisted, FRAME[..6].to_vec());
    conn.receive_data(DataSource::Local, &FRAME[6..], &mut persisted, &mut ids, &Cleartext);
    assert_eq!(conn.count_packets(), 1);
    assert_eq!(conn.get_packets()[0].get_buffer(), &FRAME.to_vec());
    assert_eq!(conn.get_packets()[0].get_header().packet_id, 1);
    assert!(persisted.is_empty());
}

#[test]
fn any_split_point_gives_the_same_frame() {
    for cut in 0..=FRAME.len() {
        let mut ids = LastId::new();
        let mut conn = relaying(&mut ids);
        let mut persisted = Vec::new();
        conn.receive_data(DataSource::Remote, &FRAME[..cut], &mut persisted, &mut ids, &Cleartext);
        conn.receive_data(DataSource::Remote, &FRAME[cut..], &mut persisted, &mut ids, &Cleartext);
        assert_eq!(conn.count_packets(), 1);
        assert_eq!(conn.get_packets()[0].get_buffer(), &FRAME.to_vec());
        assert_eq!(conn.get_packets()[0].get_direction(), PacketDirection::RCV);
        assert!(persisted.is_empty());
    }
}

#[test]
fn first_segment_discard() {
    let mut ids = LastId::new();
    let mut conn = relaying(&mut ids);
    let mut segment = vec![0xde, 0xad, 0xbe, 0xef];
    segment.extend_from_slice(&frame(100, 7));
    segment.extend_from_slice(&FRAME);
    assert_eq!(segment.len(), 120);
    let mut persisted = Vec::new();
    conn.receive_data(DataSource::Remote, &segment, &mut persisted, &mut ids, &Cleartext);
    assert_eq!(conn.get_state(), ConnectionState::Connected);
    assert_eq!(conn.count_packets(), 2);
    assert_eq!(conn.get_packets()[0].get_buffer(), &frame(100, 7));
    assert_eq!(conn.get_packets()[0].get_direction(), PacketDirection::RCV);
    assert_eq!(conn.get_packets()[1].get_buffer(), &FRAME.to_vec());
    assert!(persisted.is_empty());
}

#[test]
fn first_segment_of_another_length_is_not_cut() {
    let mut ids = LastId::new();
    let mut conn = relaying(&mut ids);
    let segment = frame(119, 3);
    let mut persisted = Vec::new();
    conn.receive_data(DataSource::Remote, &segment, &mut persisted, &mut ids, &Cleartext);
    assert_eq!(conn.count_packets(), 1);
    assert_eq!(conn.get_packets()[0].get_buffer(), &segment);
}

#[test]
fn discard_applies_once_per_connection() {
    let mut ids = LastId::new();
    let mut conn = relaying(&mut ids);
    let mut local = Vec::new();
    let mut remote = Vec::new();
    conn.receive_data(DataSource::Local, &FRAME, &mut local, &mut ids, &Cleartext);
    assert_eq!(conn.get_state(), ConnectionState::Connected);
    let later = frame(120, 9);
    conn.receive_data(DataSource::Remote, &later, &mut remote, &mut ids, &Cleartext);
    assert_eq!(conn.count_packets(), 2);
    assert_eq!(conn.get_packets()[1].get_buffer(), &later);
    assert_eq!(conn.get_packets()[1].get_direction(), PacketDirection::RCV);
}

#[test]
fn pause() {
    let mut ids = LastId::new();
    let mut conn = relaying(&mut ids);
    let mut persisted = Vec::new();
    conn.receive_data(DataSource::Local, &FRAME, &mut persisted, &mut ids, &Cleartext);
    assert_eq!(conn.count_packets(), 1);
    conn.pause();
    assert_eq!(conn.get_state(), ConnectionState::Paused);
    let mut two = FRAME.to_vec();
    two.extend_from_slice(&FRAME);
    assert_eq!(two.len(), 32);
    assert_eq!(conn.relay_poll(DataSource::Local), RelayAction::Read);
    assert_eq!(conn.relay_read(DataSource::Local, ReadEvent::Data(32)), RelayAction::Forward);
    conn.receive_data(DataSource::Local, &two, &mut persisted, &mut ids, &Cleartext);
    assert_eq!(conn.count_packets(), 1);
    assert!(persisted.is_empty());
    assert_eq!(ids.packets, 1);
    conn.resume();
    assert_eq!(conn.get_state(), ConnectionState::Connected);
    conn.receive_data(DataSource::Local, &FRAME, &mut persisted, &mut ids, &Cleartext);
    assert_eq!(conn.count_packets(), 2);
    assert_eq!(conn.get_packets()[1].get_id(), 2);
}

#[test]
fn pause_and_resume_only_toggle_connected_and_paused() {
    let mut ids = LastId::new();
    let mut conn = Connection::new(&mut ids, "h".to_string()).unwrap();
    conn.pause();
    assert_eq!(conn.get_state(), ConnectionState::WaitingLocal);
    conn.resume();
    assert_eq!(conn.get_state(), ConnectionState::WaitingLocal);
    let mut relay = relaying(&mut ids);
    relay.pause();
    assert_eq!(relay.get_state(), ConnectionState::Connecting);
    relay.close();
    relay.resume();
    relay.pause();
    assert_eq!(relay.get_state(), ConnectionState::Closed);
}

#[test]
fn close_latency() {
    let mut ids = LastId::new();
    let mut conn = relaying(&mut ids);
    conn.close();
    assert_eq!(conn.get_state(), ConnectionState::Closed);
    assert_eq!(conn.relay_poll(DataSource::Local), RelayAction::Shutdown);
    assert_eq!(conn.relay_poll(DataSource::Remote), RelayAction::Shutdown);
    conn.close();
    assert_eq!(conn.get_state(), ConnectionState::Closed);
    assert_eq!(conn.get_failure(), None);
    let mut waiting = Connection::new(&mut ids, "h".to_string()).unwrap();
    waiting.close();
    assert_eq!(waiting.get_state(), ConnectionState::Closed);
    assert_eq!(waiting.accept_connection(AcceptEvent::TimedOut), AcceptAction::Stop);
    assert_eq!(waiting.accept_connection(AcceptEvent::Accepted), AcceptAction::Stop);
    assert_eq!(waiting.connect_to_remote(DialEvent::Connected), DialAction::Stop);
    assert_eq!(waiting.get_state(), ConnectionState::Closed);
}

#[test]
fn closed_connection_records_nothing() {
    let mut ids = LastId::new();
    let mut conn = relaying(&mut ids);
    conn.close();
    let mut persisted = Vec::new();
    let end = conn.receive_data(DataSource::Local, &FRAME, &mut persisted, &mut ids, &Cleartext);
    assert_eq!(end, None);
    assert_eq!(conn.count_packets(), 0);
    assert_eq!(persisted, FRAME.to_vec());
    assert_eq!(conn.get_state(), ConnectionState::Closed);
    let mut buf = FRAME.to_vec();
    conn.add_packet(PacketDirection::SND, &mut buf, &mut ids, &Cleartext);
    assert!(buf.is_empty());
    assert_eq!(conn.count_packets(), 0);
}

#[test]
fn relay_read_decides_by_the_event() {
    let mut ids = LastId::new();
    let mut conn = relaying(&mut ids);
    assert_eq!(conn.relay_read(DataSource::Local, ReadEvent::TimedOut), RelayAction::Read);
    assert_eq!(conn.relay_read(DataSource::Local, ReadEvent::Eof), RelayAction::Shutdown);
    assert_eq!(conn.relay_read(DataSource::Local, ReadEvent::Data(0)), RelayAction::Shutdown);
    assert_eq!(conn.relay_read(DataSource::Remote, ReadEvent::Data(1024)), RelayAction::Forward);
    assert_eq!(conn.get_failure(), None);
    assert_eq!(conn.relay_read(DataSource::Remote, ReadEvent::Failed), RelayAction::Shutdown);
    assert_eq!(conn.get_failure(), Some(ErrorKind::IoTransient));
    assert_eq!(conn.get_state(), ConnectionState::Connecting);
}

#[test]
fn bytes_are_forwarded_even_when_closed() {
    let mut ids = LastId::new();
    let mut conn = relaying(&mut ids);
    conn.close();
    assert_eq!(conn.relay_read(DataSource::Local, ReadEvent::Data(5)), RelayAction::Forward);
    assert_eq!(conn.relay_poll(DataSource::Local), RelayAction::Shutdown);
}

#[test]
fn malformed_frame_stays_in_the_buffer_and_the_connection_runs() {
    let mut ids = LastId::new();
    let mut conn = relaying(&mut ids);
    let mut persisted = Vec::new();
    let mut data = FRAME.to_vec();
    data.extend_from_slice(&[3, 0, 1, 2]);
    let end = conn.receive_data(DataSource::Local, &data, &mut persisted, &mut ids, &Cleartext);
    assert_eq!(end, Some(ErrorKind::FrameMalformed));
    assert_eq!(conn.count_packets(), 1);
    assert_eq!(persisted, vec![3, 0, 1, 2]);
    assert_eq!(conn.get_state(), ConnectionState::Connected);
    assert_eq!(conn.relay_poll(DataSource::Local), RelayAction::Read);
    let end = conn.receive_data(DataSource::Local, &FRAME, &mut persisted, &mut ids, &Cleartext);
    assert_eq!(end, Some(ErrorKind::FrameMalformed));
    assert_eq!(conn.count_packets(), 1);
    assert_eq!(persisted.len(), 20);
}

#[test]
fn frames_are_recorded_in_arrival_order_with_growing_identifiers() {
    let mut ids = LastId::new();
    let mut conn = relaying(&mut ids);
    let mut local = Vec::new();
    let mut remote = Vec::new();
    let mut three = Vec::new();
    three.extend_from_slice(&frame(12, 1));
    three.extend_from_slice(&frame(14, 2));
    three.extend_from_slice(&frame(16, 3));
    conn.receive_data(DataSource::Local, &three, &mut local, &mut ids, &Cleartext);
    conn.receive_data(DataSource::Remote, &frame(13, 4), &mut remote, &mut ids, &Cleartext);
    conn.receive_data(DataSource::Local, &frame(15, 5), &mut local, &mut ids, &Cleartext);
    let lens: Vec<usize> = conn.get_packets().iter().map(|p| p.get_buffer().len()).collect();
    assert_eq!(lens, vec![12, 14, 16, 13, 15]);
    let got: Vec<u64> = conn.get_packets().iter().map(|p| p.get_id()).collect();
    assert_eq!(got, vec![1, 2, 3, 4, 5]);
    assert_eq!(ids.packets, 5);
    let snapshot = conn.snapshot_frames();
    assert_eq!(snapshot.len(), 5);
    assert_eq!(snapshot[3].get_direction(), PacketDirection::RCV);
    assert_eq!(snapshot[3].get_buffer(), &frame(13, 4));
}

#[test]
fn frames_without_an_identifier_are_dropped() {
    let mut ids = LastId { connections: 0, packets: u64::MAX - 1 };
    let mut conn = relaying(&mut ids);
    let mut persisted = Vec::new();
    let mut two = frame(12, 1);
    two.extend_from_slice(&frame(12, 2));
    conn.receive_data(DataSource::Local, &two, &mut persisted, &mut ids, &Cleartext);
    assert_eq!(conn.count_packets(), 1);
    assert_eq!(conn.get_packets()[0].get_id(), u64::MAX);
    assert_eq!(ids.packets, u64::MAX);
    assert!(persisted.is_empty());
}

fn cut(stream: &[u8], sizes: &[usize]) -> Vec<Vec<u8>> {
    let mut reads = Vec::new();
    let mut at = 0;
    let mut turn = 0;
    while at < stream.len() {
        let size = sizes[turn % sizes.len()].min(stream.len() - at);
        reads.push(stream[at..at + size].to_vec());
        at += size;
        turn += 1;
    }
    reads
}

fn feed(source: DataSource, reads: &[Vec<u8>]) -> (Vec<(PacketDirection, Vec<u8>)>, Vec<u8>, Vec<u8>) {
    let mut ids = LastId::new();
    let mut conn = relaying(&mut ids);
    let mut persisted = Vec::new();
    let mut forwarded = Vec::new();
    for read in reads {
        assert_eq!(conn.relay_poll(source), RelayAction::Read);
        assert_eq!(conn.relay_read(source, ReadEvent::Data(read.len())), RelayAction::Forward);
        forwarded.extend_from_slice(read);
        conn.receive_data(source, read, &mut persisted, &mut ids, &Cleartext);
    }
    let frames = conn
        .get_packets()
        .iter()
        .map(|p| (p.get_direction(), p.get_buffer().clone()))
        .collect();
    (frames, persisted, forwarded)
}

#[test]
fn any_cutting_into_reads_records_the_same_frames() {
    let mut stream = Vec::new();
    for (i, size) in [12u16, 40, 13, 700, 1500, 12, 64].iter().enumerate() {
        stream.extend_from_slice(&frame(*size, i as u8 + 1));
    }
    stream.extend_from_slice(&[90, 0, 1]);
    let whole = feed(DataSource::Local, &[stream.clone()]);
    assert_eq!(whole.0.len(), 7);
    assert_eq!(whole.1, vec![90, 0, 1]);
    let cuts: [&[usize]; 7] =
        [&[1], &[2, 3], &[7, 1, 1024], &[1024], &[119, 5], &[13, 12, 11], &[500, 1, 1, 1]];
    for sizes in cuts {
        let reads = cut(&stream, sizes);
        assert!(reads[0].len() != 120);
        let (frames, residue, forwarded) = feed(DataSource::Local, &reads);
        assert_eq!(frames, whole.0);
        assert_eq!(residue, whole.1);
        assert_eq!(forwarded, stream);
        assert!(frames.iter().all(|(direction, _)| *direction == PacketDirection::SND));
    }
}

#[test]
fn after_a_first_read_of_120_bytes_framing_goes_on_from_offset_four() {
    let mut stream = vec![0xaa, 0xbb, 0xcc, 0xdd];
    for (i, size) in [50u16, 100, 12, 300, 33].iter().enumerate() {
        stream.extend_from_slice(&frame(*size, i as u8 + 1));
    }
    stream.extend_from_slice(&[200, 0, 9, 9, 9]);
    let cuts: [&[usize]; 4] = [&[120, 1], &[120, 7, 64], &[120, 1024], &[120, 120, 3]];
    for sizes in cuts {
        let reads = cut(&stream, sizes);
        assert_eq!(reads[0].len(), 120);
        let (frames, residue, forwarded) = feed(DataSource::Remote, &reads);
        assert_eq!(forwarded, stream);
        assert_eq!(frames.len(), 5);
        let mut joined: Vec<u8> = Vec::new();
        for (direction, bytes) in &frames {
            assert_eq!(*direction, PacketDirection::RCV);
            joined.extend_from_slice(bytes);
        }
        joined.extend_from_slice(&residue);
        assert_eq!(joined, stream[4..].to_vec());
        assert_eq!(residue, vec![200, 0, 9, 9, 9]);
    }
}
