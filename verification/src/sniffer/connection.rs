//! One intercepted connection: its life from listening to closed, the
//! decisions of its relay, and the frames it has captured.

use vstd::prelude::*;
use crate::errors::ErrorKind;
use crate::sniffer::codec::{
    concat, contents, extract_frames, frames_of, framing_end, has_frame, lemma_framing,
    lemma_framing_resumes, residue_of, FrameTransform,
};
use crate::sniffer::last_id::LastId;
use crate::sniffer::packet::{captured, Packet, PacketDirection, PacketView};

verus! {

/// The port on which the proxy listens and the one it dials.
pub const PORT: u16 = 8281;

/// Milliseconds that one poll of the listener or of a socket may take.
pub const POLL_TIMEOUT_MS: u64 = 100;

/// Milliseconds that the dial of the remote peer may take.
pub const DIAL_TIMEOUT_MS: u64 = 1500;

/// The most bytes taken from a socket in one read.
pub const READ_CHUNK: usize = 1024;

/// The length of a first read that carries the handshake prefix.
pub const HANDSHAKE_SEGMENT: usize = 120;

/// The bytes of the handshake prefix, which are never framed.
pub const HANDSHAKE_PREFIX: usize = 4;

/// Where a connection stands in its life.
#[derive(Debug, Clone, Copy, PartialEq, Eq, Structural)]
pub enum ConnectionState {
    /// Listening; no local client yet.
    WaitingLocal,
    /// The local client is bound; the remote peer is being dialled.
    WaitingRemote,
    /// Both sides are bound; no byte has passed yet.
    Connecting,
    /// Relaying and recording.
    Connected,
    /// Relaying without recording.
    Paused,
    /// Over. No other state follows.
    Closed,
}

impl ConnectionState {
    /// The words that the viewer shows for the state.
    pub open spec fn label(&self) -> Seq<char> {
        match self {
            ConnectionState::WaitingLocal => "Aguardando local"@,
            ConnectionState::WaitingRemote => "Aguardando remoto"@,
            ConnectionState::Connecting => "Aguardando conexão"@,
            ConnectionState::Connected => "Conectado"@,
            ConnectionState::Paused => "Conectado, pausado"@,
            ConnectionState::Closed => "Fechado"@,
        }
    }

    /// The words that the viewer shows for the state, as text.
    pub fn to_string(&self) -> (text: String)
        ensures
            text@ == self.label(),
    {
        match self {
            ConnectionState::WaitingLocal => "Aguardando local".to_owned(),
            ConnectionState::WaitingRemote => "Aguardando remoto".to_owned(),
            ConnectionState::Connecting => "Aguardando conexão".to_owned(),
            ConnectionState::Connected => "Conectado".to_owned(),
            ConnectionState::Paused => "Conectado, pausado".to_owned(),
            ConnectionState::Closed => "Fechado".to_owned(),
        }
    }
}

/// The side that bytes come from.
#[derive(Debug, Clone, Copy, PartialEq, Eq, Structural)]
pub enum DataSource {
    Local,
    Remote,
}

/// What became of binding the listener or of one poll of it.
#[derive(Debug, Clone, Copy, PartialEq, Eq, Structural)]
pub enum AcceptEvent {
    /// The listener is bound.
    Bound,
    /// The listener could not be bound.
    BindFailed,
    /// The poll ran out of time with no client.
    TimedOut,
    /// The poll failed.
    Failed,
    /// A local client is there.
    Accepted,
}

/// What the coordinator does next while it waits for the local client.
#[derive(Debug, Clone, Copy, PartialEq, Eq, Structural)]
pub enum AcceptAction {
    /// Poll the listener once more.
    Poll,
    /// Dial the remote peer.
    Dial,
    /// Give the connection up.
    Stop,
}

/// What became of the dial of the remote peer.
#[derive(Debug, Clone, Copy, PartialEq, Eq, Structural)]
pub enum DialEvent {
    /// The remote peer answered.
    Connected,
    /// The dial failed.
    Failed,
    /// The dial ran out of time.
    TimedOut,
}

/// What the coordinator does after the dial.
#[derive(Debug, Clone, Copy, PartialEq, Eq, Structural)]
pub enum DialAction {
    /// Start the two relays and wait for both.
    Relay,
    /// Give the connection up.
    Stop,
}

/// What became of one read of a relay.
#[derive(Debug, Clone, Copy, PartialEq, Eq, Structural)]
pub enum ReadEvent {
    /// The read ran out of time with no byte.
    TimedOut,
    /// The peer has ended its stream.
    Eof,
    /// The read failed.
    Failed,
    /// This many bytes were read.
    Data(usize),
}

/// What a relay does next.
#[derive(Debug, Clone, Copy, PartialEq, Eq, Structural)]
pub enum RelayAction {
    /// Read from its own side once more.
    Read,
    /// Write what was read to the opposite side, then hand it in for
    /// recording.
    Forward,
    /// Shut the opposite writer down and end.
    Shutdown,
}

/// What a connection is: the mathematical value of a [`Connection`].
pub struct ConnectionView {
    pub id: u64,
    pub ip: Seq<char>,
    pub state: ConnectionState,
    pub local_bound: bool,
    pub remote_bound: bool,
    pub packets: Seq<PacketView>,
    pub failure: Option<ErrorKind>,
}

/// The values of a list of frames.
pub open spec fn packet_views(packets: Seq<Packet>) -> Seq<PacketView> {
    packets.map_values(|p: Packet| p@)
}

/// Whether frames are recorded in `state`: in every state but paused and
/// closed.
pub open spec fn records(state: ConnectionState) -> bool {
    state != ConnectionState::Paused && state != ConnectionState::Closed
}

/// The direction of the frames that come from `source`.
pub open spec fn direction_of(source: DataSource) -> PacketDirection {
    match source {
        DataSource::Local => PacketDirection::SND,
        DataSource::Remote => PacketDirection::RCV,
    }
}

/// How many of `count` frames are recorded when `last` was the last frame
/// identifier handed out: all of them, unless the identifiers run out.
pub open spec fn recordable(count: nat, last: u64) -> nat {
    if count <= u64::MAX - last {
        count
    } else {
        (u64::MAX - last) as nat
    }
}

/// The frames recorded for the raw frames `frames`: each decoded, and
/// numbered from `last + 1` on.
pub open spec fn recorded<T: FrameTransform>(
    transform: &T,
    frames: Seq<Seq<u8>>,
    direction: PacketDirection,
    last: u64,
) -> Seq<PacketView> {
    Seq::new(
        recordable(frames.len(), last),
        |i: int| captured((last + 1 + i) as u64, direction, transform.decoded(frames[i])),
    )
}

/// Whether the frames of a list are well formed and carry identifiers that
/// grow strictly along the list, from 1 up to `last` at most.
pub open spec fn ordered(packets: Seq<PacketView>, last: u64) -> bool {
    &&& forall|i: int| 0 <= i < packets.len() ==> (#[trigger] packets[i]).wf()
    &&& forall|i: int| 0 <= i < packets.len() ==> 1 <= (#[trigger] packets[i]).id <= last
    &&& forall|i: int, j: int|
        0 <= i < j < packets.len() ==> (#[trigger] packets[i]).id < (#[trigger] packets[j]).id
}

/// The stream that is framed after `data` arrived behind `persisted`: both
/// joined, less the handshake prefix when this is the first read of the
/// connection and it is exactly 120 bytes long.
pub open spec fn framed_stream(state: ConnectionState, persisted: Seq<u8>, data: Seq<u8>) -> Seq<
    u8,
> {
    if state == ConnectionState::Connecting && data.len() == HANDSHAKE_SEGMENT {
        (persisted + data).skip(HANDSHAKE_PREFIX as int)
    } else {
        persisted + data
    }
}

/// The state in which the bytes of a read are recorded: the first read of a
/// connection makes it connected.
pub open spec fn state_on_data(state: ConnectionState) -> ConnectionState {
    if state == ConnectionState::Connecting {
        ConnectionState::Connected
    } else {
        state
    }
}

/// Whether a relay is running in `state`.
pub open spec fn relays(state: ConnectionState) -> bool {
    state == ConnectionState::Connecting || state == ConnectionState::Connected || state
        == ConnectionState::Paused
}

/// One intercepted connection.
#[derive(Debug)]
pub struct Connection {
    id: u64,
    ip: String,
    state: ConnectionState,
    local_bound: bool,
    remote_bound: bool,
    packets: Vec<Packet>,
    failure: Option<ErrorKind>,
}

impl View for Connection {
    type V = ConnectionView;

    closed spec fn view(&self) -> ConnectionView {
        ConnectionView {
            id: self.id,
            ip: self.ip@,
            state: self.state,
            local_bound: self.local_bound,
            remote_bound: self.remote_bound,
            packets: packet_views(self.packets@),
            failure: self.failure,
        }
    }
}

impl PartialEq for Connection {
    /// Two connections are the same connection when they carry the same
    /// identifier.
    fn eq(&self, other: &Connection) -> (same: bool) {
        self.id == other.id
    }
}

impl vstd::std_specs::cmp::PartialEqSpecImpl for Connection {
    open spec fn obeys_eq_spec() -> bool {
        true
    }

    open spec fn eq_spec(&self, other: &Connection) -> bool {
        self@.id == other@.id
    }
}

impl ConnectionView {
    /// Whether the connection is sound under the counters `ids`: its
    /// identifier has been handed out, its frames are ordered and their
    /// identifiers have been handed out, and a side is bound only once the
    /// connection has come that far.
    pub open spec fn wf(&self, ids: LastId) -> bool {
        &&& 1 <= self.id <= ids.connections
        &&& ordered(self.packets, ids.packets)
        &&& self.state == ConnectionState::WaitingLocal ==> !self.local_bound && !self.remote_bound
        &&& self.state == ConnectionState::WaitingRemote ==> self.local_bound && !self.remote_bound
        &&& relays(self.state) ==> self.local_bound && self.remote_bound
        &&& self.remote_bound ==> self.local_bound
    }
}

impl Connection {
    /// Whether the connection is sound under the counters `ids`.
    pub open spec fn wf(&self, ids: LastId) -> bool {
        self@.wf(ids)
    }

    /// A connection to the peer `ip`, under the next connection identifier,
    /// listening for its local client. There is none when the identifiers
    /// have run out.
    pub fn new(last_id: &mut LastId, ip: String) -> (conn: Option<Connection>)
        ensures
            final(last_id).packets == old(last_id).packets,
            old(last_id).connections == u64::MAX ==> conn.is_none() && final(last_id).connections
                == old(last_id).connections,
            old(last_id).connections < u64::MAX ==> final(last_id).connections == old(
                last_id,
            ).connections + 1 && conn.is_some() && conn.unwrap()@ == (ConnectionView {
                id: (old(last_id).connections + 1) as u64,
                ip: ip@,
                state: ConnectionState::WaitingLocal,
                local_bound: false,
                remote_bound: false,
                packets: Seq::empty(),
                failure: None,
            }),
    {
        match last_id.sync_next_connection_id() {
            Some(id) => {
                let conn = Connection {
                    id,
                    ip,
                    state: ConnectionState::WaitingLocal,
                    local_bound: false,
                    remote_bound: false,
                    packets: Vec::new(),
                    failure: None,
                };
                assert(conn@.packets =~= Seq::empty());
                Some(conn)
            },
            None => None,
        }
    }

    /// The identifier of the connection.
    pub fn get_id(&self) -> (id: u64)
        ensures
            id == self@.id,
    {
        self.id
    }

    /// The address of the remote peer.
    pub fn get_ip(&self) -> (ip: &String)
        ensures
            ip@ == self@.ip,
    {
        &self.ip
    }

    /// Where the connection stands.
    pub fn get_state(&self) -> (state: ConnectionState)
        ensures
            state == self@.state,
    {
        self.state
    }

    /// The failure that ended the connection, if one did.
    pub fn get_failure(&self) -> (failure: Option<ErrorKind>)
        ensures
            failure == self@.failure,
    {
        self.failure
    }

    /// The frames captured so far, in the order of their arrival.
    pub fn get_packets(&self) -> (packets: &Vec<Packet>)
        ensures
            packet_views(packets@) == self@.packets,
    {
        &self.packets
    }

    /// A copy of the frames captured so far, for a reader to keep.
    pub fn snapshot_frames(&self) -> (frames: Vec<Packet>)
        ensures
            packet_views(frames@) == self@.packets,
    {
        let mut frames: Vec<Packet> = Vec::with_capacity(self.packets.len());
        let mut i: usize = 0;
        while i < self.packets.len()
            invariant
                i <= self.packets@.len(),
                frames@.len() == i,
                packet_views(frames@) == packet_views(self.packets@).take(i as int),
            decreases self.packets@.len() - i,
        {
            let ghost before = frames@;
            let copy: Packet = self.packets[i].clone();
            frames.push(copy);
            assert(packet_views(frames@) =~= packet_views(before).push(copy@));
            i = i + 1;
            assert(packet_views(frames@) =~= packet_views(self.packets@).take(i as int));
        }
        assert(packet_views(self.packets@).take(i as int) =~= packet_views(self.packets@));
        frames
    }

    /// Whether this connection still keeps the listening port to itself, so
    /// that no other can be opened: it does while it waits for its local
    /// client or for its remote peer.
    pub fn is_new_connection_disabled(&self) -> (disabled: bool)
        ensures
            disabled == (self@.state == ConnectionState::WaitingLocal || self@.state
                == ConnectionState::WaitingRemote),
    {
        match self.state {
            ConnectionState::WaitingLocal | ConnectionState::WaitingRemote => true,
            _ => false,
        }
    }

    /// The number of frames captured so far.
    pub fn count_packets(&self) -> (count: usize)
        ensures
            count == self@.packets.len(),
    {
        self.packets.len()
    }

    /// Ends the connection. Closing a closed connection changes nothing.
    pub fn close(&mut self)
        ensures
            final(self)@ == closed(old(self)@),
    {
        match self.state {
            ConnectionState::Closed => {},
            _ => {
                self.state = ConnectionState::Closed;
            },
        }
    }

    /// Stops recording on a connected connection; the relay goes on. In any
    /// other state nothing changes.
    pub fn pause(&mut self)
        ensures
            final(self)@ == paused(old(self)@),
    {
        if self.state == ConnectionState::Connected {
            self.state = ConnectionState::Paused;
        }
    }

    /// Takes recording up again on a paused connection. In any other state
    /// nothing changes.
    pub fn resume(&mut self)
        ensures
            final(self)@ == resumed(old(self)@),
    {
        if self.state == ConnectionState::Paused {
            self.state = ConnectionState::Connected;
        }
    }

    /// Selects the byte at `index` in the frame at `place`.
    pub fn set_selected_buffer_index(&mut self, place: usize, index: usize)
        requires
            place < old(self)@.packets.len(),
        ensures
            final(self)@ == (ConnectionView {
                packets: old(self)@.packets.update(
                    place as int,
                    PacketView { selected_buffer_index: index, ..old(self)@.packets[place as int] },
                ),
                ..old(self)@
            }),
    {
        let ghost before = self.packets@;
        assert(packet_views(before)[place as int] == before[place as int]@);
        self.packets[place].set_selected_buffer_index(index);
        assert(packet_views(self.packets@) =~= packet_views(before).update(
            place as int,
            PacketView { selected_buffer_index: index, ..before[place as int]@ },
        ));
    }

    /// Notes the number of columns in which the viewer lays out the frame at
    /// `place`.
    pub fn update_columns_count(&mut self, place: usize, new_columns_count: usize)
        requires
            place < old(self)@.packets.len(),
        ensures
            final(self)@ == (ConnectionView {
                packets: old(self)@.packets.update(
                    place as int,
                    PacketView {
                        columns_count: new_columns_count,
                        ..old(self)@.packets[place as int]
                    },
                ),
                ..old(self)@
            }),
    {
        let ghost before = self.packets@;
        assert(packet_views(before)[place as int] == before[place as int]@);
        self.packets[place].update_columns_count(new_columns_count);
        assert(packet_views(self.packets@) =~= packet_views(before).update(
            place as int,
            PacketView { columns_count: new_columns_count, ..before[place as int]@ },
        ));
    }

    /// Keeps the first failure of the connection.
    fn fail(&mut self, kind: ErrorKind)
        ensures
            final(self)@ == failed(old(self)@, kind),
    {
        if self.failure.is_none() {
            self.failure = Some(kind);
        }
    }

    /// Decides what follows an event of the listener. Only a connection that
    /// waits for its local client listens: in any other state the answer is
    /// to stop, and nothing changes. While it waits, a bound listener and a
    /// poll that ran out of time are followed by a poll; a client binds the
    /// local side and is followed by the dial; a failure closes the
    /// connection.
    pub fn accept_connection(&mut self, event: AcceptEvent) -> (action: AcceptAction)
        ensures
            final(self)@ == accept_next(old(self)@, event),
            action == accept_action(old(self)@, event),
    {
        if self.state != ConnectionState::WaitingLocal {
            return AcceptAction::Stop;
        }
        match event {
            AcceptEvent::Bound | AcceptEvent::TimedOut => AcceptAction::Poll,
            AcceptEvent::BindFailed | AcceptEvent::Failed => {
                self.fail(ErrorKind::IoTransient);
                self.close();
                AcceptAction::Stop
            },
            AcceptEvent::Accepted => {
                self.local_bound = true;
                self.state = ConnectionState::WaitingRemote;
                AcceptAction::Dial
            },
        }
    }

    /// Decides what follows the dial. Only a connection that waits for its
    /// remote peer dials: in any other state the answer is to stop, and
    /// nothing changes. An answer binds the remote side and starts the
    /// relays; a failure or a dial out of time closes the connection.
    pub fn connect_to_remote(&mut self, event: DialEvent) -> (action: DialAction)
        ensures
            final(self)@ == dial_next(old(self)@, event),
            action == dial_action(old(self)@, event),
    {
        if self.state != ConnectionState::WaitingRemote {
            return DialAction::Stop;
        }
        match event {
            DialEvent::Connected => {
                self.remote_bound = true;
                self.state = ConnectionState::Connecting;
                DialAction::Relay
            },
            DialEvent::Failed => {
                self.fail(ErrorKind::IoTransient);
                self.close();
                DialAction::Stop
            },
            DialEvent::TimedOut => {
                self.fail(ErrorKind::IoTimeout);
                self.close();
                DialAction::Stop
            },
        }
    }

    /// Decides, before a read, whether the relay that reads from `source`
    /// goes on: it reads while the connection is not closed and the side it
    /// reads from is bound, and shuts down otherwise.
    pub fn relay_poll(&self, source: DataSource) -> (action: RelayAction)
        ensures
            action == poll_action(self@, source),
    {
        if self.state == ConnectionState::Closed {
            return RelayAction::Shutdown;
        }
        let bound = match source {
            DataSource::Local => self.local_bound,
            DataSource::Remote => self.remote_bound,
        };
        if bound {
            RelayAction::Read
        } else {
            RelayAction::Shutdown
        }
    }

    /// Decides what follows a read from `source`. A read out of time is
    /// followed by another; the end of the stream, a failure and an empty
    /// read shut the relay down, and a failure is kept with the connection;
    /// bytes are forwarded when the opposite side is bound, whatever the
    /// state, and shut the relay down when it is not.
    pub fn relay_read(&mut self, source: DataSource, event: ReadEvent) -> (action: RelayAction)
        ensures
            action == read_action(old(self)@, source, event),
            final(self)@ == read_next(old(self)@, event),
    {
        match event {
            ReadEvent::TimedOut => RelayAction::Read,
            ReadEvent::Eof => RelayAction::Shutdown,
            ReadEvent::Failed => {
                self.fail(ErrorKind::IoTransient);
                RelayAction::Shutdown
            },
            ReadEvent::Data(size) => {
                let bound = match source {
                    DataSource::Local => self.remote_bound,
                    DataSource::Remote => self.local_bound,
                };
                if size >= 1 && bound {
                    RelayAction::Forward
                } else {
                    RelayAction::Shutdown
                }
            },
        }
    }

    /// Cuts the frames that open `buf` out of it and, unless the connection
    /// is paused or closed, records each of them, decoded, under the next
    /// frame identifier. `buf` keeps the residue. Frames for which no
    /// identifier is left are dropped. Reports a pass that ended on a
    /// malformed frame.
    pub fn add_packet<T: FrameTransform>(
        &mut self,
        direction: PacketDirection,
        buf: &mut Vec<u8>,
        last_id: &mut LastId,
        transform: &T,
    ) -> (end: Option<ErrorKind>)
        requires
            old(self).wf(*old(last_id)),
        ensures
            final(buf)@ == residue_of(old(buf)@),
            end == framing_end(final(buf)@),
            final(self)@ == framed(transform, old(self)@, direction, old(buf)@, old(last_id).packets),
            *final(last_id) == (LastId {
                packets: (old(last_id).packets + added(
                    transform,
                    old(self)@.state,
                    frames_of(old(buf)@),
                    direction,
                    old(last_id).packets,
                ).len()) as u64,
                ..*old(last_id)
            }),
            final(self).wf(*final(last_id)),
    {
        let (frames, end) = extract_frames(buf);
        let ghost raw = frames_of(old(buf)@);
        let ghost first = old(last_id).packets;
        let ghost all = recorded(transform, raw, direction, first);
        match self.state {
            ConnectionState::Paused | ConnectionState::Closed => {
                assert(self@.packets + Seq::<PacketView>::empty() =~= self@.packets);
                return end;
            },
            _ => {},
        }
        let mut i: usize = 0;
        while i < frames.len()
            invariant_except_break
                i <= recordable(raw.len(), first),
                last_id.packets == first + i,
            invariant
                i <= frames@.len(),
                contents(frames@) == raw,
                raw == frames_of(old(buf)@),
                first == old(last_id).packets,
                all == recorded(transform, raw, direction, first),
                last_id.connections == old(last_id).connections,
                self@ == (ConnectionView {
                    packets: old(self)@.packets + all.take(i as int),
                    ..old(self)@
                }),
                self.wf(*last_id),
                last_id.packets >= first,
            ensures
                i == recordable(raw.len(), first),
                last_id.packets == first + i,
            decreases frames@.len() - i,
        {
            let mut frame: Vec<u8> = frames[i].clone();
            assert(frame@ == raw[i as int]) by {
                assert(contents(frames@)[i as int] == frames@[i as int]@);
            }
            proof {
                transform.lemma_round_trip(frame@);
                crate::sniffer::codec::lemma_framing(old(buf)@);
                assert(raw.len() == frames@.len());
                let f = frames_of(old(buf)@)[i as int];
                assert(f.len() >= 12);
            }
            transform.decode(frame.as_mut_slice());
            match Packet::new_sync(last_id, direction, frame) {
                Some(packet) => {
                    let ghost before = self.packets@;
                    assert(packet@ == all[i as int]);
                    self.packets.push(packet);
                    assert(packet_views(self.packets@) =~= packet_views(before).push(packet@));
                    assert(self@.packets =~= old(self)@.packets + all.take(i + 1));
                    i = i + 1;
                },
                None => {
                    break ;
                },
            }
        }
        assert(all.take(i as int) =~= all);
        end
    }

    /// Records what a read from `source` brought, after it was forwarded:
    /// `data` goes behind `persisted`, the reassembly buffer of that
    /// direction. While a relay runs the stream is then framed: the first
    /// read of the connection makes it connected and, when it is exactly 120
    /// bytes long, loses its four-byte prefix first; the frames are recorded
    /// as [`Connection::add_packet`] does, in the direction of `source`, and
    /// `persisted` keeps the residue. In any other state `persisted` only
    /// grows.
    pub fn receive_data<T: FrameTransform>(
        &mut self,
        source: DataSource,
        data: &[u8],
        persisted: &mut Vec<u8>,
        last_id: &mut LastId,
        transform: &T,
    ) -> (end: Option<ErrorKind>)
        requires
            old(self).wf(*old(last_id)),
        ensures
            final(self).wf(*final(last_id)),
            final(self)@ == received(
                transform,
                old(self)@,
                source,
                old(persisted)@,
                data@,
                old(last_id).packets,
            ),
            final(persisted)@ == persisted_next(old(self)@.state, old(persisted)@, data@),
            end == (if relays(old(self)@.state) {
                framing_end(final(persisted)@)
            } else {
                None
            }),
            *final(last_id) == (LastId {
                packets: (old(last_id).packets + received(
                    transform,
                    old(self)@,
                    source,
                    old(persisted)@,
                    data@,
                    old(last_id).packets,
                ).packets.len() - old(self)@.packets.len()) as u64,
                ..*old(last_id)
            }),
    {
        persisted.extend_from_slice(data);
        let direction = match source {
            DataSource::Local => PacketDirection::SND,
            DataSource::Remote => PacketDirection::RCV,
        };
        match self.state {
            ConnectionState::Connecting | ConnectionState::Connected | ConnectionState::Paused => {},
            _ => {
                return None;
            },
        }
        assert(relays(old(self)@.state));
        if self.state == ConnectionState::Connecting {
            self.state = ConnectionState::Connected;
            if data.len() == HANDSHAKE_SEGMENT {
                let rest: Vec<u8> = persisted.split_off(HANDSHAKE_PREFIX);
                *persisted = rest;
                assert(persisted@ =~= (old(persisted)@ + data@).skip(HANDSHAKE_PREFIX as int));
            }
        }
        let ghost mid = self@;
        assert(mid == (ConnectionView { state: state_on_data(old(self)@.state), ..old(self)@ }));
        assert(persisted@ == framed_stream(old(self)@.state, old(persisted)@, data@));
        assert(direction == direction_of(source));
        let end = self.add_packet(direction, persisted, last_id, transform);
        assert(self@ == (ConnectionView {
            state: mid.state,
            packets: self@.packets,
            ..old(self)@
        }));
        end
    }
}

/// The frames that a framing pass adds to a connection in `state`: those
/// recorded for the raw frames, or none while the connection does not
/// record.
pub open spec fn added<T: FrameTransform>(
    transform: &T,
    state: ConnectionState,
    frames: Seq<Seq<u8>>,
    direction: PacketDirection,
    last: u64,
) -> Seq<PacketView> {
    if records(state) {
        recorded(transform, frames, direction, last)
    } else {
        Seq::empty()
    }
}

/// The connection after a framing pass over `buf`.
pub open spec fn framed<T: FrameTransform>(
    transform: &T,
    conn: ConnectionView,
    direction: PacketDirection,
    buf: Seq<u8>,
    last: u64,
) -> ConnectionView {
    ConnectionView {
        packets: conn.packets + added(transform, conn.state, frames_of(buf), direction, last),
        ..conn
    }
}

/// The connection after `data`, read from `source`, was handed in behind
/// `persisted`.
pub open spec fn received<T: FrameTransform>(
    transform: &T,
    conn: ConnectionView,
    source: DataSource,
    persisted: Seq<u8>,
    data: Seq<u8>,
    last: u64,
) -> ConnectionView {
    if relays(conn.state) {
        framed(
            transform,
            ConnectionView { state: state_on_data(conn.state), ..conn },
            direction_of(source),
            framed_stream(conn.state, persisted, data),
            last,
        )
    } else {
        conn
    }
}

/// The reassembly buffer after `data` was handed in behind `persisted`.
pub open spec fn persisted_next(state: ConnectionState, persisted: Seq<u8>, data: Seq<u8>) -> Seq<
    u8,
> {
    if relays(state) {
        residue_of(framed_stream(state, persisted, data))
    } else {
        persisted + data
    }
}

/// The connection, closed.
pub open spec fn closed(conn: ConnectionView) -> ConnectionView {
    ConnectionView { state: ConnectionState::Closed, ..conn }
}

/// The connection after a request to pause: only a connected one pauses.
pub open spec fn paused(conn: ConnectionView) -> ConnectionView {
    if conn.state == ConnectionState::Connected {
        ConnectionView { state: ConnectionState::Paused, ..conn }
    } else {
        conn
    }
}

/// The connection after a request to resume: only a paused one resumes.
pub open spec fn resumed(conn: ConnectionView) -> ConnectionView {
    if conn.state == ConnectionState::Paused {
        ConnectionView { state: ConnectionState::Connected, ..conn }
    } else {
        conn
    }
}

/// The connection after a read: a failed one is kept as its failure.
pub open spec fn read_next(conn: ConnectionView, event: ReadEvent) -> ConnectionView {
    if event == ReadEvent::Failed {
        failed(conn, ErrorKind::IoTransient)
    } else {
        conn
    }
}

/// The connection with `kind` kept as its failure, unless it has one.
pub open spec fn failed(conn: ConnectionView, kind: ErrorKind) -> ConnectionView {
    ConnectionView {
        failure: if conn.failure.is_some() {
            conn.failure
        } else {
            Some(kind)
        },
        ..conn
    }
}

/// The connection after an event of the listener.
pub open spec fn accept_next(conn: ConnectionView, event: AcceptEvent) -> ConnectionView {
    if conn.state != ConnectionState::WaitingLocal {
        conn
    } else {
        match event {
            AcceptEvent::Bound | AcceptEvent::TimedOut => conn,
            AcceptEvent::BindFailed | AcceptEvent::Failed => closed(
                failed(conn, ErrorKind::IoTransient),
            ),
            AcceptEvent::Accepted => ConnectionView {
                state: ConnectionState::WaitingRemote,
                local_bound: true,
                ..conn
            },
        }
    }
}

/// What follows an event of the listener.
pub open spec fn accept_action(conn: ConnectionView, event: AcceptEvent) -> AcceptAction {
    if conn.state != ConnectionState::WaitingLocal {
        AcceptAction::Stop
    } else {
        match event {
            AcceptEvent::Bound | AcceptEvent::TimedOut => AcceptAction::Poll,
            AcceptEvent::BindFailed | AcceptEvent::Failed => AcceptAction::Stop,
            AcceptEvent::Accepted => AcceptAction::Dial,
        }
    }
}

/// The connection after the dial.
pub open spec fn dial_next(conn: ConnectionView, event: DialEvent) -> ConnectionView {
    if conn.state != ConnectionState::WaitingRemote {
        conn
    } else {
        match event {
            DialEvent::Connected => ConnectionView {
                state: ConnectionState::Connecting,
                remote_bound: true,
                ..conn
            },
            DialEvent::Failed => closed(failed(conn, ErrorKind::IoTransient)),
            DialEvent::TimedOut => closed(failed(conn, ErrorKind::IoTimeout)),
        }
    }
}

/// What follows the dial.
pub open spec fn dial_action(conn: ConnectionView, event: DialEvent) -> DialAction {
    if conn.state == ConnectionState::WaitingRemote && event == DialEvent::Connected {
        DialAction::Relay
    } else {
        DialAction::Stop
    }
}

/// Whether the side `source` is bound.
pub open spec fn bound(conn: ConnectionView, source: DataSource) -> bool {
    match source {
        DataSource::Local => conn.local_bound,
        DataSource::Remote => conn.remote_bound,
    }
}

/// The side opposite to `source`.
pub open spec fn opposite(source: DataSource) -> DataSource {
    match source {
        DataSource::Local => DataSource::Remote,
        DataSource::Remote => DataSource::Local,
    }
}

/// What a relay does before a read.
pub open spec fn poll_action(conn: ConnectionView, source: DataSource) -> RelayAction {
    if conn.state != ConnectionState::Closed && bound(conn, source) {
        RelayAction::Read
    } else {
        RelayAction::Shutdown
    }
}

/// What a relay does after a read.
pub open spec fn read_action(conn: ConnectionView, source: DataSource, event: ReadEvent) -> RelayAction {
    match event {
        ReadEvent::TimedOut => RelayAction::Read,
        ReadEvent::Eof | ReadEvent::Failed => RelayAction::Shutdown,
        ReadEvent::Data(size) => if size >= 1 && bound(conn, opposite(source)) {
            RelayAction::Forward
        } else {
            RelayAction::Shutdown
        },
    }
}

/// A closed connection stays closed: no event of the listener, of the dial
/// or of a relay, no request to pause, resume or close and no bytes handed
/// in lead it to another state or add a frame to it, and each of its tasks
/// is told to end at its next step.
pub proof fn lemma_closed_is_terminal<T: FrameTransform>(
    transform: &T,
    conn: ConnectionView,
    accept: AcceptEvent,
    dial: DialEvent,
    read: ReadEvent,
    source: DataSource,
    persisted: Seq<u8>,
    data: Seq<u8>,
    last: u64,
)
    requires
        conn.state == ConnectionState::Closed,
    ensures
        accept_next(conn, accept) == conn,
        accept_action(conn, accept) == AcceptAction::Stop,
        dial_next(conn, dial) == conn,
        dial_action(conn, dial) == DialAction::Stop,
        poll_action(conn, source) == RelayAction::Shutdown,
        read_next(conn, read).state == ConnectionState::Closed,
        read_next(conn, read).packets == conn.packets,
        received(transform, conn, source, persisted, data, last) == conn,
        paused(conn) == conn,
        resumed(conn) == conn,
        closed(conn) == conn,
{
}

/// Closing takes effect at once and from every state, and the next step of
/// each task of the connection ends it: the listener is not polled again,
/// the dial is not followed by a relay, and a relay shuts down before its
/// next read.
pub proof fn lemma_close_stops(conn: ConnectionView, accept: AcceptEvent, dial: DialEvent, source: DataSource)
    ensures
        closed(conn).state == ConnectionState::Closed,
        closed(closed(conn)) == closed(conn),
        accept_action(closed(conn), accept) == AcceptAction::Stop,
        dial_action(closed(conn), dial) == DialAction::Stop,
        poll_action(closed(conn), source) == RelayAction::Shutdown,
{
}

/// While a connection is paused its bytes are still passed on, and handing
/// them in consumes their frames without recording any: the frames of the
/// connection stay as they are and no identifier is handed out.
pub proof fn lemma_paused_relays_without_recording<T: FrameTransform>(
    transform: &T,
    conn: ConnectionView,
    source: DataSource,
    persisted: Seq<u8>,
    data: Seq<u8>,
    last: u64,
)
    requires
        conn.state == ConnectionState::Paused,
        conn.local_bound,
        conn.remote_bound,
        1 <= data.len() <= usize::MAX,
    ensures
        read_action(conn, source, ReadEvent::Data(data.len() as usize)) == RelayAction::Forward,
        received(transform, conn, source, persisted, data, last) == conn,
        persisted_next(conn.state, persisted, data) == residue_of(persisted + data),
{
    assert(conn.packets + Seq::<PacketView>::empty() =~= conn.packets);
}

/// Whether `after` keeps what `before` has: its identifier and its peer,
/// each side that is bound, and its frames, behind which frames may have
/// been added. Its life has not moved backward, where connected and paused
/// count as one stage.
pub open spec fn keeps(before: ConnectionView, after: ConnectionView) -> bool {
    &&& after.id == before.id
    &&& after.ip == before.ip
    &&& before.local_bound ==> after.local_bound
    &&& before.remote_bound ==> after.remote_bound
    &&& before.packets.len() <= after.packets.len()
    &&& after.packets.take(before.packets.len() as int) == before.packets
    &&& stage(before.state) <= stage(after.state)
}

/// No step takes anything back: a step of the listener, of the dial or of
/// a relay, bytes handed in, and a request to pause, resume or close each
/// keep the identifier and the peer of the connection, leave a bound side
/// bound, only add frames behind those recorded, and move the life of the
/// connection forward or not at all.
pub proof fn lemma_steps_only_add<T: FrameTransform>(
    transform: &T,
    conn: ConnectionView,
    accept: AcceptEvent,
    dial: DialEvent,
    read: ReadEvent,
    source: DataSource,
    persisted: Seq<u8>,
    data: Seq<u8>,
    last: u64,
)
    ensures
        keeps(conn, accept_next(conn, accept)),
        keeps(conn, dial_next(conn, dial)),
        keeps(conn, read_next(conn, read)),
        keeps(conn, received(transform, conn, source, persisted, data, last)),
        keeps(conn, paused(conn)),
        keeps(conn, resumed(conn)),
        keeps(conn, closed(conn)),
{
    assert(conn.packets.take(conn.packets.len() as int) =~= conn.packets);
    let after = received(transform, conn, source, persisted, data, last);
    assert(after.packets.take(conn.packets.len() as int) =~= conn.packets);
}

/// How far a connection has come in its life.
pub open spec fn stage(state: ConnectionState) -> int {
    match state {
        ConnectionState::WaitingLocal => 0,
        ConnectionState::WaitingRemote => 1,
        ConnectionState::Connecting => 2,
        ConnectionState::Connected => 3,
        ConnectionState::Paused => 3,
        ConnectionState::Closed => 4,
    }
}

/// The frames recorded in one pass carry the identifiers that follow the
/// last one handed out, one after another, each above every identifier
/// handed out before; each is as long as the raw frame it was decoded from,
/// and encoding it gives that raw frame back.
pub proof fn lemma_recorded_identifiers<T: FrameTransform>(
    transform: &T,
    frames: Seq<Seq<u8>>,
    direction: PacketDirection,
    last: u64,
    i: int,
)
    requires
        0 <= i < recorded(transform, frames, direction, last).len(),
    ensures
        recorded(transform, frames, direction, last).len() <= frames.len(),
        recorded(transform, frames, direction, last)[i].id == last + 1 + i,
        recorded(transform, frames, direction, last)[i].id > last,
        recorded(transform, frames, direction, last)[i].direction == direction,
        recorded(transform, frames, direction, last)[i].buffer == transform.decoded(frames[i]),
        recorded(transform, frames, direction, last)[i].buffer.len() == frames[i].len(),
        transform.encoded(recorded(transform, frames, direction, last)[i].buffer) == frames[i],
{
    transform.lemma_round_trip(frames[i]);
}

/// While a relay runs every read that brought bytes is passed on to the
/// opposite side, whatever the state of recording: on a sound connection
/// that relays both sides are bound, and the answer to such a read is to
/// forward it.
pub proof fn lemma_every_read_is_forwarded(
    conn: ConnectionView,
    ids: LastId,
    source: DataSource,
    size: usize,
)
    requires
        conn.wf(ids),
        relays(conn.state),
        size >= 1,
    ensures
        read_action(conn, source, ReadEvent::Data(size)) == RelayAction::Forward,
        read_next(conn, ReadEvent::Data(size)) == conn,
{
}

/// The connection, the reassembly buffer of the direction and the last
/// frame identifier after the reads `reads` from `source` were handed in one
/// after another, as [`Connection::receive_data`] takes them.
pub open spec fn fed<T: FrameTransform>(
    transform: &T,
    conn: ConnectionView,
    source: DataSource,
    persisted: Seq<u8>,
    reads: Seq<Seq<u8>>,
    last: u64,
) -> (ConnectionView, Seq<u8>, u64)
    decreases reads.len(),
{
    if reads.len() == 0 {
        (conn, persisted, last)
    } else {
        let next = received(transform, conn, source, persisted, reads[0], last);
        fed(
            transform,
            next,
            source,
            persisted_next(conn.state, persisted, reads[0]),
            reads.skip(1),
            (last + next.packets.len() - conn.packets.len()) as u64,
        )
    }
}

/// The stream that is framed over the reads `reads` behind `persisted`: all
/// of them joined, less the handshake prefix when the first of them is the
/// first read of the connection and exactly 120 bytes long.
pub open spec fn whole_stream(state: ConnectionState, persisted: Seq<u8>, reads: Seq<Seq<u8>>) -> Seq<
    u8,
> {
    if reads.len() > 0 && state == ConnectionState::Connecting && reads[0].len()
        == HANDSHAKE_SEGMENT {
        (persisted + concat(reads)).skip(HANDSHAKE_PREFIX as int)
    } else {
        persisted + concat(reads)
    }
}

/// Recording the frames of two passes, one after the other, records what
/// one pass over all of them records.
pub proof fn lemma_added_in_two_passes<T: FrameTransform>(
    transform: &T,
    state: ConnectionState,
    first: Seq<Seq<u8>>,
    second: Seq<Seq<u8>>,
    direction: PacketDirection,
    last: u64,
)
    ensures
        last + added(transform, state, first, direction, last).len() <= u64::MAX,
        added(transform, state, first, direction, last) + added(
            transform,
            state,
            second,
            direction,
            (last + added(transform, state, first, direction, last).len()) as u64,
        ) == added(transform, state, first + second, direction, last),
{
    let one = added(transform, state, first, direction, last);
    let next = (last + one.len()) as u64;
    let two = added(transform, state, second, direction, next);
    let all = added(transform, state, first + second, direction, last);
    if records(state) {
        assert((one + two).len() == all.len());
        assert forall|i: int| 0 <= i < all.len() implies (one + two)[i] == all[i] by {
            if i < one.len() {
                assert((first + second)[i] == first[i]);
            } else {
                assert(one.len() == first.len());
                assert((first + second)[i] == second[i - first.len()]);
                assert(two[i - one.len()] == captured(
                    (next + 1 + (i - one.len())) as u64,
                    direction,
                    transform.decoded(second[i - one.len()]),
                ));
            }
        }
    }
    assert(one + two =~= all);
}

/// On a connected or paused connection, however many reads arrive and
/// however the stream is cut into them, handing them in one after another
/// records the frames of the whole stream, in order, and leaves its residue.
/// `persisted` is what an earlier read left, or nothing.
pub proof fn lemma_reads_record_the_stream<T: FrameTransform>(
    transform: &T,
    conn: ConnectionView,
    source: DataSource,
    persisted: Seq<u8>,
    reads: Seq<Seq<u8>>,
    last: u64,
)
    requires
        conn.state == ConnectionState::Connected || conn.state == ConnectionState::Paused,
        !has_frame(persisted),
    ensures
        fed(transform, conn, source, persisted, reads, last).0 == framed(
            transform,
            conn,
            direction_of(source),
            persisted + concat(reads),
            last,
        ),
        fed(transform, conn, source, persisted, reads, last).1 == residue_of(
            persisted + concat(reads),
        ),
        fed(transform, conn, source, persisted, reads, last).2 == last + added(
            transform,
            conn.state,
            frames_of(persisted + concat(reads)),
            direction_of(source),
            last,
        ).len(),
    decreases reads.len(),
{
    let direction = direction_of(source);
    if reads.len() == 0 {
        assert(persisted + concat(reads) =~= persisted);
        assert(frames_of(persisted) =~= Seq::<Seq<u8>>::empty());
        assert(conn.packets + added(transform, conn.state, frames_of(persisted), direction, last)
            =~= conn.packets);
    } else {
        let first = persisted + reads[0];
        let more = concat(reads.skip(1));
        let next = received(transform, conn, source, persisted, reads[0], last);
        let rest = persisted_next(conn.state, persisted, reads[0]);
        let one = added(transform, conn.state, frames_of(first), direction, last);
        let used = (last + next.packets.len() - conn.packets.len()) as u64;
        assert(persisted + concat(reads) =~= first + more);
        lemma_framing(first);
        lemma_framing_resumes(first, more);
        lemma_added_in_two_passes(
            transform,
            conn.state,
            frames_of(first),
            frames_of(rest + more),
            direction,
            last,
        );
        assert(next.packets == conn.packets + one);
        assert(used == last + one.len());
        lemma_reads_record_the_stream(transform, next, source, rest, reads.skip(1), used);
        let two = added(transform, conn.state, frames_of(rest + more), direction, used);
        assert(next.packets + two =~= conn.packets + (one + two));
    }
}

/// From the first read of a relay on, however many reads arrive and however
/// the stream is cut into them, handing them in one after another records
/// the frames of the whole stream: the reads joined behind `persisted`, less
/// the four-byte prefix when the first read of the connection is exactly 120
/// bytes long, so that every frame is found from offset 4 of that stream on.
/// The frames found, one after another, and what is left in the reassembly
/// buffer make up that stream, and the first read makes a connecting
/// connection connected.
pub proof fn lemma_relay_records_the_stream<T: FrameTransform>(
    transform: &T,
    conn: ConnectionView,
    source: DataSource,
    persisted: Seq<u8>,
    reads: Seq<Seq<u8>>,
    last: u64,
)
    requires
        relays(conn.state),
        reads.len() >= 1,
    ensures
        fed(transform, conn, source, persisted, reads, last).0 == framed(
            transform,
            ConnectionView { state: state_on_data(conn.state), ..conn },
            direction_of(source),
            whole_stream(conn.state, persisted, reads),
            last,
        ),
        fed(transform, conn, source, persisted, reads, last).1 == residue_of(
            whole_stream(conn.state, persisted, reads),
        ),
        fed(transform, conn, source, persisted, reads, last).2 == last + added(
            transform,
            state_on_data(conn.state),
            frames_of(whole_stream(conn.state, persisted, reads)),
            direction_of(source),
            last,
        ).len(),
        concat(frames_of(whole_stream(conn.state, persisted, reads))) + fed(
            transform,
            conn,
            source,
            persisted,
            reads,
            last,
        ).1 == whole_stream(conn.state, persisted, reads),
{
    let direction = direction_of(source);
    let state = state_on_data(conn.state);
    let first = framed_stream(conn.state, persisted, reads[0]);
    let more = concat(reads.skip(1));
    let whole = whole_stream(conn.state, persisted, reads);
    let next = received(transform, conn, source, persisted, reads[0], last);
    let rest = persisted_next(conn.state, persisted, reads[0]);
    let one = added(transform, state, frames_of(first), direction, last);
    let used = (last + next.packets.len() - conn.packets.len()) as u64;
    assert(whole =~= first + more) by {
        assert(concat(reads) == reads[0] + more);
        assert(persisted + concat(reads) =~= (persisted + reads[0]) + more);
    }
    lemma_framing(first);
    lemma_framing(whole);
    lemma_framing_resumes(first, more);
    lemma_added_in_two_passes(
        transform,
        state,
        frames_of(first),
        frames_of(rest + more),
        direction,
        last,
    );
    assert(next.packets == conn.packets + one);
    assert(used == last + one.len());
    lemma_reads_record_the_stream(transform, next, source, rest, reads.skip(1), used);
    let two = added(transform, state, frames_of(rest + more), direction, used);
    assert(next.packets + two =~= conn.packets + (one + two));
}

/// Two ways of cutting one stream into reads record the same frames, under
/// the same identifiers, and leave the same residue, as long as the first
/// read of a connecting connection is 120 bytes long in both or in neither.
pub proof fn lemma_relay_ignores_split_points<T: FrameTransform>(
    transform: &T,
    conn: ConnectionView,
    source: DataSource,
    persisted: Seq<u8>,
    one: Seq<Seq<u8>>,
    other: Seq<Seq<u8>>,
    last: u64,
)
    requires
        relays(conn.state),
        one.len() >= 1,
        other.len() >= 1,
        concat(one) == concat(other),
        conn.state == ConnectionState::Connecting ==> (one[0].len() == HANDSHAKE_SEGMENT) == (
        other[0].len() == HANDSHAKE_SEGMENT),
    ensures
        fed(transform, conn, source, persisted, one, last) == fed(
            transform,
            conn,
            source,
            persisted,
            other,
            last,
        ),
{
    lemma_relay_records_the_stream(transform, conn, source, persisted, one, last);
    lemma_relay_records_the_stream(transform, conn, source, persisted, other, last);
    let a = fed(transform, conn, source, persisted, one, last);
    let b = fed(transform, conn, source, persisted, other, last);
    assert(a.0 == b.0 && a.1 == b.1 && a.2 == b.2);
}

} // verus!
