//! The store of a session: every connection, what the viewer has selected,
//! and the counters that hand out identifiers.

use vstd::prelude::*;
use crate::encodings::texts;
use crate::errors::ErrorKind;
use crate::sniffer::buffer_view::{buffer_texts, byte_texts};
use crate::sniffer::codec::{framing_end, FrameTransform};
use crate::sniffer::connection::{
    accept_action, accept_next, closed, dial_action, dial_next, paused, persisted_next,
    poll_action, read_action, read_next, received, relays, resumed, AcceptAction, AcceptEvent,
    Connection, ConnectionState, ConnectionView, DataSource, DialAction, DialEvent, ReadEvent,
    RelayAction,
};
use crate::sniffer::last_id::LastId;
use crate::sniffer::connection::{ordered, packet_views};
use crate::sniffer::packet::{Packet, PacketView};

verus! {

/// The way the bytes of the selected frame are shown.
#[derive(Debug, Clone, Copy, PartialEq, Eq, Structural)]
pub enum BufferType {
    /// Each byte as a decimal number.
    Byte,
    /// Each byte as two upper-case hexadecimal digits.
    Hex,
    /// Each byte as the character of that code.
    ASCII,
}

/// What a session holds: the mathematical value of a [`State`].
pub struct StateView {
    pub connections: Seq<ConnectionView>,
    pub selected_connection: Option<u64>,
    pub selected_packet: Option<u64>,
    pub buffer_view: Seq<Seq<char>>,
    pub buffer_view_type: BufferType,
    pub last_id: LastId,
}

/// The values of a list of connections.
pub open spec fn connection_views(connections: Seq<Connection>) -> Seq<ConnectionView> {
    connections.map_values(|c: Connection| c@)
}

/// Whether a connection of the list has the identifier `id`.
pub open spec fn has_connection(connections: Seq<ConnectionView>, id: u64) -> bool {
    exists|i: int| 0 <= i < connections.len() && (#[trigger] connections[i]).id == id
}

/// Whether a frame of the list has the identifier `id`.
pub open spec fn has_packet(packets: Seq<PacketView>, id: u64) -> bool {
    exists|i: int| 0 <= i < packets.len() && (#[trigger] packets[i]).id == id
}

impl StateView {
    /// Whether the session is sound: every connection is sound under the
    /// counters; the identifiers of the connections grow strictly along the
    /// list; no two frames of the session share an identifier; and what is
    /// selected is there: a selected connection is in the list, and a
    /// selected frame is one of the selected connection.
    pub open spec fn wf(&self) -> bool {
        &&& forall|i: int|
            0 <= i < self.connections.len() ==> (#[trigger] self.connections[i]).wf(self.last_id)
        &&& forall|i: int, j: int|
            0 <= i < j < self.connections.len() ==> (#[trigger] self.connections[i]).id < (
            #[trigger] self.connections[j]).id
        &&& forall|a: int, b: int, i: int, j: int|
            0 <= a < self.connections.len() && 0 <= b < self.connections.len() && a != b && 0 <= i
                < self.connections[a].packets.len() && 0 <= j < self.connections[b].packets.len()
                ==> (#[trigger] self.connections[a].packets[i]).id != (
            #[trigger] self.connections[b].packets[j]).id
        &&& self.selected_connection matches Some(id) ==> has_connection(self.connections, id)
        &&& self.selected_packet matches Some(pid) ==> self.selected_connection.is_some()
            && exists|i: int|
            0 <= i < self.connections.len() && (#[trigger] self.connections[i]).id
                == self.selected_connection.unwrap() && has_packet(self.connections[i].packets, pid)
    }
}

/// The store of a session.
#[derive(Debug)]
pub struct State {
    connections: Vec<Connection>,
    selected_connection: Option<u64>,
    selected_packet: Option<u64>,
    buffer_view: Vec<String>,
    buffer_view_type: BufferType,
    last_id: LastId,
}

impl View for State {
    type V = StateView;

    closed spec fn view(&self) -> StateView {
        StateView {
            connections: connection_views(self.connections@),
            selected_connection: self.selected_connection,
            selected_packet: self.selected_packet,
            buffer_view: texts(self.buffer_view@),
            buffer_view_type: self.buffer_view_type,
            last_id: self.last_id,
        }
    }
}

impl Default for State {
    fn default() -> (state: State)
        ensures
            state@ == (StateView {
                connections: Seq::empty(),
                selected_connection: None,
                selected_packet: None,
                buffer_view: Seq::empty(),
                buffer_view_type: BufferType::Byte,
                last_id: LastId { connections: 0, packets: 0 },
            }),
            state.wf(),
    {
        State::new()
    }
}

impl State {
    /// Whether the session is sound.
    pub open spec fn wf(&self) -> bool {
        self@.wf()
    }

    /// An empty session: no connection, nothing selected, bytes shown as
    /// decimal numbers, and no identifier handed out.
    pub fn new() -> (state: State)
        ensures
            state@ == (StateView {
                connections: Seq::empty(),
                selected_connection: None,
                selected_packet: None,
                buffer_view: Seq::empty(),
                buffer_view_type: BufferType::Byte,
                last_id: LastId { connections: 0, packets: 0 },
            }),
            state.wf(),
    {
        let state = State {
            connections: Vec::new(),
            selected_connection: None,
            selected_packet: None,
            buffer_view: Vec::new(),
            buffer_view_type: BufferType::Byte,
            last_id: LastId::new(),
        };
        assert(state@.connections =~= Seq::empty());
        assert(state@.buffer_view =~= Seq::empty());
        state
    }

    /// The connections of the session, in the order in which they were
    /// opened.
    pub fn get_connections(&self) -> (connections: &Vec<Connection>)
        ensures
            connection_views(connections@) == self@.connections,
    {
        &self.connections
    }

    /// The counters of the session.
    pub fn get_last_id(&self) -> (last_id: LastId)
        ensures
            last_id == self@.last_id,
    {
        self.last_id
    }

    /// The place of the connection `id` in the list, if it is there.
    pub fn find_connection(&self, id: u64) -> (place: Option<usize>)
        ensures
            match place {
                Some(i) => i < self@.connections.len() && self@.connections[i as int].id == id,
                None => !has_connection(self@.connections, id),
            },
    {
        let mut i: usize = 0;
        while i < self.connections.len()
            invariant
                i <= self.connections@.len(),
                forall|j: int| 0 <= j < i ==> (#[trigger] self@.connections[j]).id != id,
            decreases self.connections@.len() - i,
        {
            if self.connections[i].get_id() == id {
                return Some(i);
            }
            i = i + 1;
        }
        None
    }

    /// The connection `id`, if it is there.
    pub fn get_connection(&self, id: u64) -> (conn: Option<&Connection>)
        ensures
            match conn {
                Some(c) => c@.id == id && exists|i: int|
                    0 <= i < self@.connections.len() && #[trigger] self@.connections[i] == c@,
                None => !has_connection(self@.connections, id),
            },
    {
        match self.find_connection(id) {
            Some(i) => {
                assert(self@.connections[i as int] == self.connections@[i as int]@);
                Some(&self.connections[i])
            },
            None => None,
        }
    }

    /// Opens a connection to the peer `ip` and puts it at the end of the
    /// list. Returns its identifier, the next one; when the identifiers have
    /// run out nothing is opened and nothing changes.
    pub fn add_connections(&mut self, ip: String) -> (id: Option<u64>)
        requires
            old(self).wf(),
        ensures
            final(self).wf(),
            old(self)@.last_id.connections == u64::MAX ==> id.is_none() && final(self)@ == old(
                self,
            )@,
            old(self)@.last_id.connections < u64::MAX ==> id == Some(
                (old(self)@.last_id.connections + 1) as u64,
            ) && final(self)@ == (StateView {
                connections: old(self)@.connections.push(
                    ConnectionView {
                        id: (old(self)@.last_id.connections + 1) as u64,
                        ip: ip@,
                        state: ConnectionState::WaitingLocal,
                        local_bound: false,
                        remote_bound: false,
                        packets: Seq::empty(),
                        failure: None,
                    },
                ),
                last_id: LastId {
                    connections: (old(self)@.last_id.connections + 1) as u64,
                    packets: old(self)@.last_id.packets,
                },
                ..old(self)@
            }),
    {
        let mut last_id = self.last_id;
        match Connection::new(&mut last_id, ip) {
            Some(conn) => {
                let id = conn.get_id();
                let ghost before = self.connections@;
                self.last_id = last_id;
                self.connections.push(conn);
                assert(connection_views(self.connections@) =~= connection_views(before).push(
                    conn@,
                ));
                proof {
                    let old_view = old(self)@;
                    let new_view = self@;
                    assert forall|i: int| 0 <= i < new_view.connections.len() implies (
                    #[trigger] new_view.connections[i]).wf(new_view.last_id) by {
                        if i < old_view.connections.len() {
                            assert(old_view.connections[i].wf(old_view.last_id));
                        }
                    }
                    assert forall|i: int, j: int|
                        0 <= i < j < new_view.connections.len() implies (
                    #[trigger] new_view.connections[i]).id < (#[trigger] new_view.connections[j]).id by {
                        if j < old_view.connections.len() {
                        } else {
                            assert(old_view.connections[i].wf(old_view.last_id));
                        }
                    }
                    if new_view.selected_connection.is_some() {
                        let sid = new_view.selected_connection.unwrap();
                        let k = choose|k: int|
                            0 <= k < old_view.connections.len() && (
                            #[trigger] old_view.connections[k]).id == sid;
                        assert(new_view.connections[k].id == sid);
                    }
                    if new_view.selected_packet.is_some() {
                        let sid = new_view.selected_connection.unwrap();
                        let pid = new_view.selected_packet.unwrap();
                        let k = choose|k: int|
                            0 <= k < old_view.connections.len() && (
                            #[trigger] old_view.connections[k]).id == sid && has_packet(
                                old_view.connections[k].packets,
                                pid,
                            );
                        assert(new_view.connections[k].id == sid);
                    }
                }
                Some(id)
            },
            None => None,
        }
    }

    /// Takes the connection `id` out of the session. What was selected in
    /// it is selected no more. Nothing changes when it is not there.
    pub fn remove_connection(&mut self, id: u64)
        requires
            old(self).wf(),
        ensures
            final(self).wf(),
            final(self)@ == removed(old(self)@, id),
    {
        match self.find_connection(id) {
            Some(i) => {
                let ghost before = self.connections@;
                let gone = self.connections.remove(i);
                assert(connection_views(self.connections@) =~= connection_views(before).remove(
                    i as int,
                ));
                if self.selected_connection == Some(id) {
                    self.selected_connection = None;
                    self.selected_packet = None;
                }
                proof {
                    lemma_place(old(self)@.connections, i as int, id);
                    lemma_removed(old(self)@, i as int, id);
                }
            },
            None => {},
        }
    }

    /// The selected connection, if one is selected.
    pub fn get_selected_connection(&self) -> (conn: Option<&Connection>)
        requires
            self.wf(),
        ensures
            view_of(conn) == selected_connection_of(self@),
            conn.is_some() == self@.selected_connection.is_some(),
    {
        match self.selected_connection {
            Some(id) => {
                match self.find_connection(id) {
                    Some(i) => {
                        proof {
                            lemma_place(self@.connections, i as int, id);
                            assert(self@.connections[i as int] == self.connections@[i as int]@);
                        }
                        Some(&self.connections[i])
                    },
                    None => None,
                }
            },
            None => None,
        }
    }

    /// Selects the connection `id` and, with it, no frame. Nothing changes
    /// when the connection is not there.
    pub fn set_selected_connection(&mut self, id: u64)
        requires
            old(self).wf(),
        ensures
            final(self).wf(),
            has_connection(old(self)@.connections, id) ==> final(self)@ == (StateView {
                selected_connection: Some(id),
                selected_packet: None,
                ..old(self)@
            }),
            !has_connection(old(self)@.connections, id) ==> final(self)@ == old(self)@,
    {
        match self.find_connection(id) {
            Some(i) => {
                self.selected_packet = None;
                self.selected_connection = Some(id);
            },
            None => {},
        }
    }

    /// Whether the connection `id` is the selected one.
    pub fn is_connection_selected(&self, id: u64) -> (selected: bool)
        ensures
            selected == (self@.selected_connection == Some(id)),
    {
        match self.selected_connection {
            Some(selected) => selected == id,
            None => false,
        }
    }

    /// The place of the frame `id` among the frames of the connection at
    /// `place`, if it is there.
    fn find_packet(&self, place: usize, id: u64) -> (found: Option<usize>)
        requires
            place < self@.connections.len(),
        ensures
            match found {
                Some(k) => k < self@.connections[place as int].packets.len()
                    && self@.connections[place as int].packets[k as int].id == id,
                None => !has_packet(self@.connections[place as int].packets, id),
            },
    {
        let conn: &Connection = &self.connections[place];
        assert(conn@ == self@.connections[place as int]);
        let packets: &Vec<Packet> = conn.get_packets();
        let mut k: usize = 0;
        while k < packets.len()
            invariant
                k <= packets@.len(),
                place < self@.connections.len(),
                conn@ == self@.connections[place as int],
                packet_views(packets@) == conn@.packets,
                forall|j: int| 0 <= j < k ==> (#[trigger] conn@.packets[j]).id != id,
            decreases packets@.len() - k,
        {
            assert(packet_views(packets@)[k as int] == packets@[k as int]@);
            if packets[k].get_id() == id {
                return Some(k);
            }
            k = k + 1;
        }
        None
    }

    /// Whether the frame `id` is the selected one.
    pub fn is_packet_selected(&self, id: u64) -> (selected: bool)
        ensures
            selected == (self@.selected_packet == Some(id)),
    {
        match self.selected_packet {
            Some(selected) => selected == id,
            None => false,
        }
    }

    /// Whether a connection can be opened: none can while one still waits
    /// for its local client or for its remote peer, since it keeps the
    /// listening port.
    pub fn can_add_connection(&self) -> (free: bool)
        ensures
            free == forall|i: int|
                0 <= i < self@.connections.len() ==> !waiting(
                    (#[trigger] self@.connections[i]).state,
                ),
    {
        let mut i: usize = 0;
        while i < self.connections.len()
            invariant
                i <= self.connections@.len(),
                forall|j: int|
                    0 <= j < i ==> !waiting((#[trigger] self@.connections[j]).state),
            decreases self.connections@.len() - i,
        {
            assert(self@.connections[i as int] == self.connections@[i as int]@);
            if self.connections[i].is_new_connection_disabled() {
                return false;
            }
            i = i + 1;
        }
        true
    }

    /// The selected frame, if one is selected.
    pub fn get_selected_packet(&self) -> (packet: Option<&Packet>)
        requires
            self.wf(),
        ensures
            packet_view_of(packet) == selected_packet_of(self@),
            packet.is_some() == self@.selected_packet.is_some(),
    {
        match (self.selected_connection, self.selected_packet) {
            (Some(cid), Some(pid)) => {
                match self.find_connection(cid) {
                    Some(i) => {
                        proof {
                            lemma_place(self@.connections, i as int, cid);
                        }
                        match self.find_packet(i, pid) {
                            Some(k) => {
                                let conn: &Connection = &self.connections[i];
                                assert(conn@ == self@.connections[i as int]);
                                let packets: &Vec<Packet> = conn.get_packets();
                                proof {
                                    assert(packet_views(packets@)[k as int] == packets@[k as int]@);
                                    lemma_packet_place(conn@.packets, k as int, pid, self@.last_id.packets);
                                }
                                Some(&packets[k])
                            },
                            None => None,
                        }
                    },
                    None => None,
                }
            },
            _ => None,
        }
    }

    /// Selects the frame `id` of the selected connection and shows its
    /// bytes; or, with `None`, selects no frame. A frame that the selected
    /// connection does not hold cannot be selected: then no frame is. The
    /// bytes shown change only when a frame is selected.
    pub fn set_selected_packet(&mut self, selected_packet: Option<u64>)
        requires
            old(self).wf(),
        ensures
            final(self).wf(),
            final(self)@ == shown(
                StateView { selected_packet: selectable(old(self)@, selected_packet), ..old(self)@ },
            ),
    {
        self.selected_packet = None;
        match (self.selected_connection, selected_packet) {
            (Some(cid), Some(pid)) => {
                match self.find_connection(cid) {
                    Some(i) => {
                        proof {
                            lemma_place(self@.connections, i as int, cid);
                        }
                        match self.find_packet(i, pid) {
                            Some(k) => {
                                self.selected_packet = Some(pid);
                                assert(has_packet(self@.connections[i as int].packets, pid));
                            },
                            None => {},
                        }
                    },
                    None => {},
                }
            },
            _ => {},
        }
        self.update_buffer_view();
    }

    /// Selects the byte at `index` in the selected frame. Nothing changes
    /// when no frame is selected.
    pub fn set_selected_buffer_index(&mut self, index: usize)
        requires
            old(self).wf(),
        ensures
            final(self).wf(),
            final(self)@ == (StateView {
                connections: marked(
                    old(self)@,
                    |p: PacketView| PacketView { selected_buffer_index: index, ..p },
                ),
                ..old(self)@
            }),
    {
        let ghost mark = |p: PacketView| PacketView { selected_buffer_index: index, ..p };
        match (self.selected_connection, self.selected_packet) {
            (Some(cid), Some(pid)) => {
                match self.find_connection(cid) {
                    Some(i) => {
                        match self.find_packet(i, pid) {
                            Some(k) => {
                                self.connections[i].set_selected_buffer_index(k, index);
                                proof {
                                    assert(self@.connections =~= old(self)@.connections.update(
                                        i as int,
                                        ConnectionView {
                                            packets: old(self)@.connections[i as int].packets.update(
                                                k as int,
                                                mark(old(self)@.connections[i as int].packets[k as int]),
                                            ),
                                            ..old(self)@.connections[i as int]
                                        },
                                    ));
                                    lemma_marked(old(self)@, self@, i as int, k as int, mark);
                                }
                            },
                            None => {
                                proof {
                                    lemma_place(self@.connections, i as int, cid);
                                    lemma_unmarked(old(self)@, mark);
                                }
                            },
                        }
                    },
                    None => {
                        proof {
                            lemma_unmarked(old(self)@, mark);
                        }
                    },
                }
            },
            _ => {
                proof {
                    lemma_unmarked(old(self)@, mark);
                }
            },
        }
    }

    /// Notes the number of columns in which the viewer lays out the selected
    /// frame. Nothing changes when no frame is selected.
    pub fn update_columns_count(&mut self, new_columns_count: usize)
        requires
            old(self).wf(),
        ensures
            final(self).wf(),
            final(self)@ == (StateView {
                connections: marked(
                    old(self)@,
                    |p: PacketView| PacketView { columns_count: new_columns_count, ..p },
                ),
                ..old(self)@
            }),
    {
        let ghost mark = |p: PacketView| PacketView { columns_count: new_columns_count, ..p };
        match (self.selected_connection, self.selected_packet) {
            (Some(cid), Some(pid)) => {
                match self.find_connection(cid) {
                    Some(i) => {
                        match self.find_packet(i, pid) {
                            Some(k) => {
                                self.connections[i].update_columns_count(k, new_columns_count);
                                proof {
                                    assert(self@.connections =~= old(self)@.connections.update(
                                        i as int,
                                        ConnectionView {
                                            packets: old(self)@.connections[i as int].packets.update(
                                                k as int,
                                                mark(old(self)@.connections[i as int].packets[k as int]),
                                            ),
                                            ..old(self)@.connections[i as int]
                                        },
                                    ));
                                    lemma_marked(old(self)@, self@, i as int, k as int, mark);
                                }
                            },
                            None => {
                                proof {
                                    lemma_place(self@.connections, i as int, cid);
                                    lemma_unmarked(old(self)@, mark);
                                }
                            },
                        }
                    },
                    None => {
                        proof {
                            lemma_unmarked(old(self)@, mark);
                        }
                    },
                }
            },
            _ => {
                proof {
                    lemma_unmarked(old(self)@, mark);
                }
            },
        }
    }

    /// The bytes of the frame that was last shown, each as a text in the way
    /// chosen when it was shown.
    pub fn get_buffer_view(&self) -> (view: &Vec<String>)
        ensures
            texts(view@) == self@.buffer_view,
    {
        &self.buffer_view
    }

    /// Shows the bytes of the selected frame in the chosen way. With no
    /// frame selected what is shown stays.
    fn update_buffer_view(&mut self)
        requires
            old(self).wf(),
        ensures
            final(self).wf(),
            final(self)@ == shown(old(self)@),
    {
        let view: Option<Vec<String>> = match self.get_selected_packet() {
            Some(packet) => Some(buffer_texts(packet.get_buffer().as_slice(), self.buffer_view_type)),
            None => None,
        };
        match view {
            Some(view) => {
                self.buffer_view = view;
            },
            None => {},
        }
    }

    /// The way in which bytes are shown.
    pub fn get_buffer_view_type(&self) -> (buffer_view_type: BufferType)
        ensures
            buffer_view_type == self@.buffer_view_type,
    {
        self.buffer_view_type
    }

    /// Chooses the way in which bytes are shown, and shows the bytes of the
    /// selected frame in it.
    pub fn set_buffer_view_type(&mut self, buffer_view_type: BufferType)
        requires
            old(self).wf(),
        ensures
            final(self).wf(),
            final(self)@ == shown(StateView { buffer_view_type, ..old(self)@ }),
    {
        self.buffer_view_type = buffer_view_type;
        self.update_buffer_view();
    }

    /// Ends the connection `id`. Nothing changes when it is not there.
    pub fn close(&mut self, id: u64)
        requires
            old(self).wf(),
        ensures
            final(self).wf(),
            final(self)@ == (StateView {
                connections: replaced(old(self)@.connections, id, |c: ConnectionView| closed(c)),
                ..old(self)@
            }),
    {
        let ghost step = |c: ConnectionView| closed(c);
        match self.find_connection(id) {
            Some(i) => {
                self.connections[i].close();
                proof {
                    assert(self@.connections =~= old(self)@.connections.update(
                        i as int,
                        step(old(self)@.connections[i as int]),
                    ));
                    lemma_forward(old(self)@, self@, i as int, id, step);
                }
            },
            None => {
                proof {
                    lemma_absent(old(self)@.connections, id, step);
                }
            },
        }
    }

    /// Stops recording on the connection `id` if it is connected. Nothing
    /// changes when it is not there.
    pub fn pause(&mut self, id: u64)
        requires
            old(self).wf(),
        ensures
            final(self).wf(),
            final(self)@ == (StateView {
                connections: replaced(old(self)@.connections, id, |c: ConnectionView| paused(c)),
                ..old(self)@
            }),
    {
        let ghost step = |c: ConnectionView| paused(c);
        match self.find_connection(id) {
            Some(i) => {
                self.connections[i].pause();
                proof {
                    assert(self@.connections =~= old(self)@.connections.update(
                        i as int,
                        step(old(self)@.connections[i as int]),
                    ));
                    lemma_forward(old(self)@, self@, i as int, id, step);
                }
            },
            None => {
                proof {
                    lemma_absent(old(self)@.connections, id, step);
                }
            },
        }
    }

    /// Takes recording up again on the connection `id` if it is paused.
    /// Nothing changes when it is not there.
    pub fn resume(&mut self, id: u64)
        requires
            old(self).wf(),
        ensures
            final(self).wf(),
            final(self)@ == (StateView {
                connections: replaced(old(self)@.connections, id, |c: ConnectionView| resumed(c)),
                ..old(self)@
            }),
    {
        let ghost step = |c: ConnectionView| resumed(c);
        match self.find_connection(id) {
            Some(i) => {
                self.connections[i].resume();
                proof {
                    assert(self@.connections =~= old(self)@.connections.update(
                        i as int,
                        step(old(self)@.connections[i as int]),
                    ));
                    lemma_forward(old(self)@, self@, i as int, id, step);
                }
            },
            None => {
                proof {
                    lemma_absent(old(self)@.connections, id, step);
                }
            },
        }
    }

    /// Hands an event of the listener to the connection `id` and returns
    /// what follows, as [`Connection::accept_connection`] decides. When the
    /// connection is not there nothing changes and the answer is to stop.
    pub fn accept_connection(&mut self, id: u64, event: AcceptEvent) -> (action: AcceptAction)
        requires
            old(self).wf(),
        ensures
            final(self).wf(),
            final(self)@ == (StateView {
                connections: replaced(
                    old(self)@.connections,
                    id,
                    |c: ConnectionView| accept_next(c, event),
                ),
                ..old(self)@
            }),
            action == (match connection_of(old(self)@.connections, id) {
                Some(c) => accept_action(c, event),
                None => AcceptAction::Stop,
            }),
    {
        let ghost step = |c: ConnectionView| accept_next(c, event);
        match self.find_connection(id) {
            Some(i) => {
                let action = self.connections[i].accept_connection(event);
                proof {
                    assert(self@.connections =~= old(self)@.connections.update(
                        i as int,
                        step(old(self)@.connections[i as int]),
                    ));
                    lemma_forward(old(self)@, self@, i as int, id, step);
                }
                action
            },
            None => {
                proof {
                    lemma_absent(old(self)@.connections, id, step);
                }
                AcceptAction::Stop
            },
        }
    }

    /// Hands the outcome of the dial to the connection `id` and returns what
    /// follows, as [`Connection::connect_to_remote`] decides. When the
    /// connection is not there nothing changes and the answer is to stop.
    pub fn connect_to_remote(&mut self, id: u64, event: DialEvent) -> (action: DialAction)
        requires
            old(self).wf(),
        ensures
            final(self).wf(),
            final(self)@ == (StateView {
                connections: replaced(
                    old(self)@.connections,
                    id,
                    |c: ConnectionView| dial_next(c, event),
                ),
                ..old(self)@
            }),
            action == (match connection_of(old(self)@.connections, id) {
                Some(c) => dial_action(c, event),
                None => DialAction::Stop,
            }),
    {
        let ghost step = |c: ConnectionView| dial_next(c, event);
        match self.find_connection(id) {
            Some(i) => {
                let action = self.connections[i].connect_to_remote(event);
                proof {
                    assert(self@.connections =~= old(self)@.connections.update(
                        i as int,
                        step(old(self)@.connections[i as int]),
                    ));
                    lemma_forward(old(self)@, self@, i as int, id, step);
                }
                action
            },
            None => {
                proof {
                    lemma_absent(old(self)@.connections, id, step);
                }
                DialAction::Stop
            },
        }
    }

    /// Decides, before a read, whether the relay of the connection `id` that
    /// reads from `source` goes on, as [`Connection::relay_poll`] decides. A
    /// relay whose connection is not there shuts down.
    pub fn relay_poll(&self, id: u64, source: DataSource) -> (action: RelayAction)
        requires
            self.wf(),
        ensures
            action == (match connection_of(self@.connections, id) {
                Some(c) => poll_action(c, source),
                None => RelayAction::Shutdown,
            }),
    {
        match self.find_connection(id) {
            Some(i) => {
                proof {
                    lemma_place(self@.connections, i as int, id);
                }
                self.connections[i].relay_poll(source)
            },
            None => RelayAction::Shutdown,
        }
    }

    /// Hands the outcome of a read from `source` to the connection `id` and
    /// returns what follows, as [`Connection::relay_read`] decides. A relay
    /// whose connection is not there shuts down.
    pub fn relay_read(&mut self, id: u64, source: DataSource, event: ReadEvent) -> (action:
        RelayAction)
        requires
            old(self).wf(),
        ensures
            final(self).wf(),
            final(self)@ == (StateView {
                connections: replaced(
                    old(self)@.connections,
                    id,
                    |c: ConnectionView| read_next(c, event),
                ),
                ..old(self)@
            }),
            action == (match connection_of(old(self)@.connections, id) {
                Some(c) => read_action(c, source, event),
                None => RelayAction::Shutdown,
            }),
    {
        let ghost step = |c: ConnectionView| read_next(c, event);
        match self.find_connection(id) {
            Some(i) => {
                let action = self.connections[i].relay_read(source, event);
                proof {
                    assert(self@.connections =~= old(self)@.connections.update(
                        i as int,
                        step(old(self)@.connections[i as int]),
                    ));
                    lemma_forward(old(self)@, self@, i as int, id, step);
                }
                action
            },
            None => {
                proof {
                    lemma_absent(old(self)@.connections, id, step);
                }
                RelayAction::Shutdown
            },
        }
    }

    /// Hands what a read from `source` brought to the connection `id`, as
    /// [`Connection::receive_data`] records it, with the counters of the
    /// session. When the connection is not there nothing changes, and
    /// `persisted` stays as it is.
    pub fn receive_data<T: FrameTransform>(
        &mut self,
        id: u64,
        source: DataSource,
        data: &[u8],
        persisted: &mut Vec<u8>,
        transform: &T,
    ) -> (end: Option<ErrorKind>)
        requires
            old(self).wf(),
        ensures
            final(self).wf(),
            final(self)@ == (StateView {
                connections: replaced(
                    old(self)@.connections,
                    id,
                    |c: ConnectionView|
                        received(
                            transform,
                            c,
                            source,
                            old(persisted)@,
                            data@,
                            old(self)@.last_id.packets,
                        ),
                ),
                last_id: LastId {
                    packets: (old(self)@.last_id.packets + recorded_by(
                        transform,
                        old(self)@,
                        id,
                        source,
                        old(persisted)@,
                        data@,
                    )) as u64,
                    ..old(self)@.last_id
                },
                ..old(self)@
            }),
            match connection_of(old(self)@.connections, id) {
                Some(c) => final(persisted)@ == persisted_next(c.state, old(persisted)@, data@)
                    && end == (if relays(c.state) {
                    framing_end(final(persisted)@)
                } else {
                    None
                }),
                None => final(persisted)@ == old(persisted)@ && end.is_none(),
            },
    {
        let ghost step = |c: ConnectionView|
            received(transform, c, source, old(persisted)@, data@, old(self)@.last_id.packets);
        match self.find_connection(id) {
            Some(i) => {
                let mut last_id = self.last_id;
                proof {
                    lemma_place(self@.connections, i as int, id);
                    assert(self@.connections[i as int].wf(self@.last_id));
                }
                let end = self.connections[i].receive_data(
                    source,
                    data,
                    persisted,
                    &mut last_id,
                    transform,
                );
                self.last_id = last_id;
                proof {
                    assert(self@.connections =~= old(self)@.connections.update(
                        i as int,
                        step(old(self)@.connections[i as int]),
                    ));
                    lemma_forward(old(self)@, self@, i as int, id, step);
                }
                end
            },
            None => {
                proof {
                    lemma_absent(old(self)@.connections, id, step);
                }
                None
            },
        }
    }
}

/// The list in which the connection `id`, where it is there, has made the
/// step `step`.
pub open spec fn replaced(
    connections: Seq<ConnectionView>,
    id: u64,
    step: spec_fn(ConnectionView) -> ConnectionView,
) -> Seq<ConnectionView> {
    Seq::new(
        connections.len(),
        |i: int|
            if connections[i].id == id {
                step(connections[i])
            } else {
                connections[i]
            },
    )
}

/// A place of the list at which the connection `id` stands.
pub open spec fn place_of(connections: Seq<ConnectionView>, id: u64) -> int {
    choose|i: int| 0 <= i < connections.len() && (#[trigger] connections[i]).id == id
}

/// The connection `id` of the list, if it is there.
pub open spec fn connection_of(connections: Seq<ConnectionView>, id: u64) -> Option<
    ConnectionView,
> {
    if has_connection(connections, id) {
        Some(connections[place_of(connections, id)])
    } else {
        None
    }
}

/// How many frames the connection `id` records for `data`, read from
/// `source` and handed in behind `persisted`.
pub open spec fn recorded_by<T: FrameTransform>(
    transform: &T,
    state: StateView,
    id: u64,
    source: DataSource,
    persisted: Seq<u8>,
    data: Seq<u8>,
) -> int {
    match connection_of(state.connections, id) {
        Some(c) => received(transform, c, source, persisted, data, state.last_id.packets).packets.len()
            - c.packets.len(),
        None => 0,
    }
}

/// Whether `after` is `before` with the frames it had, under their
/// identifiers, and at most frames added behind them, each under an
/// identifier above `last`.
pub open spec fn grown(before: ConnectionView, after: ConnectionView, last: u64) -> bool {
    &&& after.id == before.id
    &&& before.packets.len() <= after.packets.len()
    &&& forall|k: int|
        0 <= k < before.packets.len() ==> (#[trigger] after.packets[k]).id == before.packets[k].id
    &&& forall|k: int|
        before.packets.len() <= k < after.packets.len() ==> (#[trigger] after.packets[k]).id > last
}

/// In a sound session the identifier of a connection is found at one place
/// only.
pub proof fn lemma_place(connections: Seq<ConnectionView>, i: int, id: u64)
    requires
        0 <= i < connections.len(),
        connections[i].id == id,
        forall|a: int, b: int|
            0 <= a < b < connections.len() ==> (#[trigger] connections[a]).id < (
            #[trigger] connections[b]).id,
    ensures
        has_connection(connections, id),
        place_of(connections, id) == i,
        connection_of(connections, id) == Some(connections[i]),
{
    let p = place_of(connections, id);
    if p < i {
        assert(connections[p].id < connections[i].id);
    } else if i < p {
        assert(connections[i].id < connections[p].id);
    }
}

/// A step of a connection that is not in the list changes nothing.
pub proof fn lemma_absent(
    connections: Seq<ConnectionView>,
    id: u64,
    step: spec_fn(ConnectionView) -> ConnectionView,
)
    requires
        !has_connection(connections, id),
    ensures
        replaced(connections, id, step) == connections,
        connection_of(connections, id).is_none(),
{
    assert(replaced(connections, id, step) =~= connections);
}

/// A step of one connection that keeps its identifier and its frames,
/// adding at most frames under fresh identifiers, keeps the session sound.
pub proof fn lemma_forward(
    before: StateView,
    after: StateView,
    i: int,
    id: u64,
    step: spec_fn(ConnectionView) -> ConnectionView,
)
    requires
        before.wf(),
        0 <= i < before.connections.len(),
        before.connections[i].id == id,
        after.connections == before.connections.update(i, step(before.connections[i])),
        after.selected_connection == before.selected_connection,
        after.selected_packet == before.selected_packet,
        after.last_id.connections == before.last_id.connections,
        after.last_id.packets >= before.last_id.packets,
        grown(before.connections[i], step(before.connections[i]), before.last_id.packets),
        step(before.connections[i]).wf(after.last_id),
    ensures
        after.wf(),
        after.connections == replaced(before.connections, id, step),
        connection_of(before.connections, id) == Some(before.connections[i]),
{
    lemma_place(before.connections, i, id);
    assert(after.connections =~= replaced(before.connections, id, step)) by {
        assert forall|j: int| 0 <= j < before.connections.len() && j != i implies (
        #[trigger] before.connections[j]).id != id by {
            if j < i {
                assert(before.connections[j].id < before.connections[i].id);
            } else {
                assert(before.connections[i].id < before.connections[j].id);
            }
        }
    }
    let old_c = before.connections[i];
    let new_c = after.connections[i];
    assert forall|j: int| 0 <= j < after.connections.len() implies (
    #[trigger] after.connections[j]).wf(after.last_id) by {
        if j != i {
            assert(before.connections[j].wf(before.last_id));
        }
    }
    assert forall|a: int, b: int| 0 <= a < b < after.connections.len() implies (
    #[trigger] after.connections[a]).id < (#[trigger] after.connections[b]).id by {
        assert(before.connections[a].id < before.connections[b].id);
    }
    assert forall|a: int, b: int, p: int, q: int|
        0 <= a < after.connections.len() && 0 <= b < after.connections.len() && a != b && 0 <= p
            < after.connections[a].packets.len() && 0 <= q < after.connections[b].packets.len()
            implies (#[trigger] after.connections[a].packets[p]).id != (
    #[trigger] after.connections[b].packets[q]).id by {
        if a == i {
            assert(before.connections[b].wf(before.last_id));
            assert(before.connections[b].packets[q].id <= before.last_id.packets);
            if p < old_c.packets.len() {
                assert(before.connections[a].packets[p].id != before.connections[b].packets[q].id);
            }
        } else if b == i {
            assert(before.connections[a].wf(before.last_id));
            assert(before.connections[a].packets[p].id <= before.last_id.packets);
            if q < old_c.packets.len() {
                assert(before.connections[a].packets[p].id != before.connections[b].packets[q].id);
            }
        } else {
            assert(before.connections[a].packets[p].id != before.connections[b].packets[q].id);
        }
    }
    if after.selected_connection.is_some() {
        let sid = after.selected_connection.unwrap();
        let k = choose|k: int|
            0 <= k < before.connections.len() && (#[trigger] before.connections[k]).id == sid;
        assert(after.connections[k].id == sid);
    }
    if after.selected_packet.is_some() {
        let sid = after.selected_connection.unwrap();
        let pid = after.selected_packet.unwrap();
        let k = choose|k: int|
            0 <= k < before.connections.len() && (#[trigger] before.connections[k]).id == sid
                && has_packet(before.connections[k].packets, pid);
        let w = choose|w: int|
            0 <= w < before.connections[k].packets.len() && (
            #[trigger] before.connections[k].packets[w]).id == pid;
        assert(after.connections[k].packets[w].id == pid);
        assert(has_packet(after.connections[k].packets, pid));
        assert(after.connections[k].id == sid);
    }
}

/// Whether a connection in `state` still waits for one of its sides.
pub open spec fn waiting(state: ConnectionState) -> bool {
    state == ConnectionState::WaitingLocal || state == ConnectionState::WaitingRemote
}

/// The session without the connection `id`: what was selected in it is
/// selected no more.
pub open spec fn removed(state: StateView, id: u64) -> StateView {
    if has_connection(state.connections, id) {
        StateView {
            connections: state.connections.remove(place_of(state.connections, id)),
            selected_connection: if state.selected_connection == Some(id) {
                None
            } else {
                state.selected_connection
            },
            selected_packet: if state.selected_connection == Some(id) {
                None
            } else {
                state.selected_packet
            },
            ..state
        }
    } else {
        state
    }
}

/// The value of an optional connection.
pub open spec fn view_of(conn: Option<&Connection>) -> Option<ConnectionView> {
    match conn {
        Some(c) => Some(c@),
        None => None,
    }
}

/// The value of an optional frame.
pub open spec fn packet_view_of(packet: Option<&Packet>) -> Option<PacketView> {
    match packet {
        Some(p) => Some(p@),
        None => None,
    }
}

/// The selected connection of a session.
pub open spec fn selected_connection_of(state: StateView) -> Option<ConnectionView> {
    match state.selected_connection {
        Some(id) => connection_of(state.connections, id),
        None => None,
    }
}

/// A place of the list at which the frame `id` stands.
pub open spec fn packet_place_of(packets: Seq<PacketView>, id: u64) -> int {
    choose|i: int| 0 <= i < packets.len() && (#[trigger] packets[i]).id == id
}

/// The frame `id` of the list, if it is there.
pub open spec fn packet_of(packets: Seq<PacketView>, id: u64) -> Option<PacketView> {
    if has_packet(packets, id) {
        Some(packets[packet_place_of(packets, id)])
    } else {
        None
    }
}

/// The selected frame of a session: the frame of that identifier in the
/// selected connection.
pub open spec fn selected_packet_of(state: StateView) -> Option<PacketView> {
    match (selected_connection_of(state), state.selected_packet) {
        (Some(conn), Some(id)) => packet_of(conn.packets, id),
        _ => None,
    }
}

/// The frame that a request to select `wanted` selects: the frame asked
/// for, when the selected connection holds it, and none otherwise.
pub open spec fn selectable(state: StateView, wanted: Option<u64>) -> Option<u64> {
    match (selected_connection_of(state), wanted) {
        (Some(conn), Some(id)) => if has_packet(conn.packets, id) {
            Some(id)
        } else {
            None
        },
        _ => None,
    }
}

/// The session with the bytes of its selected frame shown in the chosen
/// way; with no frame selected what is shown stays.
pub open spec fn shown(state: StateView) -> StateView {
    match selected_packet_of(state) {
        Some(packet) => StateView {
            buffer_view: byte_texts(packet.buffer, state.buffer_view_type),
            ..state
        },
        None => state,
    }
}

/// In a list of frames whose identifiers grow, an identifier is found at
/// one place only.
pub proof fn lemma_packet_place(packets: Seq<PacketView>, k: int, id: u64, last: u64)
    requires
        0 <= k < packets.len(),
        packets[k].id == id,
        ordered(packets, last),
    ensures
        has_packet(packets, id),
        packet_place_of(packets, id) == k,
        packet_of(packets, id) == Some(packets[k]),
{
    let p = packet_place_of(packets, id);
    if p < k {
        assert(packets[p].id < packets[k].id);
    } else if k < p {
        assert(packets[k].id < packets[p].id);
    }
}

/// Taking a connection out of a sound session leaves a sound session.
pub proof fn lemma_removed(before: StateView, i: int, id: u64)
    requires
        before.wf(),
        0 <= i < before.connections.len(),
        before.connections[i].id == id,
    ensures
        removed(before, id).wf(),
        removed(before, id).connections == before.connections.remove(i),
{
    lemma_place(before.connections, i, id);
    let after = removed(before, id);
    let shift = |j: int| if j < i { j } else { j + 1 };
    assert forall|j: int| 0 <= j < after.connections.len() implies #[trigger] after.connections[j]
        == before.connections[shift(j)] by {}
    assert forall|j: int| 0 <= j < after.connections.len() implies (
    #[trigger] after.connections[j]).wf(after.last_id) by {
        assert(before.connections[shift(j)].wf(before.last_id));
    }
    assert forall|a: int, b: int| 0 <= a < b < after.connections.len() implies (
    #[trigger] after.connections[a]).id < (#[trigger] after.connections[b]).id by {
        assert(before.connections[shift(a)].id < before.connections[shift(b)].id);
    }
    assert forall|a: int, b: int, p: int, q: int|
        0 <= a < after.connections.len() && 0 <= b < after.connections.len() && a != b && 0 <= p
            < after.connections[a].packets.len() && 0 <= q < after.connections[b].packets.len()
            implies (#[trigger] after.connections[a].packets[p]).id != (
    #[trigger] after.connections[b].packets[q]).id by {
        assert(before.connections[shift(a)].packets[p].id != before.connections[shift(
            b,
        )].packets[q].id);
    }
    if after.selected_connection.is_some() {
        let sid = after.selected_connection.unwrap();
        let k = choose|k: int|
            0 <= k < before.connections.len() && (#[trigger] before.connections[k]).id == sid;
        assert(k != i);
        let k2 = if k < i { k } else { k - 1 };
        assert(after.connections[k2] == before.connections[k]);
        assert(after.connections[k2].id == sid);
    }
    if after.selected_packet.is_some() {
        let sid = after.selected_connection.unwrap();
        let pid = after.selected_packet.unwrap();
        let k = choose|k: int|
            0 <= k < before.connections.len() && (#[trigger] before.connections[k]).id == sid
                && has_packet(before.connections[k].packets, pid);
        assert(k != i);
        let k2 = if k < i { k } else { k - 1 };
        assert(after.connections[k2] == before.connections[k]);
        assert(after.connections[k2].id == sid && has_packet(after.connections[k2].packets, pid));
    }
}

/// In a sound session identifiers are never shared: two connections at
/// different places have different identifiers, growing along the list, and
/// two frames at different places, in one connection or in two, have
/// different identifiers. None is above the last one handed out.
pub proof fn lemma_identifiers_unique(state: StateView, a: int, i: int, b: int, j: int)
    requires
        state.wf(),
        0 <= a < state.connections.len(),
        0 <= b < state.connections.len(),
        0 <= i < state.connections[a].packets.len(),
        0 <= j < state.connections[b].packets.len(),
    ensures
        a < b ==> state.connections[a].id < state.connections[b].id,
        a != b ==> state.connections[a].id != state.connections[b].id,
        1 <= state.connections[a].id <= state.last_id.connections,
        1 <= state.connections[a].packets[i].id <= state.last_id.packets,
        a == b && i < j ==> state.connections[a].packets[i].id < state.connections[b].packets[j].id,
        a != b || i != j ==> state.connections[a].packets[i].id != state.connections[b].packets[j].id,
{
    assert(state.connections[a].wf(state.last_id));
    assert(state.connections[b].wf(state.last_id));
    if a < b {
        assert(state.connections[a].id < state.connections[b].id);
    } else if b < a {
        assert(state.connections[b].id < state.connections[a].id);
    }
    if a == b {
        if i < j {
            assert(state.connections[a].packets[i].id < state.connections[a].packets[j].id);
        } else if j < i {
            assert(state.connections[a].packets[j].id < state.connections[a].packets[i].id);
        }
    } else {
        assert(state.connections[a].packets[i].id != state.connections[b].packets[j].id);
    }
}

/// The connections of a session in which the selected frame, where one is
/// selected, has been marked by `mark`; every other frame stays.
pub open spec fn marked(state: StateView, mark: spec_fn(PacketView) -> PacketView) -> Seq<
    ConnectionView,
> {
    Seq::new(
        state.connections.len(),
        |i: int|
            {
                let conn = state.connections[i];
                if state.selected_packet.is_some() && state.selected_connection == Some(conn.id) {
                    ConnectionView {
                        packets: Seq::new(
                            conn.packets.len(),
                            |k: int|
                                if conn.packets[k].id == state.selected_packet.unwrap() {
                                    mark(conn.packets[k])
                                } else {
                                    conn.packets[k]
                                },
                        ),
                        ..conn
                    }
                } else {
                    conn
                }
            },
    )
}

/// Whether a mark leaves the identifier, the bytes and the header of a
/// frame as they are.
pub open spec fn keeps_frame(mark: spec_fn(PacketView) -> PacketView) -> bool {
    forall|p: PacketView|
        (#[trigger] mark(p)).id == p.id && mark(p).buffer == p.buffer && mark(p).header
            == p.header
}

/// Marking the selected frame, found at place `k` of the connection at place
/// `i`, keeps the session sound and changes that frame only.
pub proof fn lemma_marked(
    before: StateView,
    after: StateView,
    i: int,
    k: int,
    mark: spec_fn(PacketView) -> PacketView,
)
    requires
        before.wf(),
        keeps_frame(mark),
        before.selected_connection.is_some(),
        before.selected_packet.is_some(),
        0 <= i < before.connections.len(),
        before.connections[i].id == before.selected_connection.unwrap(),
        0 <= k < before.connections[i].packets.len(),
        before.connections[i].packets[k].id == before.selected_packet.unwrap(),
        after == (StateView {
            connections: before.connections.update(
                i,
                ConnectionView {
                    packets: before.connections[i].packets.update(
                        k,
                        mark(before.connections[i].packets[k]),
                    ),
                    ..before.connections[i]
                },
            ),
            ..before
        }),
    ensures
        after.wf(),
        after.connections == marked(before, mark),
{
    let cid = before.selected_connection.unwrap();
    let pid = before.selected_packet.unwrap();
    let old_c = before.connections[i];
    let new_c = after.connections[i];
    let step = |c: ConnectionView| new_c;
    lemma_place(before.connections, i, cid);
    assert(old_c.wf(before.last_id));
    lemma_packet_place(old_c.packets, k, pid, before.last_id.packets);
    assert(new_c.wf(after.last_id)) by {
        assert forall|a: int| 0 <= a < new_c.packets.len() implies (#[trigger] new_c.packets[a]).wf()
            && 1 <= new_c.packets[a].id <= after.last_id.packets by {
            assert(old_c.packets[a].wf());
        }
        assert forall|a: int, b: int| 0 <= a < b < new_c.packets.len() implies (
        #[trigger] new_c.packets[a]).id < (#[trigger] new_c.packets[b]).id by {
            assert(old_c.packets[a].id < old_c.packets[b].id);
        }
    }
    assert(grown(old_c, step(old_c), before.last_id.packets));
    lemma_forward(before, after, i, cid, step);
    assert(after.connections =~= marked(before, mark)) by {
        assert forall|j: int| 0 <= j < before.connections.len() implies after.connections[j]
            == marked(before, mark)[j] by {
            if j == i {
                assert(new_c.packets =~= marked(before, mark)[i].packets) by {
                    assert forall|a: int| 0 <= a < old_c.packets.len() && a != k implies (
                    #[trigger] old_c.packets[a]).id != pid by {
                        if a < k {
                            assert(old_c.packets[a].id < old_c.packets[k].id);
                        } else {
                            assert(old_c.packets[k].id < old_c.packets[a].id);
                        }
                    }
                }
            } else {
                if j < i {
                    assert(before.connections[j].id < before.connections[i].id);
                } else {
                    assert(before.connections[i].id < before.connections[j].id);
                }
            }
        }
    }
}

/// With no frame selected, a mark changes nothing.
pub proof fn lemma_unmarked(state: StateView, mark: spec_fn(PacketView) -> PacketView)
    requires
        state.wf(),
        selected_packet_of(state).is_none(),
    ensures
        marked(state, mark) == state.connections,
{
    assert forall|i: int| 0 <= i < state.connections.len() implies marked(state, mark)[i]
        == state.connections[i] by {
        let conn = state.connections[i];
        if state.selected_packet.is_some() && state.selected_connection == Some(conn.id) {
            let cid = conn.id;
            lemma_place(state.connections, i, cid);
            assert(conn.wf(state.last_id));
            assert(!has_packet(conn.packets, state.selected_packet.unwrap()));
            assert(marked(state, mark)[i].packets =~= conn.packets);
        }
    }
    assert(marked(state, mark) =~= state.connections);
}

} // verus!
