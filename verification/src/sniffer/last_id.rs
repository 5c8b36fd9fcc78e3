//! The two counters that hand out identifiers: one for connections and one
//! for captured frames.

use vstd::prelude::*;

verus! {

/// The last identifier handed out of each kind. Identifiers start at 1 and
/// grow by one; none is handed out twice.
#[derive(Debug, Clone, Copy, PartialEq, Eq, Structural)]
pub struct LastId {
    pub connections: u64,
    pub packets: u64,
}

impl LastId {
    /// Counters from which nothing has been handed out yet.
    pub fn new() -> (ids: LastId)
        ensures
            ids == (LastId { connections: 0, packets: 0 }),
    {
        LastId { connections: 0, packets: 0 }
    }

    /// How many frame identifiers can still be handed out.
    pub open spec fn packets_left(&self) -> int {
        u64::MAX - self.packets
    }

    /// The next connection identifier: one more than the last. When the
    /// counter has reached its largest value there is none, and the counter
    /// stays.
    pub fn sync_next_connection_id(&mut self) -> (id: Option<u64>)
        ensures
            final(self).packets == old(self).packets,
            old(self).connections < u64::MAX ==> id == Some((old(self).connections + 1) as u64)
                && final(self).connections == old(self).connections + 1,
            old(self).connections == u64::MAX ==> id.is_none() && final(self).connections
                == old(self).connections,
    {
        if self.connections == u64::MAX {
            return None;
        }
        let next_id: u64 = self.connections + 1;
        self.connections = next_id;
        Some(next_id)
    }

    /// The next frame identifier: one more than the last. When the counter
    /// has reached its largest value there is none, and the counter stays.
    pub fn sync_next_packet_id(&mut self) -> (id: Option<u64>)
        ensures
            final(self).connections == old(self).connections,
            old(self).packets < u64::MAX ==> id == Some((old(self).packets + 1) as u64)
                && final(self).packets == old(self).packets + 1,
            old(self).packets == u64::MAX ==> id.is_none() && final(self).packets == old(
                self,
            ).packets,
    {
        if self.packets == u64::MAX {
            return None;
        }
        let next_id: u64 = self.packets + 1;
        self.packets = next_id;
        Some(next_id)
    }
}

impl Default for LastId {
    fn default() -> (ids: LastId)
        ensures
            ids == (LastId { connections: 0, packets: 0 }),
    {
        LastId::new()
    }
}

} // verus!
