use vstd::prelude::*;

verus! {

/// The highest logical write and read timestamps a client has observed.
#[derive(Debug, Clone, Copy, PartialEq, Eq, Structural)]
pub struct ClientWatermark {
    pub client_id: u64,
    pub last_write_ts: u64,
    pub last_read_ts: u64,
}

/// Per-client watermarks, one record per client id, raised only by taking maxima.
pub struct SessionTracker {
    pub clients: Vec<ClientWatermark>,
}

pub open spec fn max_u64(a: u64, b: u64) -> u64 {
    if a >= b {
        a
    } else {
        b
    }
}

impl SessionTracker {
    pub open spec fn wf(&self) -> bool {
        forall|i: int, j: int|
            0 <= i < self.clients@.len() && 0 <= j < self.clients@.len()
                && (#[trigger] self.clients@[i]).client_id == (#[trigger] self.clients@[j]).client_id
                ==> i == j
    }

    pub open spec fn tracks(&self, client: u64) -> bool {
        exists|i: int| 0 <= i < self.clients@.len() && (#[trigger] self.clients@[i]).client_id == client
    }

    /// The record of `client`, all zero for a client not seen yet.
    pub open spec fn mark(&self, client: u64) -> ClientWatermark {
        if self.tracks(client) {
            let i = choose|i: int|
                0 <= i < self.clients@.len() && (#[trigger] self.clients@[i]).client_id == client;
            self.clients@[i]
        } else {
            ClientWatermark { client_id: client, last_write_ts: 0, last_read_ts: 0 }
        }
    }

    pub open spec fn write_ts(&self, client: u64) -> u64 {
        self.mark(client).last_write_ts
    }

    pub open spec fn read_ts(&self, client: u64) -> u64 {
        self.mark(client).last_read_ts
    }

    pub fn new() -> (r: SessionTracker)
        ensures
            r.wf(),
            forall|c: u64| #[trigger] r.write_ts(c) == 0 && r.read_ts(c) == 0,
    {
        SessionTracker { clients: Vec::new() }
    }

    fn find(&self, client: u64) -> (r: Option<usize>)
        ensures
            r matches Some(i) ==> i < self.clients@.len() && self.clients@[i as int].client_id == client,
            r is None ==> !self.tracks(client),
    {
        let mut i: usize = 0;
        while i < self.clients.len()
            invariant
                i <= self.clients@.len(),
                forall|j: int| 0 <= j < i ==> (#[trigger] self.clients@[j]).client_id != client,
            decreases self.clients@.len() - i,
        {
            if self.clients[i].client_id == client {
                return Some(i);
            }
            i = i + 1;
        }
        None
    }

    /// Sets the record of `client` to `m` (whose id is `client`), leaving the others alone.
    fn put(&mut self, client: u64, m: ClientWatermark)
        requires
            old(self).wf(),
            m.client_id == client,
        ensures
            final(self).wf(),
            final(self).mark(client) == m,
            forall|c: u64| c != client ==> #[trigger] final(self).mark(c) == old(self).mark(c),
    {
        let ghost before = self.clients@;
        match self.find(client) {
            Some(i) => {
                self.clients.set(i, m);
                assert(self.clients@[i as int].client_id == client);
                assert forall|c: u64| c != client implies #[trigger] self.mark(c) == old(self).mark(c) by {
                    if old(self).tracks(c) {
                        let j = choose|j: int| 0 <= j < before.len() && (#[trigger] before[j]).client_id == c;
                        assert(self.clients@[j].client_id == c);
                    }
                    if self.tracks(c) {
                        let j = choose|j: int|
                            0 <= j < self.clients@.len() && (#[trigger] self.clients@[j]).client_id == c;
                        assert(before[j].client_id == c);
                    }
                }
            },
            None => {
                self.clients.push(m);
                let ghost n = before.len() as int;
                assert(self.clients@[n].client_id == client);
                assert forall|c: u64| c != client implies #[trigger] self.mark(c) == old(self).mark(c) by {
                    if old(self).tracks(c) {
                        let j = choose|j: int| 0 <= j < before.len() && (#[trigger] before[j]).client_id == c;
                        assert(self.clients@[j].client_id == c);
                    }
                    if self.tracks(c) {
                        let j = choose|j: int|
                            0 <= j < self.clients@.len() && (#[trigger] self.clients@[j]).client_id == c;
                        assert(before[j].client_id == c);
                    }
                }
            },
        }
    }

    /// The record of `client`, all zero for a client not seen yet.
    pub fn get(&self, client: u64) -> (r: ClientWatermark)
        requires
            self.wf(),
        ensures
            r == self.mark(client),
    {
        match self.find(client) {
            Some(i) => self.clients[i],
            None => ClientWatermark { client_id: client, last_write_ts: 0, last_read_ts: 0 },
        }
    }

    /// Records an acknowledged write at `ts`: the client's write watermark becomes the
    /// larger of the old one and `ts`; nothing else changes.
    pub fn record_write(&mut self, client: u64, ts: u64)
        requires
            old(self).wf(),
        ensures
            final(self).wf(),
            final(self).write_ts(client) == max_u64(old(self).write_ts(client), ts),
            final(self).read_ts(client) == old(self).read_ts(client),
            forall|c: u64| c != client ==> #[trigger] final(self).mark(c) == old(self).mark(c),
            forall|c: u64|
                #[trigger] final(self).write_ts(c) >= old(self).write_ts(c) && final(self).read_ts(c)
                    >= old(self).read_ts(c),
    {
        let m = self.get(client);
        let w = if ts > m.last_write_ts { ts } else { m.last_write_ts };
        self.put(client, ClientWatermark { client_id: client, last_write_ts: w, last_read_ts: m.last_read_ts });
        assert forall|c: u64|
            #[trigger] self.write_ts(c) >= old(self).write_ts(c) && self.read_ts(c) >= old(self).read_ts(c) by {
            if c != client {
                assert(self.mark(c) == old(self).mark(c));
            }
        }
    }

    /// Records a completed read at `ts`: the client's read watermark becomes the larger
    /// of the old one and `ts`; nothing else changes.
    pub fn record_read(&mut self, client: u64, ts: u64)
        requires
            old(self).wf(),
        ensures
            final(self).wf(),
            final(self).read_ts(client) == max_u64(old(self).read_ts(client), ts),
            final(self).write_ts(client) == old(self).write_ts(client),
            forall|c: u64| c != client ==> #[trigger] final(self).mark(c) == old(self).mark(c),
            forall|c: u64|
                #[trigger] final(self).write_ts(c) >= old(self).write_ts(c) && final(self).read_ts(c)
                    >= old(self).read_ts(c),
    {
        let m = self.get(client);
        let r = if ts > m.last_read_ts { ts } else { m.last_read_ts };
        self.put(client, ClientWatermark { client_id: client, last_write_ts: m.last_write_ts, last_read_ts: r });
        assert forall|c: u64|
            #[trigger] self.write_ts(c) >= old(self).write_ts(c) && self.read_ts(c) >= old(self).read_ts(c) by {
            if c != client {
                assert(self.mark(c) == old(self).mark(c));
            }
        }
    }
}

} // verus!
