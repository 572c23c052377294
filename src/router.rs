use vstd::prelude::*;
use crate::error::RaftError;
use crate::session::{max_u64, SessionTracker};

verus! {

/// How many times a write is sent before the gateway reports it unavailable.
pub const MAX_WRITE_ATTEMPTS: u64 = 5;

/// The first node whose reported applied watermark reaches `min_ts`, if any does.
pub fn select_read_replica(applied: &Vec<u64>, min_ts: u64) -> (r: Option<u64>)
    ensures
        r matches Some(i) ==> i < applied@.len() && applied@[i as int] >= min_ts && forall|j: int|
            0 <= j < i ==> #[trigger] applied@[j] < min_ts,
        r is None <==> forall|j: int| 0 <= j < applied@.len() ==> #[trigger] applied@[j] < min_ts,
{
    let mut i: usize = 0;
    while i < applied.len()
        invariant
            i <= applied@.len(),
            forall|j: int| 0 <= j < i ==> #[trigger] applied@[j] < min_ts,
        decreases applied@.len() - i,
    {
        if applied[i] >= min_ts {
            return Some(i as u64);
        }
        i = i + 1;
    }
    None
}

/// Where a read goes.
#[derive(Debug, Clone, Copy, PartialEq, Eq, Structural)]
pub enum ReadRoute {
    /// A node whose state machine has applied at least the client's last write.
    Replica { node: u64 },
    /// No node is known to be recent enough yet: wait for watermark reports.
    Wait,
    /// The wait timed out: ask the leader.
    Leader { node: u64 },
    /// The wait timed out and no leader is known.
    Unavailable,
}

/// What came back from sending a write to a node.
#[derive(Debug, Clone, Copy, PartialEq, Eq, Structural)]
pub enum WriteOutcome {
    /// The write committed with this logical timestamp.
    Committed { ts: u64 },
    /// The node is not the leader; it may name the one it knows.
    NotLeader { hint: Option<u64> },
    /// The node could not be reached.
    Unreachable,
    /// The leader took the write but a majority did not acknowledge it in time; it keeps
    /// replicating, and the write stays pending.
    QuorumTimeout,
}

/// What the gateway does next with a write.
#[derive(Debug, Clone, Copy, PartialEq, Eq, Structural)]
pub enum WriteStep {
    /// Acknowledge the client.
    Done { ts: u64 },
    /// Send the write again, to this node.
    Retry { target: u64 },
    /// Retries are exhausted: report the write unavailable, with the last failure.
    Fail { error: RaftError },
}

/// The node a redirected write goes to next: a valid hint, else the next node round-robin.
pub open spec fn next_target(target: u64, hint: Option<u64>, n: u64) -> u64 {
    match hint {
        Some(h) if h < n => h,
        _ => if target + 1 < n {
            (target + 1) as u64
        } else {
            0
        },
    }
}

/// The gateway's view of the cluster: the leader it knows, each node's reported applied
/// watermark, and the client sessions.
pub struct Gateway {
    pub cluster_size: u64,
    pub leader: Option<u64>,
    pub applied: Vec<u64>,
    pub sessions: SessionTracker,
}

impl Gateway {
    pub open spec fn wf(&self) -> bool {
        &&& 0 < self.cluster_size < u64::MAX
        &&& self.applied@.len() == self.cluster_size
        &&& self.sessions.wf()
        &&& (self.leader matches Some(l) ==> l < self.cluster_size)
    }

    /// A gateway for `cluster_size` nodes that knows no leader and no watermark yet.
    pub fn new(cluster_size: u64) -> (r: Gateway)
        requires
            0 < cluster_size < u64::MAX,
        ensures
            r.wf(),
            r.cluster_size == cluster_size,
            r.leader == None::<u64>,
            forall|i: int| 0 <= i < cluster_size ==> #[trigger] r.applied@[i] == 0,
            forall|c: u64| #[trigger] r.sessions.write_ts(c) == 0 && r.sessions.read_ts(c) == 0,
    {
        let mut applied: Vec<u64> = Vec::new();
        let mut i: u64 = 0;
        while i < cluster_size
            invariant
                i <= cluster_size,
                applied@.len() == i,
                forall|j: int| 0 <= j < i ==> #[trigger] applied@[j] == 0,
            decreases cluster_size - i,
        {
            applied.push(0);
            i = i + 1;
        }
        Gateway { cluster_size, leader: None, applied, sessions: SessionTracker::new() }
    }

    /// Records a node's applied watermark; a report never lowers what is known, and a
    /// report about a node outside the cluster is ignored.
    pub fn report_applied(&mut self, node: u64, ts: u64)
        requires
            old(self).wf(),
        ensures
            final(self).wf(),
            final(self).applied@ == if node < old(self).cluster_size {
                old(self).applied@.update(node as int, max_u64(old(self).applied@[node as int], ts))
            } else {
                old(self).applied@
            },
            final(self).sessions == old(self).sessions,
            final(self).leader == old(self).leader,
            final(self).cluster_size == old(self).cluster_size,
    {
        if node < self.cluster_size {
            proof { assert(self.applied@.len() == self.applied.len()); }
            let i = node as usize;
            let cur = self.applied[i];
            if ts > cur {
                self.applied.set(i, ts);
            }
        }
    }

    /// Decides where a read of `client` goes: the first node whose applied watermark
    /// reaches the client's last write; where none does, wait, and after the timeout the
    /// known leader.
    pub fn route_read(&self, client: u64, timed_out: bool) -> (r: ReadRoute)
        requires
            self.wf(),
        ensures
            r matches ReadRoute::Replica { node } ==> node < self.cluster_size && self.applied@[node as int]
                >= self.sessions.write_ts(client),
            (exists|j: int|
                0 <= j < self.cluster_size && #[trigger] self.applied@[j] >= self.sessions.write_ts(client))
                <==> r is Replica,
            r is Wait <==> !(r is Replica) && !timed_out,
            r matches ReadRoute::Leader { node } ==> timed_out && self.leader == Some(node),
            r is Unavailable <==> !(r is Replica) && timed_out && self.leader is None,
    {
        let w = self.sessions.get(client).last_write_ts;
        match select_read_replica(&self.applied, w) {
            Some(i) => ReadRoute::Replica { node: i },
            None => {
                if !timed_out {
                    ReadRoute::Wait
                } else {
                    match self.leader {
                        Some(l) => ReadRoute::Leader { node: l },
                        None => ReadRoute::Unavailable,
                    }
                }
            },
        }
    }

    /// Records that `client` read at logical time `ts`.
    pub fn complete_read(&mut self, client: u64, ts: u64)
        requires
            old(self).wf(),
        ensures
            final(self).wf(),
            final(self).sessions.read_ts(client) == max_u64(old(self).sessions.read_ts(client), ts),
            final(self).sessions.write_ts(client) == old(self).sessions.write_ts(client),
            forall|c: u64|
                c != client ==> #[trigger] final(self).sessions.mark(c) == old(self).sessions.mark(c),
            final(self).applied == old(self).applied,
            final(self).leader == old(self).leader,
            final(self).cluster_size == old(self).cluster_size,
    {
        self.sessions.record_read(client, ts);
    }

    /// The node a new write is sent to first: the known leader, else node 0.
    pub fn write_target(&self) -> (r: u64)
        requires
            self.wf(),
        ensures
            r < self.cluster_size,
            r == match self.leader {
                Some(l) => l,
                None => 0,
            },
    {
        match self.leader {
            Some(l) => l,
            None => 0,
        }
    }

    /// Decides the next step of a write of `client` after attempt number `attempt`
    /// (counting from 1) went to `target` with `outcome`. A commit records the client's write
    /// watermark and the leader; a redirect or an unreachable node leads to a retry at the
    /// next target until `MAX_WRITE_ATTEMPTS` attempts were made. A quorum timeout leaves
    /// the write pending at the same leader, which keeps replicating it: it is retried there
    /// whatever the attempt count.
    pub fn on_write_outcome(&mut self, client: u64, target: u64, attempt: u64, outcome: WriteOutcome) -> (r: WriteStep)
        requires
            old(self).wf(),
            target < old(self).cluster_size,
        ensures
            final(self).wf(),
            final(self).cluster_size == old(self).cluster_size,
            final(self).applied == old(self).applied,
            match outcome {
                WriteOutcome::Committed { ts } => {
                    &&& r == (WriteStep::Done { ts })
                    &&& final(self).leader == Some(target)
                    &&& final(self).sessions.write_ts(client) == max_u64(old(self).sessions.write_ts(client), ts)
                    &&& final(self).sessions.read_ts(client) == old(self).sessions.read_ts(client)
                    &&& forall|c: u64|
                        c != client ==> #[trigger] final(self).sessions.mark(c) == old(self).sessions.mark(c)
                },
                WriteOutcome::NotLeader { hint } => {
                    &&& final(self).sessions == old(self).sessions
                    &&& final(self).leader == match hint {
                        Some(h) if h < old(self).cluster_size => Some(h),
                        _ => None,
                    }
                    &&& r == if attempt >= MAX_WRITE_ATTEMPTS {
                        WriteStep::Fail { error: RaftError::NotLeader { leader_hint: hint } }
                    } else {
                        WriteStep::Retry { target: next_target(target, hint, old(self).cluster_size) }
                    }
                },
                WriteOutcome::Unreachable => {
                    &&& final(self).sessions == old(self).sessions
                    &&& final(self).leader == None::<u64>
                    &&& r == if attempt >= MAX_WRITE_ATTEMPTS {
                        WriteStep::Fail { error: RaftError::TransportFailure }
                    } else {
                        WriteStep::Retry { target: next_target(target, None, old(self).cluster_size) }
                    }
                },
                WriteOutcome::QuorumTimeout => {
                    &&& final(self).sessions == old(self).sessions
                    &&& final(self).leader == Some(target)
                    &&& r == (WriteStep::Retry { target })
                },
            },
            r matches WriteStep::Retry { target: t } ==> t < final(self).cluster_size,
    {
        let n = self.cluster_size;
        let round_robin = if target + 1 < n { target + 1 } else { 0 };
        match outcome {
            WriteOutcome::Committed { ts } => {
                let ghost before = self.sessions;
                self.sessions.record_write(client, ts);
                self.leader = Some(target);
                assert forall|c: u64| c != client implies #[trigger] self.sessions.mark(c) == before.mark(c) by {}
                WriteStep::Done { ts }
            },
            WriteOutcome::NotLeader { hint } => {
                let next = match hint {
                    Some(h) => {
                        if h < n {
                            self.leader = Some(h);
                            h
                        } else {
                            self.leader = None;
                            round_robin
                        }
                    },
                    None => {
                        self.leader = None;
                        round_robin
                    },
                };
                if attempt >= MAX_WRITE_ATTEMPTS {
                    WriteStep::Fail { error: RaftError::NotLeader { leader_hint: hint } }
                } else {
                    WriteStep::Retry { target: next }
                }
            },
            WriteOutcome::Unreachable => {
                self.leader = None;
                if attempt >= MAX_WRITE_ATTEMPTS {
                    WriteStep::Fail { error: RaftError::TransportFailure }
                } else {
                    WriteStep::Retry { target: round_robin }
                }
            },
            WriteOutcome::QuorumTimeout => {
                self.leader = Some(target);
                WriteStep::Retry { target }
            },
        }
    }
}

} // verus!
