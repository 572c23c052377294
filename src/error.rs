use vstd::prelude::*;

verus! {

/// Failures the consensus core and the gateway report; none of them is fatal to a node.
#[derive(Debug, PartialEq, Eq, Clone, Copy, Structural)]
pub enum RaftError {
    /// A request carried a term lower than the receiver's.
    StaleTerm,
    /// The follower's log lacks the entry the leader expected before new entries.
    LogInconsistency,
    /// A write reached a node that is not the leader; the hint names the leader it knows of.
    NotLeader { leader_hint: Option<u64> },
    /// Not enough acknowledgements arrived within the retry window.
    QuorumTimeout,
    /// A message could not be delivered.
    TransportFailure,
}

} // verus!
