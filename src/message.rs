use vstd::prelude::*;
use crate::entry::LogEntry;

verus! {

/// A candidate's request for a vote.
pub struct RequestVoteArgs {
    pub term: u64,
    pub candidate_id: u64,
    pub last_log_index: u64,
    pub last_log_term: u64,
}

pub struct RequestVoteReply {
    pub term: u64,
    pub vote_granted: bool,
}

/// A leader's replication request; with no entries it is a heartbeat.
pub struct AppendEntriesArgs {
    pub term: u64,
    pub leader_id: u64,
    pub prev_log_index: u64,
    pub prev_log_term: u64,
    pub entries: Vec<LogEntry>,
    pub leader_commit: u64,
}

pub struct AppendEntriesReply {
    pub term: u64,
    pub success: bool,
    /// Index of the last entry known to match the leader's log; 0 on failure.
    pub match_index: u64,
}

} // verus!
