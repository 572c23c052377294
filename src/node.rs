use vstd::prelude::*;
use crate::entry::{KvCommand, LogEntry};
use crate::error::RaftError;
use crate::message::{AppendEntriesArgs, AppendEntriesReply, RequestVoteArgs, RequestVoteReply};
use crate::raft_log::{agree_len, conflicts, has_entry, indexed_from, merged, term_at, RaftLog};
use crate::store::{applied_value, lemma_same_prefix_same_state, opt_view, KvStore};

verus! {

/// Number of `true` flags in `s`.
pub open spec fn count_true(s: Seq<bool>) -> nat
    decreases s.len(),
{
    if s.len() == 0 {
        0
    } else {
        count_true(s.drop_last()) + if s.last() {
            1nat
        } else {
            0nat
        }
    }
}

/// More than half of a cluster of `n` nodes.
pub open spec fn is_majority(count: int, n: int) -> bool {
    count > n / 2
}

/// A candidate whose last entry has `last_term` and `last_index` has a log at least as
/// up to date as `log`: compared by last term, then by length.
pub open spec fn up_to_date(last_term: int, last_index: int, log: Seq<LogEntry>) -> bool {
    let my_term = term_at(log, log.len() as int);
    last_term > my_term || (last_term == my_term && last_index >= log.len())
}

/// Whether a node in state `node` accepts `args`: the term is not stale, no other leader
/// of its own term sends it, the log holds the entry before the new ones, the new entries
/// carry consecutive indices that fit, and no committed entry would have to be dropped.
pub open spec fn accepts_append(node: Node, args: AppendEntriesArgs) -> bool {
    let log = node.log@;
    let prev = args.prev_log_index as int;
    let entries = args.entries@;
    &&& args.term >= node.current_term
    &&& !(args.term == node.current_term && node.leads())
    &&& has_entry(log, prev, args.prev_log_term as int)
    &&& prev + entries.len() < u64::MAX
    &&& indexed_from(entries, prev + 1)
    &&& !(conflicts(log, prev, entries) && prev + agree_len(log, prev, entries) < node.commit_index)
}

/// Number of nodes among the first `upto` that hold the entry at `index`: the leader
/// itself, and each follower whose match index has reached `index`.
pub open spec fn replicated_count(match_index: Seq<u64>, leader: int, index: int, upto: int) -> nat
    decreases upto,
{
    if upto <= 0 {
        0
    } else {
        replicated_count(match_index, leader, index, upto - 1) + if upto - 1 == leader
            || match_index[upto - 1] >= index {
            1nat
        } else {
            0nat
        }
    }
}

/// A leader may commit `index`: it lies past the commit index, was created in the
/// leader's current term, and a majority of the cluster holds it.
pub open spec fn committable(
    log: Seq<LogEntry>,
    term: int,
    leader: int,
    n: int,
    match_index: Seq<u64>,
    commit: int,
    index: int,
) -> bool {
    &&& commit < index <= log.len()
    &&& log[index - 1].term == term
    &&& is_majority(replicated_count(match_index, leader, index, n) as int, n)
}

/// `new_commit` is the largest committable index, or `commit` where there is none.
pub open spec fn commit_advanced(
    log: Seq<LogEntry>,
    term: int,
    leader: int,
    n: int,
    match_index: Seq<u64>,
    commit: int,
    new_commit: int,
) -> bool {
    &&& (new_commit == commit || committable(log, term, leader, n, match_index, commit, new_commit))
    &&& forall|i: int|
        #![trigger committable(log, term, leader, n, match_index, commit, i)]
        i > new_commit ==> !committable(log, term, leader, n, match_index, commit, i)
}

fn count_replicated(match_index: &Vec<u64>, leader: u64, index: u64) -> (r: u64)
    requires
        match_index@.len() < u64::MAX,
    ensures
        r == replicated_count(match_index@, leader as int, index as int, match_index@.len() as int),
        r <= match_index@.len(),
{
    let mut c: u64 = 0;
    let mut i: usize = 0;
    while i < match_index.len()
        invariant
            i <= match_index@.len() < u64::MAX,
            c == replicated_count(match_index@, leader as int, index as int, i as int),
            c <= i,
        decreases match_index@.len() - i,
    {
        if i as u64 == leader || match_index[i] >= index {
            c = c + 1;
        }
        i = i + 1;
    }
    c
}

/// Two nodes that differ at most in their logs and commit indices.
pub open spec fn same_but_log_and_commit(a: Node, b: Node) -> bool {
    &&& a.id == b.id
    &&& a.cluster_size == b.cluster_size
    &&& a.current_term == b.current_term
    &&& a.voted_for == b.voted_for
    &&& a.role == b.role
    &&& a.last_applied == b.last_applied
    &&& a.store == b.store
    &&& a.leader_hint == b.leader_hint
}

/// Whether `entries` carry the consecutive indices `first`, `first + 1`, ...
fn entries_indexed(entries: &Vec<LogEntry>, first: u64) -> (r: bool)
    requires
        first + entries@.len() <= u64::MAX,
    ensures
        r == indexed_from(entries@, first as int),
{
    let mut i: usize = 0;
    while i < entries.len()
        invariant
            i <= entries@.len(),
            first + entries@.len() <= u64::MAX,
            forall|j: int| 0 <= j < i ==> (#[trigger] entries@[j]).index == first + j,
        decreases entries@.len() - i,
    {
        if entries[i].index != first + i as u64 {
            return false;
        }
        i = i + 1;
    }
    true
}

/// The role of a node, with the data that only that role carries.
pub enum Role {
    Follower,
    /// `votes[i]` records that node `i` granted its vote in the current term.
    Candidate { votes: Vec<bool> },
    /// Per-follower replication progress.
    Leader { next_index: Vec<u64>, match_index: Vec<u64> },
}

/// One member of the cluster: its term, vote, role, log and state machine.
pub struct Node {
    pub id: u64,
    pub cluster_size: u64,
    pub current_term: u64,
    pub voted_for: Option<u64>,
    pub role: Role,
    pub log: RaftLog,
    pub commit_index: u64,
    pub last_applied: u64,
    pub store: KvStore,
    /// The leader of the current term, where this node has heard from one.
    pub leader_hint: Option<u64>,
}

fn count_votes(votes: &Vec<bool>) -> (r: u64)
    requires
        votes@.len() < u64::MAX,
    ensures
        r == count_true(votes@),
{
    let mut c: u64 = 0;
    let mut i: usize = 0;
    while i < votes.len()
        invariant
            i <= votes@.len() < u64::MAX,
            c == count_true(votes@.subrange(0, i as int)),
            c <= i,
        decreases votes@.len() - i,
    {
        proof {
            assert(votes@.subrange(0, i + 1).drop_last() =~= votes@.subrange(0, i as int));
        }
        if votes[i] {
            c = c + 1;
        }
        i = i + 1;
    }
    assert(votes@.subrange(0, i as int) =~= votes@);
    c
}

impl Node {
    pub open spec fn leads(&self) -> bool {
        self.role is Leader
    }

    pub open spec fn is_candidate(&self) -> bool {
        self.role is Candidate
    }

    pub open spec fn is_follower(&self) -> bool {
        self.role is Follower
    }

    /// Per-follower next indices of a leader; empty in other roles.
    pub open spec fn next_of(&self) -> Seq<u64> {
        match self.role {
            Role::Leader { next_index, .. } => next_index@,
            _ => Seq::empty(),
        }
    }

    /// Per-follower match indices of a leader; empty in other roles.
    pub open spec fn match_of(&self) -> Seq<u64> {
        match self.role {
            Role::Leader { match_index, .. } => match_index@,
            _ => Seq::empty(),
        }
    }

    /// The votes a candidate has recorded; empty in other roles.
    pub open spec fn votes_of(&self) -> Seq<bool> {
        match self.role {
            Role::Candidate { votes } => votes@,
            _ => Seq::empty(),
        }
    }

    pub open spec fn wf(&self) -> bool {
        &&& self.id < self.cluster_size < u64::MAX
        &&& self.log.wf()
        &&& self.last_applied <= self.commit_index <= self.log@.len()
        &&& self.store.wf()
        &&& forall|k: Seq<char>|
            #[trigger] self.store.value_of(k) == applied_value(self.log@, self.last_applied as int, k)
        &&& match self.role {
            Role::Follower => true,
            Role::Candidate { votes } => {
                &&& votes@.len() == self.cluster_size
                &&& self.voted_for == Some(self.id)
            },
            Role::Leader { next_index, match_index } => {
                &&& next_index@.len() == self.cluster_size
                &&& match_index@.len() == self.cluster_size
                &&& forall|i: int|
                    0 <= i < self.cluster_size ==> 1 <= #[trigger] next_index@[i] <= self.log@.len() + 1
                &&& forall|i: int|
                    0 <= i < self.cluster_size ==> #[trigger] match_index@[i] <= self.log@.len()
            },
        }
    }

    /// A follower in term 0 with an empty log, in a cluster of `cluster_size` nodes.
    pub fn new(id: u64, cluster_size: u64) -> (r: Node)
        requires
            id < cluster_size < u64::MAX,
        ensures
            r.wf(),
            r.id == id,
            r.cluster_size == cluster_size,
            r.current_term == 0,
            r.voted_for == None::<u64>,
            r.is_follower(),
            r.log@.len() == 0,
            r.commit_index == 0,
            r.last_applied == 0,
            r.leader_hint == None::<u64>,
    {
        Node {
            id,
            cluster_size,
            current_term: 0,
            voted_for: None,
            role: Role::Follower,
            log: RaftLog::new(),
            commit_index: 0,
            last_applied: 0,
            store: KvStore::new(),
            leader_hint: None,
        }
    }

    /// Moves to `term` as a follower that has not voted in it.
    fn step_down(&mut self, term: u64)
        requires
            old(self).wf(),
        ensures
            final(self).wf(),
            final(self).current_term == term,
            final(self).voted_for == None::<u64>,
            final(self).is_follower(),
            final(self).leader_hint == None::<u64>,
            final(self).id == old(self).id,
            final(self).cluster_size == old(self).cluster_size,
            final(self).log == old(self).log,
            final(self).commit_index == old(self).commit_index,
            final(self).last_applied == old(self).last_applied,
            final(self).store == old(self).store,
    {
        self.current_term = term;
        self.voted_for = None;
        self.role = Role::Follower;
        self.leader_hint = None;
    }

    /// Takes the leader role: every follower is next sent the entry after the last one.
    fn become_leader(&mut self)
        requires
            old(self).wf(),
        ensures
            final(self).wf(),
            final(self).leads(),
            final(self).current_term == old(self).current_term,
            final(self).voted_for == old(self).voted_for,
            final(self).leader_hint == Some(old(self).id),
            final(self).id == old(self).id,
            final(self).cluster_size == old(self).cluster_size,
            final(self).log == old(self).log,
            final(self).commit_index == old(self).commit_index,
            final(self).last_applied == old(self).last_applied,
            final(self).store == old(self).store,
            match final(self).role {
                Role::Leader { next_index, match_index } => {
                    &&& forall|i: int|
                        0 <= i < final(self).cluster_size ==> #[trigger] next_index@[i]
                            == old(self).log@.len() + 1
                    &&& forall|i: int|
                        0 <= i < final(self).cluster_size ==> #[trigger] match_index@[i] == 0
                },
                _ => false,
            },
    {
        let next = self.log.last_index() + 1;
        let mut next_index: Vec<u64> = Vec::new();
        let mut match_index: Vec<u64> = Vec::new();
        let mut i: u64 = 0;
        while i < self.cluster_size
            invariant
                i <= self.cluster_size,
                next == self.log@.len() + 1,
                next_index@.len() == i,
                match_index@.len() == i,
                forall|j: int| 0 <= j < i ==> #[trigger] next_index@[j] == next,
                forall|j: int| 0 <= j < i ==> #[trigger] match_index@[j] == 0,
            decreases self.cluster_size - i,
        {
            next_index.push(next);
            match_index.push(0);
            i = i + 1;
        }
        self.role = Role::Leader { next_index, match_index };
        self.leader_hint = Some(self.id);
    }

    /// Election timeout: a follower or candidate starts an election in the next term,
    /// voting for itself; a leader ignores the timeout. A single-node cluster wins at once.
    pub fn on_election_timeout(&mut self) -> (r: Option<RequestVoteArgs>)
        requires
            old(self).wf(),
            old(self).current_term < u64::MAX,
        ensures
            final(self).wf(),
            old(self).leads() ==> r is None && *final(self) == *old(self),
            !old(self).leads() ==> {
                &&& r == Some(
                    RequestVoteArgs {
                        term: (old(self).current_term + 1) as u64,
                        candidate_id: old(self).id,
                        last_log_index: old(self).log@.len() as u64,
                        last_log_term: term_at(old(self).log@, old(self).log@.len() as int) as u64,
                    },
                )
                &&& final(self).current_term == old(self).current_term + 1
                &&& final(self).voted_for == Some(old(self).id)
                &&& final(self).leader_hint == (if old(self).cluster_size == 1 {
                    Some(old(self).id)
                } else {
                    None::<u64>
                })
                &&& final(self).log == old(self).log
                &&& final(self).commit_index == old(self).commit_index
                &&& final(self).last_applied == old(self).last_applied
                &&& final(self).store == old(self).store
                &&& final(self).id == old(self).id
                &&& final(self).cluster_size == old(self).cluster_size
                &&& (old(self).cluster_size == 1 ==> final(self).leads())
                &&& (old(self).cluster_size > 1 ==> match final(self).role {
                    Role::Candidate { votes } => forall|i: int|
                        0 <= i < old(self).cluster_size ==> #[trigger] votes@[i] == (i == old(self).id),
                    _ => false,
                })
            },
    {
        if let Role::Leader { .. } = self.role {
            return None;
        }
        self.current_term = self.current_term + 1;
        self.voted_for = Some(self.id);
        self.leader_hint = None;
        let mut votes: Vec<bool> = Vec::new();
        let mut i: u64 = 0;
        while i < self.cluster_size
            invariant
                i <= self.cluster_size,
                votes@.len() == i,
                forall|j: int| 0 <= j < i ==> #[trigger] votes@[j] == (j == self.id),
            decreases self.cluster_size - i,
        {
            votes.push(i == self.id);
            i = i + 1;
        }
        self.role = Role::Candidate { votes };
        if self.cluster_size == 1 {
            self.become_leader();
        }
        Some(
            RequestVoteArgs {
                term: self.current_term,
                candidate_id: self.id,
                last_log_index: self.log.last_index(),
                last_log_term: self.log.last_term(),
            },
        )
    }

    /// Answers a vote request. A higher term is adopted first (as a follower that has not
    /// voted); the vote is then granted iff the request's term is the current one, this node
    /// has not voted in it, and the candidate's log is at least as up to date.
    pub fn handle_request_vote(&mut self, args: &RequestVoteArgs) -> (r: RequestVoteReply)
        requires
            old(self).wf(),
        ensures
            final(self).wf(),
            final(self).current_term == if args.term > old(self).current_term {
                args.term
            } else {
                old(self).current_term
            },
            r.term == final(self).current_term,
            r.vote_granted == (args.term >= old(self).current_term && (args.term
                > old(self).current_term || old(self).voted_for is None) && up_to_date(
                args.last_log_term as int,
                args.last_log_index as int,
                old(self).log@,
            )),
            final(self).voted_for == if r.vote_granted {
                Some(args.candidate_id)
            } else if args.term > old(self).current_term {
                None
            } else {
                old(self).voted_for
            },
            final(self).current_term == old(self).current_term && old(self).voted_for is Some
                ==> final(self).voted_for == old(self).voted_for,
            args.term > old(self).current_term ==> final(self).is_follower(),
            args.term <= old(self).current_term ==> final(self).role == old(self).role,
            final(self).log == old(self).log,
            final(self).commit_index == old(self).commit_index,
            final(self).last_applied == old(self).last_applied,
            final(self).store == old(self).store,
            final(self).id == old(self).id,
            final(self).cluster_size == old(self).cluster_size,
    {
        if args.term > self.current_term {
            self.step_down(args.term);
        }
        let my_last_term = self.log.last_term();
        let my_last_index = self.log.last_index();
        let log_ok = args.last_log_term > my_last_term || (args.last_log_term == my_last_term
            && args.last_log_index >= my_last_index);
        let grant = args.term == self.current_term && self.voted_for.is_none() && log_ok;
        if grant {
            self.voted_for = Some(args.candidate_id);
        }
        RequestVoteReply { term: self.current_term, vote_granted: grant }
    }

    /// Counts a vote reply. A higher term makes this node a follower of it; a vote granted
    /// in the current term to this candidate is recorded, and a majority makes it leader.
    pub fn handle_vote_reply(&mut self, from: u64, reply: &RequestVoteReply)
        requires
            old(self).wf(),
        ensures
            final(self).wf(),
            reply.term > old(self).current_term ==> final(self).current_term == reply.term
                && final(self).is_follower() && final(self).voted_for == None::<u64>,
            reply.term <= old(self).current_term ==> final(self).current_term
                == old(self).current_term && final(self).voted_for == old(self).voted_for,
            final(self).leads() ==> old(self).leads() || (reply.term
                == old(self).current_term && reply.vote_granted && match old(self).role {
                Role::Candidate { votes } => from < old(self).cluster_size && is_majority(
                    count_true(votes@.update(from as int, true)) as int,
                    old(self).cluster_size as int,
                ),
                _ => false,
            }),
            (reply.term == old(self).current_term && reply.vote_granted && match old(self).role {
                Role::Candidate { votes } => from < old(self).cluster_size && is_majority(
                    count_true(votes@.update(from as int, true)) as int,
                    old(self).cluster_size as int,
                ),
                _ => false,
            }) ==> final(self).leads(),
            old(self).leads() && reply.term <= old(self).current_term ==> *final(self)
                == *old(self),
            old(self).is_candidate() && reply.term == old(self).current_term && reply.vote_granted
                && from < old(self).cluster_size && !final(self).leads() ==> final(self).is_candidate()
                && final(self).votes_of() == old(self).votes_of().update(from as int, true),
            !(old(self).is_candidate() && reply.term == old(self).current_term && reply.vote_granted
                && from < old(self).cluster_size) && reply.term <= old(self).current_term
                ==> *final(self) == *old(self),
            final(self).log == old(self).log,
            final(self).commit_index == old(self).commit_index,
            final(self).last_applied == old(self).last_applied,
            final(self).store == old(self).store,
            final(self).id == old(self).id,
            final(self).cluster_size == old(self).cluster_size,
    {
        if reply.term > self.current_term {
            self.step_down(reply.term);
            return;
        }
        if reply.term != self.current_term || !reply.vote_granted || from >= self.cluster_size {
            return;
        }
        let mut role = Role::Follower;
        core::mem::swap(&mut self.role, &mut role);
        let mut won = false;
        match role {
            Role::Candidate { mut votes } => {
                proof { assert(votes@.len() == votes.len()); }
                votes.set(from as usize, true);
                let c = count_votes(&votes);
                won = c > self.cluster_size / 2;
                self.role = Role::Candidate { votes };
            },
            other => {
                self.role = other;
            },
        }
        if won {
            self.become_leader();
        }
    }

    /// Why this node would refuse `args`: a lower term is `StaleTerm`; a request from another
    /// leader of the term this node leads, a log without the expected previous entry, entries
    /// numbered out of sequence or past the index range, and a conflict inside the committed
    /// prefix are `LogInconsistency`.
    pub fn check_append(&self, args: &AppendEntriesArgs) -> (r: Result<(), RaftError>)
        requires
            self.wf(),
        ensures
            r is Ok <==> accepts_append(*self, *args),
            r == Err::<(), RaftError>(RaftError::StaleTerm) <==> args.term < self.current_term,
            r matches Err(e) ==> e == RaftError::StaleTerm || e == RaftError::LogInconsistency,
    {
        if args.term < self.current_term {
            return Err(RaftError::StaleTerm);
        }
        if args.term == self.current_term && self.is_leader() {
            return Err(RaftError::LogInconsistency);
        }
        let prev = args.prev_log_index;
        if !self.log.has_entry(prev, args.prev_log_term) {
            return Err(RaftError::LogInconsistency);
        }
        let n = args.entries.len() as u64;
        if n >= u64::MAX - prev || !entries_indexed(&args.entries, prev + 1) {
            return Err(RaftError::LogInconsistency);
        }
        let j = self.log.agree_len(prev, &args.entries);
        if j < n && prev + j < self.log.last_index() && prev + j < self.commit_index {
            return Err(RaftError::LogInconsistency);
        }
        Ok(())
    }

    /// Answers a replication request from a leader. A stale term is refused with nothing
    /// changed; otherwise the node follows the sender (adopting a higher term), and where
    /// the request is accepted it merges the entries and raises its commit index to
    /// `min(leader_commit, index of the last new entry)`.
    pub fn handle_append_entries(&mut self, args: &AppendEntriesArgs) -> (r: AppendEntriesReply)
        requires
            old(self).wf(),
        ensures
            final(self).wf(),
            final(self).current_term == if args.term > old(self).current_term {
                args.term
            } else {
                old(self).current_term
            },
            r.term == final(self).current_term,
            r.success == accepts_append(*old(self), *args),
            r.success ==> {
                &&& final(self).log@ == merged(old(self).log@, args.prev_log_index as int, args.entries@)
                &&& r.match_index == args.prev_log_index + args.entries@.len()
                &&& final(self).commit_index == if old(self).commit_index >= args.leader_commit
                    || old(self).commit_index >= r.match_index {
                    old(self).commit_index as int
                } else if args.leader_commit <= r.match_index {
                    args.leader_commit as int
                } else {
                    r.match_index as int
                }
            },
            !r.success ==> final(self).log == old(self).log && final(self).commit_index
                == old(self).commit_index && r.match_index == 0,
            args.term < old(self).current_term || (args.term == old(self).current_term
                && old(self).leads()) ==> *final(self) == *old(self),
            args.term > old(self).current_term || (args.term == old(self).current_term
                && !old(self).leads()) ==> final(self).is_follower() && final(self).leader_hint
                == Some(args.leader_id),
            final(self).voted_for == if args.term > old(self).current_term {
                None
            } else {
                old(self).voted_for
            },
            final(self).last_applied == old(self).last_applied,
            final(self).store == old(self).store,
            final(self).id == old(self).id,
            final(self).cluster_size == old(self).cluster_size,
    {
        let verdict = self.check_append(args);
        let refused = AppendEntriesReply { term: self.current_term, success: false, match_index: 0 };
        if args.term < self.current_term {
            return refused;
        }
        if args.term > self.current_term {
            self.step_down(args.term);
        } else if self.is_leader() {
            return refused;
        } else {
            self.role = Role::Follower;
        }
        self.leader_hint = Some(args.leader_id);
        if verdict.is_err() {
            return AppendEntriesReply { term: self.current_term, success: false, match_index: 0 };
        }
        let prev = args.prev_log_index;
        let ghost before = self.log@;
        self.log.merge(prev, &args.entries);
        proof {
            let la = self.last_applied as int;
            let j = agree_len(before, prev as int, args.entries@) as int;
            crate::raft_log::lemma_agree_len_bound(before, prev as int, args.entries@);
            if j < args.entries@.len() {
                assert(self.log@.subrange(0, la) =~= before.subrange(0, la));
            }
            assert forall|k: Seq<char>| #[trigger] self.store.value_of(k) == applied_value(
                self.log@,
                la,
                k,
            ) by {
                lemma_same_prefix_same_state(before, self.log@, la, k);
            }
        }
        let last_new = prev + args.entries.len() as u64;
        let target = if args.leader_commit <= last_new {
            args.leader_commit
        } else {
            last_new
        };
        if target > self.commit_index {
            self.commit_index = target;
        }
        AppendEntriesReply { term: self.current_term, success: true, match_index: last_new }
    }

    /// Raises the commit index of a leader to the largest index it may commit.
    fn advance_commit_index(&mut self)
        requires
            old(self).wf(),
            old(self).leads(),
        ensures
            final(self).wf(),
            commit_advanced(
                old(self).log@,
                old(self).current_term as int,
                old(self).id as int,
                old(self).cluster_size as int,
                old(self).match_of(),
                old(self).commit_index as int,
                final(self).commit_index as int,
            ),
            *final(self) == (Node { commit_index: final(self).commit_index, ..*old(self) }),
    {
        let ghost g = *self;
        let mut idx = self.log.last_index();
        let n = self.cluster_size;
        while idx > self.commit_index
            invariant
                *self == g,
                g == *old(self),
                g.wf(),
                g.leads(),
                n == g.cluster_size,
                idx <= g.log@.len(),
                forall|i: int|
                    #![trigger committable(g.log@, g.current_term as int, g.id as int, n as int, g.match_of(), g.commit_index as int, i)]
                    i > idx ==> !committable(
                        g.log@,
                        g.current_term as int,
                        g.id as int,
                        n as int,
                        g.match_of(),
                        g.commit_index as int,
                        i,
                    ),
            decreases idx,
        {
            if self.log.term_at(idx) == self.current_term {
                let c = match &self.role {
                    Role::Leader { match_index, .. } => count_replicated(match_index, self.id, idx),
                    _ => 0,
                };
                if c > n / 2 {
                    self.commit_index = idx;
                    return;
                }
            }
            idx = idx - 1;
        }
    }

    /// The replication request a leader sends to `peer`: the entries from the peer's next
    /// index on, after the entry that must already be there. `None` unless this node leads
    /// and `peer` is another member.
    pub fn make_append_entries(&self, peer: u64) -> (r: Option<AppendEntriesArgs>)
        requires
            self.wf(),
        ensures
            r is Some <==> self.leads() && peer < self.cluster_size && peer != self.id,
            r matches Some(a) ==> {
                let prev = self.next_of()[peer as int] - 1;
                &&& a.term == self.current_term
                &&& a.leader_id == self.id
                &&& a.prev_log_index == prev
                &&& a.prev_log_term == term_at(self.log@, prev)
                &&& a.entries@ == self.log@.subrange(prev, self.log@.len() as int)
                &&& a.leader_commit == self.commit_index
            },
    {
        if peer >= self.cluster_size || peer == self.id {
            return None;
        }
        match &self.role {
            Role::Leader { next_index, .. } => {
                proof { assert(next_index@.len() == next_index.len()); }
                let prev = next_index[peer as usize] - 1;
                Some(
                    AppendEntriesArgs {
                        term: self.current_term,
                        leader_id: self.id,
                        prev_log_index: prev,
                        prev_log_term: self.log.term_at(prev),
                        entries: self.log.suffix(prev),
                        leader_commit: self.commit_index,
                    },
                )
            },
            _ => None,
        }
    }

    /// Counts a replication reply from `from`. A higher term makes this node a follower of
    /// it. A leader of the reply's term records a success (never lowering the match index,
    /// and ignoring an index past its log) and then commits what it may; on a failure it
    /// moves the peer's next index back by one, not below 1.
    pub fn handle_append_reply(&mut self, from: u64, reply: &AppendEntriesReply)
        requires
            old(self).wf(),
        ensures
            final(self).wf(),
            reply.term > old(self).current_term ==> final(self).current_term == reply.term
                && final(self).is_follower() && final(self).voted_for == None::<u64>
                && final(self).commit_index == old(self).commit_index,
            !(old(self).leads() && reply.term == old(self).current_term && from
                < old(self).cluster_size && from != old(self).id) && reply.term
                <= old(self).current_term ==> *final(self) == *old(self),
            old(self).leads() && reply.term == old(self).current_term && from
                < old(self).cluster_size && from != old(self).id ==> {
                let f = from as int;
                let m = old(self).match_of()[f];
                let nx = old(self).next_of()[f];
                &&& final(self).leads()
                &&& (Node { commit_index: old(self).commit_index, role: Role::Follower, ..*final(self) })
                    == (Node { role: Role::Follower, ..*old(self) })
                &&& (reply.success && reply.match_index <= old(self).log@.len()) ==> {
                    let m2 = if reply.match_index > m { reply.match_index } else { m };
                    &&& final(self).match_of() == old(self).match_of().update(f, m2)
                    &&& final(self).next_of() == old(self).next_of().update(f, (m2 + 1) as u64)
                    &&& commit_advanced(
                        old(self).log@,
                        old(self).current_term as int,
                        old(self).id as int,
                        old(self).cluster_size as int,
                        final(self).match_of(),
                        old(self).commit_index as int,
                        final(self).commit_index as int,
                    )
                }
                &&& (reply.success && reply.match_index > old(self).log@.len()) ==> *final(self)
                    == *old(self)
                &&& !reply.success ==> {
                    &&& final(self).match_of() == old(self).match_of()
                    &&& final(self).next_of() == old(self).next_of().update(
                        f,
                        if nx > 1 { (nx - 1) as u64 } else { nx },
                    )
                    &&& final(self).commit_index == old(self).commit_index
                }
            },
    {
        if reply.term > self.current_term {
            self.step_down(reply.term);
            return;
        }
        if reply.term != self.current_term || from >= self.cluster_size || from == self.id {
            return;
        }
        if reply.success && reply.match_index > self.log.last_index() {
            return;
        }
        let mut role = Role::Follower;
        core::mem::swap(&mut self.role, &mut role);
        match role {
            Role::Leader { mut next_index, mut match_index } => {
                let f = from as usize;
                proof { assert(next_index@.len() == next_index.len()); }
                if reply.success {
                    let m = match_index[f];
                    let m2 = if reply.match_index > m { reply.match_index } else { m };
                    match_index.set(f, m2);
                    next_index.set(f, m2 + 1);
                } else {
                    let nx = next_index[f];
                    if nx > 1 {
                        next_index.set(f, nx - 1);
                    }
                }
                self.role = Role::Leader { next_index, match_index };
                if reply.success {
                    self.advance_commit_index();
                }
            },
            other => {
                self.role = other;
            },
        }
    }

    /// A leader appends a write to its log in its current term and commits what it may;
    /// the result is the new entry's index. Any other node refuses with the leader it knows.
    pub fn propose(&mut self, command: KvCommand) -> (r: Result<u64, RaftError>)
        requires
            old(self).wf(),
            old(self).log@.len() + 2 < u64::MAX,
        ensures
            final(self).wf(),
            r is Ok <==> old(self).leads(),
            r matches Err(e) ==> e == (RaftError::NotLeader { leader_hint: old(self).leader_hint })
                && *final(self) == *old(self),
            r matches Ok(i) ==> {
                let entry = (LogEntry { index: i, term: old(self).current_term, command });
                &&& i == old(self).log@.len() + 1
                &&& final(self).log@ == old(self).log@.push(entry)
                &&& same_but_log_and_commit(*final(self), *old(self))
                &&& commit_advanced(
                    final(self).log@,
                    old(self).current_term as int,
                    old(self).id as int,
                    old(self).cluster_size as int,
                    old(self).match_of(),
                    old(self).commit_index as int,
                    final(self).commit_index as int,
                )
            },
    {
        if let Role::Leader { .. } = self.role {
            let ghost before = self.log@;
            let i = self.log.append(self.current_term, command);
            proof {
                let la = self.last_applied as int;
                assert(self.log@.subrange(0, la) =~= before.subrange(0, la));
                assert forall|k: Seq<char>| #[trigger] self.store.value_of(k) == applied_value(
                    self.log@,
                    la,
                    k,
                ) by {
                    lemma_same_prefix_same_state(before, self.log@, la, k);
                }
            }
            self.advance_commit_index();
            Ok(i)
        } else {
            Err(RaftError::NotLeader { leader_hint: self.leader_hint })
        }
    }

    /// Applies the committed entries not yet applied, one at a time in index order; the
    /// result is the new applied index, which equals the commit index.
    pub fn apply_committed(&mut self) -> (r: u64)
        requires
            old(self).wf(),
        ensures
            final(self).wf(),
            r == final(self).last_applied,
            final(self).last_applied == old(self).commit_index,
            *final(self) == (Node { last_applied: r, store: final(self).store, ..*old(self) }),
            forall|k: Seq<char>|
                #[trigger] final(self).store.value_of(k) == applied_value(
                    old(self).log@,
                    old(self).commit_index as int,
                    k,
                ),
    {
        while self.last_applied < self.commit_index
            invariant
                self.wf(),
                *self == (Node { last_applied: self.last_applied, store: self.store, ..*old(self) }),
            decreases self.commit_index - self.last_applied,
        {
            proof { assert(self.log.entries@.len() == self.log.entries.len()); }
            let pos = self.last_applied as usize;
            let ghost s0 = self.store;
            self.store.apply(&self.log.entries[pos].command);
            self.last_applied = self.last_applied + 1;
            assert forall|k: Seq<char>| #[trigger] self.store.value_of(k) == applied_value(
                self.log@,
                self.last_applied as int,
                k,
            ) by {
                assert(s0.value_of(k) == applied_value(self.log@, self.last_applied - 1, k));
            }
        }
        self.last_applied
    }

    /// The value of `key` in this node's state machine.
    pub fn read(&self, key: &String) -> (r: Option<String>)
        requires
            self.wf(),
        ensures
            opt_view(r) == applied_value(self.log@, self.last_applied as int, key@),
    {
        self.store.get(key)
    }

    /// Whether this node currently believes itself leader.
    pub fn is_leader(&self) -> (r: bool)
        ensures
            r == self.leads(),
    {
        if let Role::Leader { .. } = self.role {
            true
        } else {
            false
        }
    }
}

} // verus!
