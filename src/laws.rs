use vstd::prelude::*;
use crate::entry::LogEntry;
use crate::node::{count_true, is_majority};
use crate::raft_log::{agree_len, has_entry, lemma_agree_terms, merged, term_at};
use crate::message::AppendEntriesArgs;
use crate::node::{accepts_append, Node};
use crate::router::Gateway;
use crate::store::lemma_same_prefix_same_state;

verus! {

/// Number of voters in `votes` whose vote went to `candidate`.
pub open spec fn count_for(votes: Seq<Option<u64>>, candidate: u64) -> nat
    decreases votes.len(),
{
    if votes.len() == 0 {
        0
    } else {
        count_for(votes.drop_last(), candidate) + if votes.last() == Some(candidate) {
            1nat
        } else {
            0nat
        }
    }
}

/// Two logs match: wherever both hold an entry of the same term, the entries up to and
/// including it are identical.
pub open spec fn log_matching(a: Seq<LogEntry>, b: Seq<LogEntry>) -> bool {
    forall|i: int|
        0 <= i < a.len() && i < b.len() && (#[trigger] a[i]).term == (#[trigger] b[i]).term ==> a.subrange(
            0,
            i + 1,
        ) == b.subrange(0, i + 1)
}

proof fn lemma_two_candidates_share_votes(votes: Seq<Option<u64>>, a: u64, b: u64)
    requires
        a != b,
    ensures
        count_for(votes, a) + count_for(votes, b) <= votes.len(),
    decreases votes.len(),
{
    if votes.len() > 0 {
        lemma_two_candidates_share_votes(votes.drop_last(), a, b);
    }
}

/// Election safety: `votes[i]` is the vote node `i` cast in one term (a node votes at most
/// once per term). Two candidates that both hold a majority of those votes are the same
/// candidate, so at most one node becomes leader in the term.
pub proof fn lemma_election_safety(votes: Seq<Option<u64>>, a: u64, b: u64)
    requires
        is_majority(count_for(votes, a) as int, votes.len() as int),
        is_majority(count_for(votes, b) as int, votes.len() as int),
    ensures
        a == b,
{
    if a != b {
        lemma_two_candidates_share_votes(votes, a, b);
    }
}

proof fn lemma_recorded_votes_were_cast(ballots: Seq<Option<u64>>, votes: Seq<bool>, c: u64)
    requires
        votes.len() == ballots.len(),
        forall|i: int| 0 <= i < votes.len() && #[trigger] votes[i] ==> ballots[i] == Some(c),
    ensures
        count_true(votes) <= count_for(ballots, c),
    decreases votes.len(),
{
    if votes.len() > 0 {
        let (v2, b2) = (votes.drop_last(), ballots.drop_last());
        assert forall|i: int| 0 <= i < v2.len() && #[trigger] v2[i] implies b2[i] == Some(c) by {
            assert(v2[i] == votes[i] && b2[i] == ballots[i]);
        }
        lemma_recorded_votes_were_cast(b2, v2, c);
    }
}

/// At most one leader per term, stated over what candidates record: `ballots[i]` is the one
/// vote node `i` cast in a term, and `votes_a`, `votes_b` are the vote vectors two
/// candidates of that term hold (each flag set only for a node that voted for it). If both
/// hold a majority, which `handle_vote_reply` requires before a candidate leads, they are
/// the same node.
pub proof fn lemma_one_leader_per_term(
    ballots: Seq<Option<u64>>,
    votes_a: Seq<bool>,
    a: u64,
    votes_b: Seq<bool>,
    b: u64,
)
    requires
        votes_a.len() == ballots.len(),
        votes_b.len() == ballots.len(),
        forall|i: int| 0 <= i < votes_a.len() && #[trigger] votes_a[i] ==> ballots[i] == Some(a),
        forall|i: int| 0 <= i < votes_b.len() && #[trigger] votes_b[i] ==> ballots[i] == Some(b),
        is_majority(count_true(votes_a) as int, ballots.len() as int),
        is_majority(count_true(votes_b) as int, ballots.len() as int),
    ensures
        a == b,
{
    lemma_recorded_votes_were_cast(ballots, votes_a, a);
    lemma_recorded_votes_were_cast(ballots, votes_b, b);
    lemma_election_safety(ballots, a, b);
}

proof fn lemma_disjoint_counts(a: Seq<bool>, b: Seq<bool>)
    requires
        a.len() == b.len(),
        forall|i: int| 0 <= i < a.len() ==> !(#[trigger] a[i] && b[i]),
    ensures
        count_true(a) + count_true(b) <= a.len(),
    decreases a.len(),
{
    if a.len() > 0 {
        let (a2, b2) = (a.drop_last(), b.drop_last());
        assert forall|i: int| 0 <= i < a2.len() implies !(#[trigger] a2[i] && b2[i]) by {
            assert(a2[i] == a[i] && b2[i] == b[i]);
        }
        lemma_disjoint_counts(a2, b2);
        assert(!(a[a.len() - 1] && b[a.len() - 1]));
    }
}

/// Quorum intersection: any two majorities of the same cluster share a member. It is what
/// carries a committed entry (held by a majority) to every later leader (elected by a
/// majority).
pub proof fn lemma_quorums_intersect(a: Seq<bool>, b: Seq<bool>)
    requires
        a.len() == b.len(),
        is_majority(count_true(a) as int, a.len() as int),
        is_majority(count_true(b) as int, b.len() as int),
    ensures
        exists|i: int| 0 <= i < a.len() && #[trigger] a[i] && b[i],
{
    if !(exists|i: int| 0 <= i < a.len() && #[trigger] a[i] && b[i]) {
        lemma_disjoint_counts(a, b);
    }
}

/// Log matching is kept by replication: when a follower whose log matches the leader's
/// accepts the leader's entries after `prev` (it holds the leader's entry at `prev`), its
/// new log starts with the whole leader log and still matches it.
pub proof fn lemma_append_keeps_log_matching(leader: Seq<LogEntry>, follower: Seq<LogEntry>, prev: int)
    requires
        log_matching(leader, follower),
        0 <= prev <= leader.len(),
        prev <= follower.len(),
        has_entry(follower, prev, term_at(leader, prev)),
    ensures
        ({
            let m = merged(follower, prev, leader.subrange(prev, leader.len() as int));
            &&& leader.len() <= m.len()
            &&& m.subrange(0, leader.len() as int) == leader
            &&& log_matching(leader, m)
        }),
{
    let e = leader.subrange(prev, leader.len() as int);
    let j = agree_len(follower, prev, e) as int;
    let p = prev + j;
    if j > 0 {
        lemma_agree_terms(follower, prev, e, j - 1);
        assert(leader[p - 1] == e[j - 1]);
    }
    assert(p <= follower.len());
    if p > 0 {
        assert(leader[p - 1].term == follower[p - 1].term);
        assert(leader.subrange(0, p) == follower.subrange(0, p));
    } else {
        assert(leader.subrange(0, p) =~= follower.subrange(0, p));
    }
    let m = merged(follower, prev, e);
    if j == e.len() {
        assert(p == leader.len());
        assert(m.subrange(0, leader.len() as int) =~= leader);
    } else {
        assert(m =~= leader);
        assert forall|i: int|
            0 <= i < leader.len() && i < m.len() && (#[trigger] leader[i]).term == (#[trigger] m[i]).term
            implies leader.subrange(0, i + 1) == m.subrange(0, i + 1) by {}
    }
}

/// A node the gateway admits for `client`'s reads: its applied watermark reaches the
/// client's last acknowledged write.
pub open spec fn admits(g: Gateway, client: u64, node: u64) -> bool {
    node < g.cluster_size && g.applied@[node as int] >= g.sessions.write_ts(client)
}

/// Read-your-writes: once a write of `client` is acknowledged at logical time `ts`, a node
/// `m` the gateway admits for that client's reads has applied at least `ts`, where the
/// watermark the gateway holds for it is one that `m` reported (it never exceeds
/// `m.last_applied`, which only grows).
pub proof fn lemma_read_your_writes(g: Gateway, client: u64, ts: u64, node: u64, m: Node)
    requires
        g.wf(),
        g.sessions.write_ts(client) >= ts,
        admits(g, client, node),
        g.applied@[node as int] <= m.last_applied,
    ensures
        m.last_applied >= ts,
{
}

/// A request whose previous index lies past the end of a node's log is refused, whatever
/// else it carries: no gap is ever appended.
pub proof fn lemma_gap_is_refused(n: Node, args: AppendEntriesArgs)
    requires
        args.prev_log_index > n.log@.len(),
    ensures
        !accepts_append(n, args),
{
}

/// Two nodes that applied the same entries at indices `1..=last_applied` hold the same
/// value for every key: what a node serves depends only on the commands it applied.
pub proof fn lemma_same_applied_prefix_same_reads(m1: Node, m2: Node, key: Seq<char>)
    requires
        m1.wf(),
        m2.wf(),
        m1.last_applied == m2.last_applied,
        m1.log@.subrange(0, m1.last_applied as int) == m2.log@.subrange(0, m2.last_applied as int),
    ensures
        m1.store.value_of(key) == m2.store.value_of(key),
{
    lemma_same_prefix_same_state(m1.log@, m2.log@, m1.last_applied as int, key);
}

} // verus!
