use vstd::prelude::*;
use crate::entry::LogEntry;

verus! {

/// Each entry of `log` carries its own 1-based position as its index.
pub open spec fn indexed_from(log: Seq<LogEntry>, first: int) -> bool {
    forall|i: int| 0 <= i < log.len() ==> (#[trigger] log[i]).index == first + i
}

/// Term of the entry at 1-based `index`; index 0 (before the first entry) has term 0.
pub open spec fn term_at(log: Seq<LogEntry>, index: int) -> int {
    if 1 <= index <= log.len() {
        log[index - 1].term as int
    } else {
        0
    }
}

/// The log holds an entry at `prev_index` with term `prev_term` (index 0 always matches).
pub open spec fn has_entry(log: Seq<LogEntry>, prev_index: int, prev_term: int) -> bool {
    prev_index == 0 || (1 <= prev_index <= log.len() && log[prev_index - 1].term == prev_term)
}

/// Number of leading `entries` that agree in term with the log entries from position `at`.
pub open spec fn agree_len(log: Seq<LogEntry>, at: int, entries: Seq<LogEntry>) -> nat
    decreases entries.len(),
{
    if entries.len() == 0 {
        0
    } else if 0 <= at < log.len() && log[at].term == entries[0].term {
        1 + agree_len(log, at + 1, entries.drop_first())
    } else {
        0
    }
}

/// Whether placing `entries` after position `at` meets a conflicting entry that must go.
pub open spec fn conflicts(log: Seq<LogEntry>, at: int, entries: Seq<LogEntry>) -> bool {
    let j = agree_len(log, at, entries) as int;
    j < entries.len() && at + j < log.len()
}

/// The log after `entries` are placed after position `at`: entries that already agree in
/// term are kept, and from the first one that does not, the suffix is replaced.
pub open spec fn merged(log: Seq<LogEntry>, at: int, entries: Seq<LogEntry>) -> Seq<LogEntry> {
    let j = agree_len(log, at, entries) as int;
    if j == entries.len() {
        log
    } else {
        log.subrange(0, at + j) + entries.subrange(j, entries.len() as int)
    }
}

/// Agreement never runs past the entries, nor past the log.
pub proof fn lemma_agree_len_bound(log: Seq<LogEntry>, at: int, entries: Seq<LogEntry>)
    ensures
        agree_len(log, at, entries) <= entries.len(),
        0 <= at && agree_len(log, at, entries) > 0 ==> at + agree_len(log, at, entries) <= log.len(),
    decreases entries.len(),
{
    if entries.len() > 0 && 0 <= at < log.len() && log[at].term == entries[0].term {
        lemma_agree_len_bound(log, at + 1, entries.drop_first());
    }
}

/// Skipping `k` agreeing entries leaves the agreement count reduced by `k`.
proof fn lemma_agree_len_skip(log: Seq<LogEntry>, at: int, entries: Seq<LogEntry>, k: int)
    requires
        0 <= k < entries.len(),
        at + k < log.len(),
        0 <= at,
        log[at + k].term == entries[k].term,
        agree_len(log, at, entries) == k + agree_len(log, at + k, entries.skip(k)),
    ensures
        agree_len(log, at, entries) == k + 1 + agree_len(log, at + k + 1, entries.skip(k + 1)),
{
    assert(entries.skip(k).drop_first() =~= entries.skip(k + 1));
}

/// Entries at and after position `at` agree in term one by one, as far as `agree_len` says.
pub proof fn lemma_agree_terms(log: Seq<LogEntry>, at: int, entries: Seq<LogEntry>, i: int)
    requires
        0 <= i < agree_len(log, at, entries),
    ensures
        0 <= at + i < log.len(),
        i < entries.len(),
        log[at + i].term == entries[i].term,
    decreases entries.len(),
{
    lemma_agree_len_bound(log, at, entries);
    if i > 0 {
        lemma_agree_terms(log, at + 1, entries.drop_first(), i - 1);
        assert(entries.drop_first()[i - 1] == entries[i]);
    }
}

/// An append-only, index-addressed sequence of log entries.
pub struct RaftLog {
    pub entries: Vec<LogEntry>,
}

impl View for RaftLog {
    type V = Seq<LogEntry>;

    open spec fn view(&self) -> Seq<LogEntry> {
        self.entries@
    }
}

impl RaftLog {
    pub open spec fn wf(&self) -> bool {
        &&& indexed_from(self.entries@, 1)
        &&& self.entries@.len() < u64::MAX
    }

    pub fn new() -> (r: RaftLog)
        ensures
            r.wf(),
            r@.len() == 0,
    {
        RaftLog { entries: Vec::new() }
    }

    /// Index of the last entry, 0 for an empty log.
    pub fn last_index(&self) -> (r: u64)
        requires
            self.wf(),
        ensures
            r == self@.len(),
    {
        self.entries.len() as u64
    }

    /// Term of the last entry, 0 for an empty log.
    pub fn last_term(&self) -> (r: u64)
        requires
            self.wf(),
        ensures
            r == term_at(self@, self@.len() as int),
    {
        let n = self.entries.len();
        if n == 0 {
            0
        } else {
            self.entries[n - 1].term
        }
    }

    /// Term of the entry at `index`, 0 where there is none.
    pub fn term_at(&self, index: u64) -> (r: u64)
        requires
            self.wf(),
        ensures
            r == term_at(self@, index as int),
    {
        if index >= 1 && index <= self.entries.len() as u64 {
            self.entries[(index - 1) as usize].term
        } else {
            0
        }
    }

    /// Whether the log holds an entry at `prev_index` created in `prev_term`.
    pub fn has_entry(&self, prev_index: u64, prev_term: u64) -> (r: bool)
        requires
            self.wf(),
        ensures
            r == has_entry(self@, prev_index as int, prev_term as int),
    {
        prev_index == 0 || (prev_index <= self.entries.len() as u64
            && self.entries[(prev_index - 1) as usize].term == prev_term)
    }

    /// Appends one new entry at the end, stamped with the next index.
    pub fn append(&mut self, term: u64, command: crate::entry::KvCommand) -> (r: u64)
        requires
            old(self).wf(),
            old(self)@.len() + 1 < u64::MAX,
        ensures
            final(self).wf(),
            r == old(self)@.len() + 1,
            final(self)@ == old(self)@.push(LogEntry { index: r, term, command }),
    {
        let index = self.entries.len() as u64 + 1;
        self.entries.push(LogEntry { index, term, command });
        index
    }

    /// Copies of the entries from `from` (a 0-based position) to the end.
    pub fn suffix(&self, from: u64) -> (r: Vec<LogEntry>)
        requires
            self.wf(),
            from <= self@.len(),
        ensures
            r@ == self@.subrange(from as int, self@.len() as int),
    {
        proof {
            assert(self.entries@.len() == self.entries.len());
        }
        let mut out: Vec<LogEntry> = Vec::new();
        let mut i: usize = from as usize;
        while i < self.entries.len()
            invariant
                from <= i <= self.entries@.len(),
                out@ == self.entries@.subrange(from as int, i as int),
            decreases self.entries@.len() - i,
        {
            out.push(self.entries[i].duplicate());
            i = i + 1;
            assert(out@ =~= self.entries@.subrange(from as int, i as int));
        }
        out
    }

    /// Number of leading `entries` that agree in term with this log from position `at`.
    pub fn agree_len(&self, at: u64, entries: &Vec<LogEntry>) -> (r: u64)
        requires
            self.wf(),
            at <= self@.len(),
        ensures
            r == agree_len(self@, at as int, entries@),
            r <= entries@.len(),
            at + r <= self@.len(),
    {
        let n = self.entries.len();
        let a: usize = at as usize;
        let mut j: usize = 0;
        proof {
            assert(entries@.skip(0) =~= entries@);
        }
        while j < entries.len() && a + j < n && self.entries[a + j].term == entries[j].term
            invariant
                self.wf(),
                at <= self@.len(),
                a == at,
                n == self@.len(),
                0 <= j <= entries@.len(),
                at + j <= self@.len(),
                agree_len(self@, at as int, entries@) == j + agree_len(
                    self@,
                    at + j,
                    entries@.skip(j as int),
                ),
            decreases entries@.len() - j,
        {
            proof {
                lemma_agree_len_skip(self@, at as int, entries@, j as int);
            }
            j = j + 1;
        }
        proof {
            let rest = entries@.skip(j as int);
            if j < entries@.len() {
                assert(rest[0] == entries@[j as int]);
            }
            assert(agree_len(self@, at + j, rest) == 0);
        }
        j as u64
    }

    /// Places `entries` after position `at`: agreeing entries are kept and, from the first
    /// one that does not agree, the old suffix is dropped and the rest appended.
    pub fn merge(&mut self, at: u64, entries: &Vec<LogEntry>)
        requires
            old(self).wf(),
            at <= old(self)@.len(),
            indexed_from(entries@, at + 1),
            at + entries@.len() < u64::MAX,
        ensures
            final(self).wf(),
            final(self)@ == merged(old(self)@, at as int, entries@),
    {
        let j = self.agree_len(at, entries);
        if j < entries.len() as u64 {
            self.entries.truncate((at + j) as usize);
            let mut k: usize = j as usize;
            while k < entries.len()
                invariant
                    j <= k <= entries@.len(),
                    at + entries@.len() < u64::MAX,
                    indexed_from(entries@, at + 1),
                    self.entries@ == old(self)@.subrange(0, at + j) + entries@.subrange(
                        j as int,
                        k as int,
                    ),
                    old(self).wf(),
                    at + j <= old(self)@.len(),
                decreases entries@.len() - k,
            {
                self.entries.push(entries[k].duplicate());
                k = k + 1;
                assert(self.entries@ =~= old(self)@.subrange(0, at + j) + entries@.subrange(
                    j as int,
                    k as int,
                ));
            }
            assert(entries@.subrange(j as int, k as int) =~= entries@.subrange(
                j as int,
                entries@.len() as int,
            ));
            assert(indexed_from(self.entries@, 1)) by {
                assert forall|i: int| 0 <= i < self.entries@.len() implies (
                #[trigger] self.entries@[i]).index == 1 + i by {
                    if i >= at + j {
                        assert(self.entries@[i] == entries@[i - at]);
                    }
                }
            }
        }
    }
}

} // verus!
