use vstd::prelude::*;
use crate::entry::{KvCommand, LogEntry};

verus! {

/// The characters of an optional string.
pub open spec fn opt_view(v: Option<String>) -> Option<Seq<char>> {
    match v {
        Some(s) => Some(s@),
        None => None,
    }
}

/// Value of `key` once the first `n` entries of `log` are applied in index order:
/// the last command on that key decides, and a tombstone or no command gives `None`.
pub open spec fn applied_value(log: Seq<LogEntry>, n: int, key: Seq<char>) -> Option<Seq<char>>
    decreases n,
{
    if n <= 0 || n > log.len() {
        None
    } else if log[n - 1].command.key@ == key {
        opt_view(log[n - 1].command.value)
    } else {
        applied_value(log, n - 1, key)
    }
}

/// Two logs that agree on their first `n` entries give every key the same value once
/// those entries are applied.
pub proof fn lemma_same_prefix_same_state(a: Seq<LogEntry>, b: Seq<LogEntry>, n: int, key: Seq<char>)
    requires
        0 <= n <= a.len(),
        n <= b.len(),
        a.subrange(0, n) == b.subrange(0, n),
    ensures
        applied_value(a, n, key) == applied_value(b, n, key),
    decreases n,
{
    if n > 0 {
        assert(a[n - 1] == a.subrange(0, n)[n - 1]);
        assert(b[n - 1] == b.subrange(0, n)[n - 1]);
        assert(a.subrange(0, n - 1) =~= a.subrange(0, n).subrange(0, n - 1));
        assert(b.subrange(0, n - 1) =~= b.subrange(0, n).subrange(0, n - 1));
        lemma_same_prefix_same_state(a, b, n - 1, key);
    }
}

/// The key-value map that committed log entries are applied to.
pub struct KvStore {
    pub pairs: Vec<(String, Option<String>)>,
}

impl KvStore {
    pub open spec fn wf(&self) -> bool {
        forall|i: int, j: int|
            0 <= i < self.pairs@.len() && 0 <= j < self.pairs@.len() && (#[trigger] self.pairs@[i]).0@
                == (#[trigger] self.pairs@[j]).0@ ==> i == j
    }

    pub open spec fn has_key(&self, key: Seq<char>) -> bool {
        exists|i: int| 0 <= i < self.pairs@.len() && (#[trigger] self.pairs@[i]).0@ == key
    }

    /// What the map holds for `key`: `None` for a key never written or deleted.
    pub open spec fn value_of(&self, key: Seq<char>) -> Option<Seq<char>> {
        if self.has_key(key) {
            let i = choose|i: int| 0 <= i < self.pairs@.len() && (#[trigger] self.pairs@[i]).0@ == key;
            opt_view(self.pairs@[i].1)
        } else {
            None
        }
    }

    pub fn new() -> (r: KvStore)
        ensures
            r.wf(),
            forall|k: Seq<char>| r.value_of(k) == None::<Seq<char>>,
    {
        KvStore { pairs: Vec::new() }
    }

    fn find(&self, key: &String) -> (r: Option<usize>)
        requires
            self.wf(),
        ensures
            r matches Some(i) ==> i < self.pairs@.len() && self.pairs@[i as int].0@ == key@,
            r is None ==> !self.has_key(key@),
    {
        let mut i: usize = 0;
        while i < self.pairs.len()
            invariant
                i <= self.pairs@.len(),
                forall|j: int| 0 <= j < i ==> (#[trigger] self.pairs@[j]).0@ != key@,
            decreases self.pairs@.len() - i,
        {
            if self.pairs[i].0 == *key {
                return Some(i);
            }
            i = i + 1;
        }
        None
    }

    /// The value stored under `key`.
    pub fn get(&self, key: &String) -> (r: Option<String>)
        requires
            self.wf(),
        ensures
            opt_view(r) == self.value_of(key@),
    {
        match self.find(key) {
            Some(i) => {
                match &self.pairs[i].1 {
                    Some(v) => Some(v.clone()),
                    None => None,
                }
            },
            None => None,
        }
    }

    /// Applies one command: the key takes the command's value, or is deleted by a tombstone.
    pub fn apply(&mut self, cmd: &KvCommand)
        requires
            old(self).wf(),
        ensures
            final(self).wf(),
            forall|k: Seq<char>|
                #[trigger] final(self).value_of(k) == if k == cmd.key@ {
                    opt_view(cmd.value)
                } else {
                    old(self).value_of(k)
                },
    {
        let value = match &cmd.value {
            Some(v) => Some(v.clone()),
            None => None,
        };
        match self.find(&cmd.key) {
            Some(i) => {
                let ghost before = self.pairs@;
                self.pairs.set(i, (cmd.key.clone(), value));
                assert forall|k: Seq<char>|
                    #[trigger] self.value_of(k) == if k == cmd.key@ {
                        opt_view(cmd.value)
                    } else {
                        old(self).value_of(k)
                    } by {
                    if k == cmd.key@ {
                        assert(self.pairs@[i as int].0@ == k);
                    } else if old(self).has_key(k) {
                        let j = choose|j: int| 0 <= j < before.len() && (#[trigger] before[j]).0@ == k;
                        assert(self.pairs@[j].0@ == k);
                    } else {
                        if self.has_key(k) {
                            let j = choose|j: int| 0 <= j < before.len() && (#[trigger] self.pairs@[j]).0@ == k;
                            assert(before[j].0@ == k);
                        }
                    }
                }
            },
            None => {
                let ghost before = self.pairs@;
                self.pairs.push((cmd.key.clone(), value));
                let ghost n = before.len() as int;
                assert forall|k: Seq<char>|
                    #[trigger] self.value_of(k) == if k == cmd.key@ {
                        opt_view(cmd.value)
                    } else {
                        old(self).value_of(k)
                    } by {
                    if k == cmd.key@ {
                        assert(self.pairs@[n].0@ == k);
                    } else if old(self).has_key(k) {
                        let j = choose|j: int| 0 <= j < before.len() && (#[trigger] before[j]).0@ == k;
                        assert(self.pairs@[j].0@ == k);
                    } else {
                        if self.has_key(k) {
                            let j = choose|j: int| 0 <= j < self.pairs@.len() && (#[trigger] self.pairs@[j]).0@ == k;
                            assert(before[j].0@ == k);
                        }
                    }
                }
            },
        }
    }
}

} // verus!
