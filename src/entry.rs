use vstd::prelude::*;

verus! {

/// A state-machine mutation: set `key` to `value`, or delete it when `value` is `None`
/// (a tombstone).
pub struct KvCommand {
    pub key: String,
    pub value: Option<String>,
}

/// One entry of a node's replicated log.
pub struct LogEntry {
    /// 1-based position of the entry in the log.
    pub index: u64,
    /// Term of the leader that created the entry.
    pub term: u64,
    pub command: KvCommand,
}

/// A gateway write request: set `key` to `value`.
pub struct KeyValue {
    pub key: String,
    pub value: String,
}

impl KeyValue {
    /// The log command that carries this write.
    pub fn to_command(&self) -> (r: KvCommand)
        ensures
            r.key@ == self.key@,
            r.value matches Some(v) && v@ == self.value@,
    {
        KvCommand { key: self.key.clone(), value: Some(self.value.clone()) }
    }
}

fn copy_opt_string(v: &Option<String>) -> (r: Option<String>)
    ensures
        r == *v,
{
    match v {
        Some(s) => Some(s.clone()),
        None => None,
    }
}

impl KvCommand {
    pub fn duplicate(&self) -> (r: KvCommand)
        ensures
            r == *self,
    {
        KvCommand { key: self.key.clone(), value: copy_opt_string(&self.value) }
    }
}

impl LogEntry {
    pub fn duplicate(&self) -> (r: LogEntry)
        ensures
            r == *self,
    {
        LogEntry { index: self.index, term: self.term, command: self.command.duplicate() }
    }
}

} // verus!
