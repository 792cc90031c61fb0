use vstd::prelude::*;
use crate::address::Address;
use crate::bytes::Bytes;

verus! {

/// One event emitted during execution: the emitting address, up to four
/// indexed topics, and the raw data bytes.
#[derive(Debug, Clone, PartialEq, Eq)]
pub struct EventLog {
    pub address: Address,
    pub topics: Vec<crate::hash::Hash>,
    pub data: Bytes,
}

impl EventLog {
    /// Create a log entry.
    pub fn new(address: Address, topics: Vec<crate::hash::Hash>, data: Bytes) -> (r: EventLog)
        ensures
            r.address == address,
            r.topics == topics,
            r.data == data,
    {
        EventLog { address, topics, data }
    }
}

/// Two log lists that agree entry by entry on address, topics and data.
pub open spec fn logs_match(a: Seq<EventLog>, b: Seq<EventLog>) -> bool {
    &&& a.len() == b.len()
    &&& forall|i: int|
        0 <= i < a.len() ==> (#[trigger] a[i]).address == b[i].address && a[i].topics@
            == b[i].topics@ && a[i].data@ == b[i].data@
}

impl EventLog {
    /// A copy of this entry with the same address, topics and data.
    pub fn duplicate(&self) -> (r: EventLog)
        ensures
            r.address == self.address,
            r.topics@ == self.topics@,
            r.data@ == self.data@,
    {
        let mut topics: Vec<crate::hash::Hash> = Vec::new();
        let n = self.topics.len();
        let mut i: usize = 0;
        while i < n
            invariant
                i <= n,
                n == self.topics@.len(),
                topics@ =~= self.topics@.subrange(0, i as int),
            decreases n - i,
        {
            topics.push(self.topics[i]);
            i += 1;
        }
        proof {
            assert(topics@ =~= self.topics@);
        }
        EventLog { address: self.address, topics, data: Bytes(self.data.0.clone()) }
    }
}

/// The append-only list of logs gathered while a frame runs.
pub struct EventLogger {
    logs: Vec<EventLog>,
}

impl View for EventLogger {
    type V = Seq<EventLog>;

    closed spec fn view(&self) -> Seq<EventLog> {
        self.logs@
    }
}

/// The logs in s emitted by the given address, in order.
pub open spec fn logs_matching_address(s: Seq<EventLog>, addr: Seq<u8>) -> Seq<EventLog>
    decreases s.len(),
{
    if s.len() == 0 {
        Seq::empty()
    } else {
        let rest = logs_matching_address(s.drop_last(), addr);
        if s.last().address@ == addr {
            rest.push(s.last())
        } else {
            rest
        }
    }
}

/// Whether a log entry carries the given topic bytes.
pub open spec fn log_has_topic(log: EventLog, t: Seq<u8>) -> bool {
    exists|i: int| 0 <= i < log.topics@.len() && log.topics@[i]@ == t
}

/// The logs in s that carry the given topic, in order.
pub open spec fn logs_matching_topic(s: Seq<EventLog>, t: Seq<u8>) -> Seq<EventLog>
    decreases s.len(),
{
    if s.len() == 0 {
        Seq::empty()
    } else {
        let rest = logs_matching_topic(s.drop_last(), t);
        if log_has_topic(s.last(), t) {
            rest.push(s.last())
        } else {
            rest
        }
    }
}

impl EventLogger {
    /// Create an empty logger.
    pub fn new() -> (r: EventLogger)
        ensures
            r@.len() == 0,
    {
        EventLogger { logs: Vec::new() }
    }

    /// Append one event; nothing is ever removed.
    pub fn log(&mut self, address: Address, topics: Vec<crate::hash::Hash>, data: Bytes)
        ensures
            final(self)@ == old(self)@.push(EventLog { address, topics, data }),
    {
        self.logs.push(EventLog { address, topics, data });
    }

    /// All logs, in the order they were appended.
    pub fn logs(&self) -> (r: &[EventLog])
        ensures
            r@ == self@,
    {
        self.logs.as_slice()
    }

    /// Forget every log.
    pub fn clear(&mut self)
        ensures
            final(self)@.len() == 0,
    {
        self.logs.clear();
    }

    /// The number of logs held.
    pub fn count(&self) -> (r: usize)
        ensures
            r == self@.len(),
    {
        self.logs.len()
    }

    /// The logs emitted by one address, in order.
    pub fn logs_for_address(&self, address: &Address) -> (r: Vec<&EventLog>)
        ensures
            ({
                let flt = logs_matching_address(self@, address@);
                r@.len() == flt.len() && forall|i: int| 0 <= i < r@.len() ==> *(r@[i]) == flt[i]
            }),
    {
        let mut out: Vec<&EventLog> = Vec::new();
        let n = self.logs.len();
        let mut i: usize = 0;
        while i < n
            invariant
                i <= n,
                n == self@.len(),
                ({
                    let flt = logs_matching_address(self@.subrange(0, i as int), address@);
                    out@.len() == flt.len() && forall|j: int|
                        0 <= j < out@.len() ==> *(out@[j]) == flt[j]
                }),
            decreases n - i,
        {
            proof {
                assert(self@.subrange(0, i + 1).drop_last() =~= self@.subrange(0, i as int));
                assert(self@.subrange(0, i + 1).last() == self@[i as int]);
            }
            let entry = &self.logs[i];
            if entry.address == *address {
                out.push(entry);
            }
            i += 1;
        }
        proof {
            assert(self@.subrange(0, n as int) =~= self@);
        }
        out
    }

    /// The logs that carry the given topic, in order.
    pub fn logs_with_topic(&self, topic: &crate::hash::Hash) -> (r: Vec<&EventLog>)
        ensures
            ({
                let flt = logs_matching_topic(self@, topic@);
                r@.len() == flt.len() && forall|i: int| 0 <= i < r@.len() ==> *(r@[i]) == flt[i]
            }),
    {
        let mut out: Vec<&EventLog> = Vec::new();
        let n = self.logs.len();
        let mut i: usize = 0;
        while i < n
            invariant
                i <= n,
                n == self@.len(),
                ({
                    let flt = logs_matching_topic(self@.subrange(0, i as int), topic@);
                    out@.len() == flt.len() && forall|j: int|
                        0 <= j < out@.len() ==> *(out@[j]) == flt[j]
                }),
            decreases n - i,
        {
            proof {
                assert(self@.subrange(0, i + 1).drop_last() =~= self@.subrange(0, i as int));
                assert(self@.subrange(0, i + 1).last() == self@[i as int]);
            }
            let entry = &self.logs[i];
            if has_topic(entry, topic) {
                out.push(entry);
            }
            i += 1;
        }
        proof {
            assert(self@.subrange(0, n as int) =~= self@);
        }
        out
    }
}

/// Whether a log entry carries the given topic.
fn has_topic(entry: &EventLog, topic: &crate::hash::Hash) -> (r: bool)
    ensures
        r == log_has_topic(*entry, topic@),
{
    let n = entry.topics.len();
    let mut i: usize = 0;
    while i < n
        invariant
            i <= n,
            n == entry.topics@.len(),
            forall|t: int| 0 <= t < i ==> entry.topics@[t]@ != topic@,
        decreases n - i,
    {
        if &entry.topics[i] == topic {
            return true;
        }
        i += 1;
    }
    false
}

/// The outcome of one frame together with the logs it emitted.
#[derive(Debug, Clone, PartialEq, Eq)]
pub struct LogReceipt {
    pub success: bool,
    pub gas_used: u64,
    pub gas_remaining: u64,
    pub return_data: Bytes,
    pub logs: Vec<EventLog>,
}

impl LogReceipt {
    /// Create a receipt.
    pub fn new(success: bool, gas_used: u64, gas_remaining: u64, return_data: Bytes, logs: Vec<
        EventLog,
    >) -> (r: LogReceipt)
        ensures
            r.success == success,
            r.gas_used == gas_used,
            r.gas_remaining == gas_remaining,
            r.return_data == return_data,
            r.logs == logs,
    {
        LogReceipt { success, gas_used, gas_remaining, return_data, logs }
    }
}

} // verus!
