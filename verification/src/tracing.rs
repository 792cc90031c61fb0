use vstd::prelude::*;
use crate::uint256::Uint256;
use crate::opcodes::Opcode;

verus! {

/// One recorded step: the program counter, the opcode, the stack before and
/// after, the byte and slot deltas, the gas drawn and the gas left.
pub struct ExecutionStep {
    pub pc: usize,
    pub opcode: Opcode,
    pub stack_before: Vec<Uint256>,
    pub stack_after: Vec<Uint256>,
    pub memory_changes: Vec<(usize, u8)>,
    pub storage_changes: Vec<(Uint256, (Uint256, Uint256))>,
    pub gas_consumed: u64,
    pub gas_remaining: u64,
    pub depth: usize,
    pub error: Option<String>,
    pub metadata: Vec<(String, String)>,
}

impl ExecutionStep {
    /// Create a step record with no deltas yet.
    pub fn new(
        pc: usize,
        opcode: Opcode,
        stack_before: Vec<Uint256>,
        stack_after: Vec<Uint256>,
        gas_consumed: u64,
        gas_remaining: u64,
        depth: usize,
    ) -> (r: ExecutionStep)
        ensures
            r.pc == pc,
            r.opcode == opcode,
            r.stack_before == stack_before,
            r.stack_after == stack_after,
            r.memory_changes@.len() == 0,
            r.storage_changes@.len() == 0,
            r.gas_consumed == gas_consumed,
            r.gas_remaining == gas_remaining,
            r.depth == depth,
            r.error is None,
            r.metadata@.len() == 0,
    {
        ExecutionStep {
            pc,
            opcode,
            stack_before,
            stack_after,
            memory_changes: Vec::new(),
            storage_changes: Vec::new(),
            gas_consumed,
            gas_remaining,
            depth,
            error: None,
            metadata: Vec::new(),
        }
    }

    /// Record one changed memory byte.
    pub fn add_memory_change(&mut self, offset: usize, value: u8)
        ensures
            final(self).memory_changes@ == old(self).memory_changes@.push((offset, value)),
            *final(self) == (ExecutionStep {
                memory_changes: final(self).memory_changes,
                ..*old(self)
            }),
    {
        self.memory_changes.push((offset, value));
    }

    /// Record one changed storage slot with its old and new values.
    pub fn add_storage_change(&mut self, key: Uint256, old_value: Uint256, new_value: Uint256)
        ensures
            final(self).storage_changes@ == old(self).storage_changes@.push(
                (key, (old_value, new_value)),
            ),
            *final(self) == (ExecutionStep {
                storage_changes: final(self).storage_changes,
                ..*old(self)
            }),
    {
        self.storage_changes.push((key, (old_value, new_value)));
    }

    /// Mark the step failed.
    pub fn set_error(&mut self, error: String)
        ensures
            *final(self) == (ExecutionStep { error: Some(error), ..*old(self) }),
    {
        self.error = Some(error);
    }

    /// Attach one key and value of free-form metadata.
    pub fn add_metadata(&mut self, key: String, value: String)
        ensures
            final(self).metadata@ == old(self).metadata@.push((key, value)),
            *final(self) == (ExecutionStep { metadata: final(self).metadata, ..*old(self) }),
    {
        self.metadata.push((key, value));
    }

    /// How the stack depth moved over this step.
    pub fn stack_difference(&self) -> (r: i32)
        requires
            self.stack_before@.len() <= 1024,
            self.stack_after@.len() <= 1024,
        ensures
            r == self.stack_after@.len() - self.stack_before@.len(),
    {
        self.stack_after.len() as i32 - self.stack_before.len() as i32
    }

    /// Whether this step changed any storage slot.
    pub fn modified_storage(&self) -> (r: bool)
        ensures
            r == (self.storage_changes@.len() != 0),
    {
        self.storage_changes.len() != 0
    }

    /// Whether this step changed any memory byte.
    pub fn modified_memory(&self) -> (r: bool)
        ensures
            r == (self.memory_changes@.len() != 0),
    {
        self.memory_changes.len() != 0
    }
}

/// Counters over the memory writes that a trace saw.
pub struct MemoryStats {
    pub peak_size: usize,
    pub total_allocations: usize,
    pub total_writes: usize,
    pub allocation_points: Vec<usize>,
}

impl MemoryStats {
    /// Fresh counters.
    pub fn new() -> (r: MemoryStats)
        ensures
            r.peak_size == 0,
            r.total_allocations == 0,
            r.total_writes == 0,
            r.allocation_points@.len() == 0,
    {
        MemoryStats {
            peak_size: 0,
            total_allocations: 0,
            total_writes: 0,
            allocation_points: Vec::new(),
        }
    }

    /// Fold one step into the counters, saturating on overflow.
    pub fn update(&mut self, step: &ExecutionStep)
        ensures
            final(self).total_writes == if old(self).total_writes
                + step.memory_changes@.len() > usize::MAX {
                usize::MAX as int
            } else {
                old(self).total_writes + step.memory_changes@.len()
            },
    {
        if usize::MAX - self.total_writes >= step.memory_changes.len() {
            self.total_writes = self.total_writes + step.memory_changes.len();
        } else {
            self.total_writes = usize::MAX;
        }
        if step.memory_changes.len() != 0 {
            if self.total_allocations < usize::MAX {
                self.total_allocations = self.total_allocations + 1;
            }
            self.allocation_points.push(step.pc);
        }
    }

    /// Settle the counters: the peak estimate prices each write one word.
    pub fn finalize(&mut self)
        ensures
            final(self).peak_size == if old(self).total_writes * 32 > usize::MAX {
                usize::MAX as int
            } else {
                old(self).total_writes * 32
            },
    {
        if self.total_writes <= usize::MAX / 32 {
            self.peak_size = self.total_writes * 32;
        } else {
            self.peak_size = usize::MAX;
        }
    }
}

/// Counters over the storage accesses that a trace saw.
pub struct StorageStats {
    pub total_accesses: usize,
    pub unique_keys: usize,
    pub read_count: usize,
    pub write_count: usize,
    pub accessed_keys: Vec<Uint256>,
}

impl StorageStats {
    /// Fresh counters.
    pub fn new() -> (r: StorageStats)
        ensures
            r.total_accesses == 0,
            r.unique_keys == 0,
            r.read_count == 0,
            r.write_count == 0,
            r.accessed_keys@.len() == 0,
    {
        StorageStats {
            total_accesses: 0,
            unique_keys: 0,
            read_count: 0,
            write_count: 0,
            accessed_keys: Vec::new(),
        }
    }

    /// Fold one step into the counters, saturating on overflow.
    pub fn update(&mut self, step: &ExecutionStep)
        ensures
            final(self).total_accesses == if old(self).total_accesses
                + step.storage_changes@.len() > usize::MAX {
                usize::MAX as int
            } else {
                old(self).total_accesses + step.storage_changes@.len()
            },
    {
        let n = step.storage_changes.len();
        if usize::MAX - self.total_accesses >= n {
            self.total_accesses = self.total_accesses + n;
        } else {
            self.total_accesses = usize::MAX;
        }
        let mut i: usize = 0;
        while i < n
            invariant
                i <= n,
                n == step.storage_changes@.len(),
                self.total_accesses == if old(self).total_accesses
                    + step.storage_changes@.len() > usize::MAX {
                    usize::MAX as int
                } else {
                    old(self).total_accesses + step.storage_changes@.len()
                },
            decreases n - i,
        {
            let entry = &step.storage_changes[i];
            let key = entry.0;
            if !self.key_seen(&key) {
                self.accessed_keys.push(key);
                if self.unique_keys < usize::MAX {
                    self.unique_keys = self.unique_keys + 1;
                }
            }
            proof {
                Uint256::lemma_as_nat_injective(entry.1.0, entry.1.1);
            }
            if entry.1.0 != entry.1.1 {
                if self.write_count < usize::MAX {
                    self.write_count = self.write_count + 1;
                }
            } else {
                if self.read_count < usize::MAX {
                    self.read_count = self.read_count + 1;
                }
            }
            i += 1;
        }
    }

    /// Whether a key was already recorded.
    fn key_seen(&self, key: &Uint256) -> (r: bool)
        ensures
            r == exists|j: int|
                0 <= j < self.accessed_keys@.len() && self.accessed_keys@[j] == *key,
    {
        let n = self.accessed_keys.len();
        let mut i: usize = 0;
        while i < n
            invariant
                i <= n,
                n == self.accessed_keys@.len(),
                forall|j: int| 0 <= j < i ==> self.accessed_keys@[j] != *key,
            decreases n - i,
        {
            if &self.accessed_keys[i] == key {
                return true;
            }
            i += 1;
        }
        false
    }

    /// Settle the counters; nothing remains to compute.
    pub fn finalize(&mut self)
        ensures
            *final(self) == *old(self),
    {
    }
}

/// A whole trace: the recorded steps with the outcome and the counters.
pub struct ExecutionTrace {
    pub steps: Vec<ExecutionStep>,
    pub success: bool,
    pub total_gas_consumed: u64,
    pub execution_time_us: u64,
    pub opcode_count: usize,
    pub memory_stats: MemoryStats,
    pub storage_stats: StorageStats,
}

impl ExecutionTrace {
    /// An empty trace.
    pub fn new() -> (r: ExecutionTrace)
        ensures
            r.steps@.len() == 0,
            !r.success,
            r.total_gas_consumed == 0,
            r.execution_time_us == 0,
            r.opcode_count == 0,
    {
        ExecutionTrace {
            steps: Vec::new(),
            success: false,
            total_gas_consumed: 0,
            execution_time_us: 0,
            opcode_count: 0,
            memory_stats: MemoryStats::new(),
            storage_stats: StorageStats::new(),
        }
    }

    /// Append one step and fold it into the counters.
    pub fn add_step(&mut self, step: ExecutionStep)
        ensures
            final(self).steps@ == old(self).steps@.push(step),
            final(self).opcode_count == if old(self).opcode_count < usize::MAX {
                old(self).opcode_count + 1
            } else {
                old(self).opcode_count as int
            },
    {
        self.memory_stats.update(&step);
        self.storage_stats.update(&step);
        self.steps.push(step);
        if self.opcode_count < usize::MAX {
            self.opcode_count = self.opcode_count + 1;
        }
    }

    /// Settle the trace with the outcome, the gas total and the elapsed
    /// time the host measured.
    pub fn finalize(&mut self, success: bool, total_gas_consumed: u64, execution_time_us: u64)
        ensures
            final(self).success == success,
            final(self).total_gas_consumed == total_gas_consumed,
            final(self).execution_time_us == execution_time_us,
            final(self).steps == old(self).steps,
            final(self).opcode_count == old(self).opcode_count,
    {
        self.success = success;
        self.total_gas_consumed = total_gas_consumed;
        self.execution_time_us = execution_time_us;
        self.memory_stats.finalize();
        self.storage_stats.finalize();
    }

    /// The steps that changed storage, in order.
    pub fn storage_modifying_steps(&self) -> (r: Vec<&ExecutionStep>)
        ensures
            forall|i: int|
                0 <= i < r@.len() ==> (*#[trigger] r@[i]).storage_changes@.len() != 0,
    {
        let mut out: Vec<&ExecutionStep> = Vec::new();
        let n = self.steps.len();
        let mut i: usize = 0;
        while i < n
            invariant
                i <= n,
                n == self.steps@.len(),
                forall|j: int|
                    0 <= j < out@.len() ==> (*#[trigger] out@[j]).storage_changes@.len() != 0,
            decreases n - i,
        {
            let step = &self.steps[i];
            if step.modified_storage() {
                out.push(step);
            }
            i += 1;
        }
        out
    }

    /// The steps that changed memory, in order.
    pub fn memory_modifying_steps(&self) -> (r: Vec<&ExecutionStep>)
        ensures
            forall|i: int| 0 <= i < r@.len() ==> (*#[trigger] r@[i]).memory_changes@.len() != 0,
    {
        let mut out: Vec<&ExecutionStep> = Vec::new();
        let n = self.steps.len();
        let mut i: usize = 0;
        while i < n
            invariant
                i <= n,
                n == self.steps@.len(),
                forall|j: int|
                    0 <= j < out@.len() ==> (*#[trigger] out@[j]).memory_changes@.len() != 0,
            decreases n - i,
        {
            let step = &self.steps[i];
            if step.modified_memory() {
                out.push(step);
            }
            i += 1;
        }
        out
    }

    /// The steps that failed, in order.
    pub fn failed_steps(&self) -> (r: Vec<&ExecutionStep>)
        ensures
            forall|i: int| 0 <= i < r@.len() ==> (*#[trigger] r@[i]).error is Some,
    {
        let mut out: Vec<&ExecutionStep> = Vec::new();
        let n = self.steps.len();
        let mut i: usize = 0;
        while i < n
            invariant
                i <= n,
                n == self.steps@.len(),
                forall|j: int| 0 <= j < out@.len() ==> (*#[trigger] out@[j]).error is Some,
            decreases n - i,
        {
            let step = &self.steps[i];
            let failed = match &step.error {
                Some(_) => true,
                None => false,
            };
            if failed {
                out.push(step);
            }
            i += 1;
        }
        out
    }
}

/// A step-level recorder: it opens a step before dispatch, lets the host
/// attach deltas, and closes the step after dispatch. Recording never
/// touches the frame it observes.
pub struct ExecutionTracer {
    trace: ExecutionTrace,
    current_step: Option<ExecutionStep>,
}

impl ExecutionTracer {
    /// The trace gathered so far.
    pub closed spec fn spec_trace(&self) -> ExecutionTrace {
        self.trace
    }

    /// The step opened and not yet closed, when there is one.
    pub closed spec fn spec_current(&self) -> Option<ExecutionStep> {
        self.current_step
    }

    /// A recorder with an empty trace and no open step.
    pub fn new() -> (r: ExecutionTracer)
        ensures
            r.spec_trace().steps@.len() == 0,
            r.spec_current() is None,
    {
        ExecutionTracer { trace: ExecutionTrace::new(), current_step: None }
    }

    /// Open a step: the position, the opcode, the stack before, the gas
    /// left and the call depth; any step left open is discarded.
    pub fn start_step(
        &mut self,
        pc: usize,
        opcode: Opcode,
        stack_before: Vec<Uint256>,
        gas_remaining: u64,
        depth: usize,
    )
        ensures
            final(self).spec_trace() == old(self).spec_trace(),
            ({
                match final(self).spec_current() {
                    Some(s) => {
                        &&& s.pc == pc
                        &&& s.opcode == opcode
                        &&& s.stack_before == stack_before
                        &&& s.stack_after@.len() == 0
                        &&& s.memory_changes@.len() == 0
                        &&& s.storage_changes@.len() == 0
                        &&& s.gas_consumed == 0
                        &&& s.gas_remaining == gas_remaining
                        &&& s.depth == depth
                        &&& s.error is None
                        &&& s.metadata@.len() == 0
                    },
                    None => false,
                }
            }),
    {
        self.current_step = Some(
            ExecutionStep::new(pc, opcode, stack_before, Vec::new(), 0, gas_remaining, depth),
        );
    }

    /// Close the open step with the stack after it and the gas it drew, and
    /// append it to the trace; with no open step, nothing changes.
    pub fn end_step(&mut self, stack_after: Vec<Uint256>, gas_consumed: u64, gas_remaining: u64)
        ensures
            final(self).spec_current() is None,
            old(self).spec_current() is None ==> final(self).spec_trace().steps == old(
                self,
            ).spec_trace().steps,
            (old(self).spec_current() matches Some(s) ==> final(self).spec_trace().steps@
                == old(self).spec_trace().steps@.push(
                ExecutionStep { stack_after, gas_consumed, gas_remaining, ..s },
            )),
    {
        let taken = self.current_step.take();
        match taken {
            Some(mut step) => {
                step.stack_after = stack_after;
                step.gas_consumed = gas_consumed;
                step.gas_remaining = gas_remaining;
                self.trace.add_step(step);
            },
            None => {},
        }
    }

    /// Mark the open step failed; with no open step, nothing changes.
    pub fn record_error(&mut self, error: String)
        ensures
            final(self).spec_trace() == old(self).spec_trace(),
            old(self).spec_current() is None ==> final(self).spec_current() is None,
            (old(self).spec_current() matches Some(s) ==> final(self).spec_current() == Some(
                ExecutionStep { error: Some(error), ..s },
            )),
    {
        let taken = self.current_step.take();
        match taken {
            Some(mut step) => {
                step.set_error(error);
                self.current_step = Some(step);
            },
            None => {},
        }
    }

    /// Record one changed memory byte on the open step; with no open step,
    /// nothing changes.
    pub fn record_memory_change(&mut self, offset: usize, value: u8)
        ensures
            final(self).spec_trace() == old(self).spec_trace(),
            old(self).spec_current() is None ==> final(self).spec_current() is None,
            (old(self).spec_current() matches Some(s) ==> final(self).spec_current() matches
                Some(s2) && s2 == (ExecutionStep { memory_changes: s2.memory_changes, ..s })
                && s2.memory_changes@ == s.memory_changes@.push((offset, value))),
    {
        let taken = self.current_step.take();
        match taken {
            Some(mut step) => {
                step.add_memory_change(offset, value);
                self.current_step = Some(step);
            },
            None => {},
        }
    }

    /// Record one changed storage slot on the open step; with no open step,
    /// nothing changes.
    pub fn record_storage_change(&mut self, key: Uint256, old_value: Uint256, new_value: Uint256)
        ensures
            final(self).spec_trace() == old(self).spec_trace(),
            old(self).spec_current() is None ==> final(self).spec_current() is None,
            (old(self).spec_current() matches Some(s) ==> final(self).spec_current() matches
                Some(s2) && s2 == (ExecutionStep { storage_changes: s2.storage_changes, ..s })
                && s2.storage_changes@ == s.storage_changes@.push(
                (key, (old_value, new_value)),
            )),
    {
        let taken = self.current_step.take();
        match taken {
            Some(mut step) => {
                step.add_storage_change(key, old_value, new_value);
                self.current_step = Some(step);
            },
            None => {},
        }
    }

    /// Attach metadata to the open step; with no open step, nothing changes.
    pub fn add_metadata(&mut self, key: String, value: String)
        ensures
            final(self).spec_trace() == old(self).spec_trace(),
            old(self).spec_current() is None ==> final(self).spec_current() is None,
            (old(self).spec_current() matches Some(s) ==> final(self).spec_current() matches
                Some(s2) && s2 == (ExecutionStep { metadata: s2.metadata, ..s })
                && s2.metadata@ == s.metadata@.push((key, value))),
    {
        let taken = self.current_step.take();
        match taken {
            Some(mut step) => {
                step.add_metadata(key, value);
                self.current_step = Some(step);
            },
            None => {},
        }
    }

    /// Close the recorder with the outcome, the gas total and the elapsed
    /// time the host measured, and hand the trace over.
    pub fn finalize(self, success: bool, total_gas_consumed: u64, execution_time_us: u64) -> (r:
        ExecutionTrace)
        ensures
            r.success == success,
            r.total_gas_consumed == total_gas_consumed,
            r.execution_time_us == execution_time_us,
            r.steps == self.spec_trace().steps,
    {
        let mut trace = self.trace;
        trace.finalize(success, total_gas_consumed, execution_time_us);
        trace
    }

    /// The trace gathered so far.
    pub fn get_trace(&self) -> (r: &ExecutionTrace)
        ensures
            *r == self.spec_trace(),
    {
        &self.trace
    }
}

} // verus!
