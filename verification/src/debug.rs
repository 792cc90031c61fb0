use vstd::prelude::*;
use crate::uint256::Uint256;
use crate::stack::Stack;
use crate::memory::Memory;
use crate::gas::GasMeter;
use crate::opcodes::Opcode;

verus! {

/// A snapshot of the machine at one instruction, for inspection.
pub struct DebugInfo {
    pub pc: usize,
    pub opcode: Opcode,
    pub stack: Vec<Uint256>,
    pub memory_size: usize,
    pub gas_remaining: u64,
    pub gas_used: u64,
}

impl DebugInfo {
    /// Snapshot the stack, the memory size and the gas meter.
    pub fn new(pc: usize, opcode: Opcode, stack: &Stack, memory: &Memory, gas_meter: &GasMeter)
        -> (r: DebugInfo)
        requires
            gas_meter.well_formed(),
        ensures
            r.pc == pc,
            r.opcode == opcode,
            r.stack@ == stack@,
            r.memory_size == memory@.len(),
            r.gas_remaining == gas_meter.spec_available(),
            r.gas_used == gas_meter.spec_limit() - gas_meter.spec_available(),
    {
        let items = stack.items();
        let n = items.len();
        let mut copy: Vec<Uint256> = Vec::new();
        let mut i: usize = 0;
        while i < n
            invariant
                i <= n,
                n == stack@.len(),
                items@ == stack@,
                copy@ =~= stack@.subrange(0, i as int),
            decreases n - i,
        {
            copy.push(items[i]);
            i += 1;
        }
        proof {
            assert(copy@ =~= stack@);
        }
        DebugInfo {
            pc,
            opcode,
            stack: copy,
            memory_size: memory.size(),
            gas_remaining: gas_meter.available(),
            gas_used: gas_meter.used(),
        }
    }
}

/// A breakpoint list and a step recorder for interactive inspection.
pub struct Debugger {
    pub enabled: bool,
    pub step_mode: bool,
    pub breakpoints: Vec<usize>,
    pub trace: Vec<DebugInfo>,
}

impl Debugger {
    /// A disabled debugger with no breakpoints.
    pub fn new() -> (r: Debugger)
        ensures
            !r.enabled,
            !r.step_mode,
            r.breakpoints@.len() == 0,
            r.trace@.len() == 0,
    {
        Debugger { enabled: false, step_mode: false, breakpoints: Vec::new(), trace: Vec::new() }
    }

    /// Switch recording on.
    pub fn enable(&mut self)
        ensures
            final(self).enabled,
            final(self).breakpoints == old(self).breakpoints,
            final(self).trace == old(self).trace,
    {
        self.enabled = true;
    }

    /// Switch recording off.
    pub fn disable(&mut self)
        ensures
            !final(self).enabled,
            final(self).breakpoints == old(self).breakpoints,
            final(self).trace == old(self).trace,
    {
        self.enabled = false;
    }

    /// Whether a position is a breakpoint.
    pub fn should_break(&self, pc: usize) -> (r: bool)
        ensures
            r == exists|j: int| 0 <= j < self.breakpoints@.len() && self.breakpoints@[j] == pc,
    {
        let n = self.breakpoints.len();
        let mut i: usize = 0;
        while i < n
            invariant
                i <= n,
                n == self.breakpoints@.len(),
                forall|j: int| 0 <= j < i ==> self.breakpoints@[j] != pc,
            decreases n - i,
        {
            if self.breakpoints[i] == pc {
                return true;
            }
            i += 1;
        }
        false
    }

    /// Add a breakpoint; a position is listed at most once.
    pub fn add_breakpoint(&mut self, pc: usize)
        ensures
            exists|j: int|
                0 <= j < final(self).breakpoints@.len() && final(self).breakpoints@[j] == pc,
            final(self).trace == old(self).trace,
            final(self).enabled == old(self).enabled,
    {
        if !self.should_break(pc) {
            self.breakpoints.push(pc);
            proof {
                assert(self.breakpoints@[self.breakpoints@.len() - 1] == pc);
            }
        }
    }

    /// Remove a breakpoint everywhere it is listed.
    pub fn remove_breakpoint(&mut self, pc: usize)
        ensures
            forall|j: int|
                0 <= j < final(self).breakpoints@.len() ==> final(self).breakpoints@[j] != pc,
            final(self).trace == old(self).trace,
            final(self).enabled == old(self).enabled,
    {
        let n = self.breakpoints.len();
        let mut kept: Vec<usize> = Vec::new();
        let mut i: usize = 0;
        while i < n
            invariant
                i <= n,
                n == self.breakpoints@.len(),
                forall|j: int| 0 <= j < kept@.len() ==> kept@[j] != pc,
            decreases n - i,
        {
            let p = self.breakpoints[i];
            if p != pc {
                kept.push(p);
            }
            i += 1;
        }
        self.breakpoints = kept;
    }

    /// Record a snapshot while recording is on.
    pub fn record_step(&mut self, info: DebugInfo)
        ensures
            old(self).enabled ==> final(self).trace@ == old(self).trace@.push(info),
            !old(self).enabled ==> final(self).trace == old(self).trace,
            final(self).breakpoints == old(self).breakpoints,
            final(self).enabled == old(self).enabled,
    {
        if self.enabled {
            self.trace.push(info);
        }
    }

    /// The recorded snapshots, in order.
    pub fn get_trace(&self) -> (r: &[DebugInfo])
        ensures
            r@ == self.trace@,
    {
        self.trace.as_slice()
    }

    /// Forget every recorded snapshot.
    pub fn clear_trace(&mut self)
        ensures
            final(self).trace@.len() == 0,
            final(self).breakpoints == old(self).breakpoints,
    {
        self.trace.clear();
    }
}

/// The gas a sequence of draws adds up to, saturating at the largest 64-bit
/// value.
pub open spec fn sum_sat(s: Seq<u64>) -> nat
    decreases s.len(),
{
    if s.len() == 0 {
        0nat
    } else {
        let rest = sum_sat(s.drop_last());
        if rest + s.last() > u64::MAX {
            u64::MAX as nat
        } else {
            (rest + s.last()) as nat
        }
    }
}

/// The smallest draw, or zero when there is none.
pub open spec fn seq_min(s: Seq<u64>) -> u64
    decreases s.len(),
{
    if s.len() == 0 {
        0u64
    } else if s.len() == 1 {
        s.last()
    } else {
        let rest = seq_min(s.drop_last());
        if s.last() < rest {
            s.last()
        } else {
            rest
        }
    }
}

/// The largest draw, or zero when there is none.
pub open spec fn seq_max(s: Seq<u64>) -> u64
    decreases s.len(),
{
    if s.len() == 0 {
        0u64
    } else {
        let rest = seq_max(s.drop_last());
        if s.last() > rest {
            s.last()
        } else {
            rest
        }
    }
}

/// The gas draws recorded for one opcode, summarized.
pub struct OpcodeGasStats {
    pub count: usize,
    pub total: u64,
    pub average: u64,
    pub min: u64,
    pub max: u64,
}

/// The whole gas usage summary.
pub struct GasStats {
    pub total_gas: u64,
    pub opcode_stats: Vec<(Opcode, OpcodeGasStats)>,
}

impl GasStats {
    /// The summary recorded for one opcode, when there is one.
    pub fn stats_for(&self, opcode: Opcode) -> (r: Option<&OpcodeGasStats>)
        ensures
            match r {
                Some(s) => exists|j: int|
                    0 <= j < self.opcode_stats@.len() && (#[trigger] self.opcode_stats@[j]).0
                        == opcode && self.opcode_stats@[j].1 == *s,
                None => true,
            },
    {
        let n = self.opcode_stats.len();
        let mut i: usize = 0;
        while i < n
            invariant
                i <= n,
                n == self.opcode_stats@.len(),
            decreases n - i,
        {
            if self.opcode_stats[i].0 == opcode {
                return Some(&self.opcode_stats[i].1);
            }
            i += 1;
        }
        None
    }
}

/// A per-opcode record of the gas each execution drew.
pub struct GasAnalyzer {
    pub opcode_gas: Vec<(Opcode, Vec<u64>)>,
    pub total_gas: u64,
}

impl GasAnalyzer {
    /// An empty record.
    pub fn new() -> (r: GasAnalyzer)
        ensures
            r.opcode_gas@.len() == 0,
            r.total_gas == 0,
    {
        GasAnalyzer { opcode_gas: Vec::new(), total_gas: 0 }
    }

    /// Record one execution of an opcode and the gas it drew; the running
    /// total saturates at the largest 64-bit value.
    pub fn record_gas_usage(&mut self, opcode: Opcode, gas_used: u64)
        ensures
            final(self).total_gas == if old(self).total_gas + gas_used > u64::MAX {
                u64::MAX as int
            } else {
                old(self).total_gas + gas_used
            },
    {
        if u64::MAX - self.total_gas >= gas_used {
            self.total_gas = self.total_gas + gas_used;
        } else {
            self.total_gas = u64::MAX;
        }
        let n = self.opcode_gas.len();
        let mut i: usize = 0;
        while i < n
            invariant
                i <= n,
                n == self.opcode_gas@.len(),
                self.total_gas == if old(self).total_gas + gas_used > u64::MAX {
                    u64::MAX as int
                } else {
                    old(self).total_gas + gas_used
                },
            decreases n - i,
        {
            if self.opcode_gas[i].0 == opcode {
                self.opcode_gas[i].1.push(gas_used);
                return ;
            }
            i += 1;
        }
        let mut draws: Vec<u64> = Vec::new();
        draws.push(gas_used);
        self.opcode_gas.push((opcode, draws));
    }

    /// Summarize the record: for each opcode its count and its saturating
    /// total with the smallest, largest and mean draw.
    pub fn get_stats(&self) -> (r: GasStats)
        ensures
            r.total_gas == self.total_gas,
            r.opcode_stats@.len() == self.opcode_gas@.len(),
            forall|j: int|
                0 <= j < r.opcode_stats@.len() ==> {
                    let draws = (#[trigger] self.opcode_gas@[j]).1@;
                    let st = r.opcode_stats@[j].1;
                    &&& r.opcode_stats@[j].0 == self.opcode_gas@[j].0
                    &&& st.count == draws.len()
                    &&& st.total == sum_sat(draws)
                    &&& st.min == seq_min(draws)
                    &&& st.max == seq_max(draws)
                    &&& (draws.len() > 0 ==> st.average == sum_sat(draws) / (draws.len() as nat))
                },
    {
        let n = self.opcode_gas.len();
        let mut out: Vec<(Opcode, OpcodeGasStats)> = Vec::new();
        let mut i: usize = 0;
        while i < n
            invariant
                i <= n,
                n == self.opcode_gas@.len(),
                out@.len() == i,
                forall|j: int|
                    0 <= j < i ==> {
                        let draws = (#[trigger] self.opcode_gas@[j]).1@;
                        let st = out@[j].1;
                        &&& out@[j].0 == self.opcode_gas@[j].0
                        &&& st.count == draws.len()
                        &&& st.total == sum_sat(draws)
                        &&& st.min == seq_min(draws)
                        &&& st.max == seq_max(draws)
                        &&& (draws.len() > 0 ==> st.average == sum_sat(draws) / (
                        draws.len() as nat))
                    },
            decreases n - i,
        {
            let entry = &self.opcode_gas[i];
            let draws = &entry.1;
            let m = draws.len();
            let mut total: u64 = 0;
            let mut min: u64 = 0;
            let mut max: u64 = 0;
            let mut k: usize = 0;
            while k < m
                invariant
                    k <= m,
                    m == draws@.len(),
                    total == sum_sat(draws@.subrange(0, k as int)),
                    min == seq_min(draws@.subrange(0, k as int)),
                    max == seq_max(draws@.subrange(0, k as int)),
                decreases m - k,
            {
                proof {
                    assert(draws@.subrange(0, k + 1).drop_last() =~= draws@.subrange(
                        0,
                        k as int,
                    ));
                    assert(draws@.subrange(0, k + 1).last() == draws@[k as int]);
                }
                let d = draws[k];
                if u64::MAX - total >= d {
                    total = total + d;
                } else {
                    total = u64::MAX;
                }
                if k == 0 {
                    min = d;
                } else if d < min {
                    min = d;
                }
                if d > max {
                    max = d;
                }
                k += 1;
            }
            proof {
                assert(draws@.subrange(0, m as int) =~= draws@);
            }
            let average = if m > 0 {
                total / (m as u64)
            } else {
                0
            };
            out.push(
                (entry.0, OpcodeGasStats { count: m, total, average, min, max }),
            );
            i += 1;
        }
        GasStats { total_gas: self.total_gas, opcode_stats: out }
    }
}

} // verus!
