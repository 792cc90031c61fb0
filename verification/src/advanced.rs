use vstd::prelude::*;
use crate::opcodes::{Opcode, opcode_byte, is_valid_opcode_byte, is_push_byte, push_width};

verus! {

/// The peephole rewrite: each push of zero followed at once by a duplicate
/// becomes two pushes of zero; every other byte passes through. The costs
/// of the two forms are equal, so execution is unchanged wherever the
/// matched bytes really are instructions; a match inside a push immediate
/// rewrites data, which is why the pass is a switchable heuristic.
pub open spec fn peephole_rewrite(s: Seq<u8>) -> Seq<u8>
    decreases s.len(),
{
    if s.len() == 0 {
        Seq::empty()
    } else if s.len() > 2 && s[0] == 0x60 && s[1] == 0x00 && s[2] == 0x80 {
        seq![0x60u8, 0x00u8, 0x60u8, 0x00u8] + peephole_rewrite(s.subrange(3, s.len() as int))
    } else {
        seq![s[0]] + peephole_rewrite(s.subrange(1, s.len() as int))
    }
}

/// The fold rewrite: a one-byte push, a one-byte push and an addition
/// become one push of the wrapping byte sum. The sum is taken modulo 256,
/// so the rewrite preserves execution only when the true sum fits one byte;
/// the pass is a switchable heuristic for that reason.
pub open spec fn fold_rewrite(s: Seq<u8>) -> Seq<u8>
    decreases s.len(),
{
    if s.len() == 0 {
        Seq::empty()
    } else if s.len() > 4 && s[0] == 0x60 && s[2] == 0x60 && s[4] == 0x01 {
        seq![0x60u8, ((s[1] + s[3]) % 256) as u8] + fold_rewrite(s.subrange(5, s.len() as int))
    } else {
        seq![s[0]] + fold_rewrite(s.subrange(1, s.len() as int))
    }
}

/// The cut rewrite: the linear walk keeps everything up to and including
/// the first halting instruction it reaches, carrying push immediates over
/// unwalked, and drops the rest. Dropped bytes can hold jump destinations,
/// so the rewrite preserves execution only for code that never jumps past
/// its first halting instruction.
pub open spec fn dead_code_rewrite(s: Seq<u8>) -> Seq<u8>
    decreases s.len(),
{
    if s.len() == 0 {
        Seq::empty()
    } else if s[0] == 0x00 || s[0] == 0xf3 || s[0] == 0xfd {
        seq![s[0]]
    } else if is_push_byte(s[0]) {
        let copy: nat = if push_width(s[0]) < s.len() - 1 {
            push_width(s[0])
        } else {
            (s.len() - 1) as nat
        };
        s.subrange(0, copy as int + 1) + dead_code_rewrite(s.subrange(copy as int + 1, s.len() as int))
    } else {
        seq![s[0]] + dead_code_rewrite(s.subrange(1, s.len() as int))
    }
}

/// The code a run of the switched-on passes produces.
pub open spec fn optimize_spec(s: Seq<u8>, passes: GasOptimization) -> Seq<u8> {
    let s1 = if passes.peephole_optimization {
        peephole_rewrite(s)
    } else {
        s
    };
    let s2 = if passes.constant_folding {
        fold_rewrite(s1)
    } else {
        s1
    };
    if passes.dead_code_elimination {
        dead_code_rewrite(s2)
    } else {
        s2
    }
}

/// Switches for the bytecode optimizer's passes.
#[derive(Debug, Clone, Copy, PartialEq, Eq, Structural)]
pub struct GasOptimization {
    pub peephole_optimization: bool,
    pub constant_folding: bool,
    pub dead_code_elimination: bool,
    pub stack_optimization: bool,
}

impl GasOptimization {
    /// All passes switched on.
    pub fn new() -> (r: GasOptimization)
        ensures
            r.peephole_optimization,
            r.constant_folding,
            r.dead_code_elimination,
            r.stack_optimization,
    {
        GasOptimization {
            peephole_optimization: true,
            constant_folding: true,
            dead_code_elimination: true,
            stack_optimization: true,
        }
    }

    /// Rewrite a push of zero followed by a duplicate into two pushes of
    /// zero: the costs are equal but the pattern frees a later pass.
    fn apply_peephole_optimization(&self, bytecode: Vec<u8>) -> (r: Vec<u8>)
        ensures
            r@ == peephole_rewrite(bytecode@),
    {
        let n = bytecode.len();
        let mut out: Vec<u8> = Vec::new();
        let mut i: usize = 0;
        proof {
            assert(bytecode@.subrange(0, n as int) =~= bytecode@);
            assert(peephole_rewrite(bytecode@) =~= out@ + peephole_rewrite(
                bytecode@.subrange(0, n as int),
            ));
        }
        while i < n
            invariant
                i <= n,
                n == bytecode@.len(),
                peephole_rewrite(bytecode@) == out@ + peephole_rewrite(
                    bytecode@.subrange(i as int, n as int),
                ),
            decreases n - i,
        {
            let ghost out0 = out@;
            let ghost rest = bytecode@.subrange(i as int, n as int);
            if n - i > 2 && bytecode[i] == 0x60 && bytecode[i + 1] == 0x00 && bytecode[i + 2]
                == 0x80 {
                out.push(0x60);
                out.push(0x00);
                out.push(0x60);
                out.push(0x00);
                i += 3;
                proof {
                    assert(rest.subrange(3, rest.len() as int) =~= bytecode@.subrange(
                        i as int,
                        n as int,
                    ));
                    assert(out@ =~= out0 + seq![0x60u8, 0x00u8, 0x60u8, 0x00u8]);
                    assert(out0 + peephole_rewrite(rest) =~= out@ + peephole_rewrite(
                        bytecode@.subrange(i as int, n as int),
                    ));
                }
            } else {
                out.push(bytecode[i]);
                i += 1;
                proof {
                    assert(rest.subrange(1, rest.len() as int) =~= bytecode@.subrange(
                        i as int,
                        n as int,
                    ));
                    assert(out@ =~= out0 + seq![rest[0]]);
                    assert(out0 + peephole_rewrite(rest) =~= out@ + peephole_rewrite(
                        bytecode@.subrange(i as int, n as int),
                    ));
                }
            }
        }
        proof {
            assert(bytecode@.subrange(n as int, n as int).len() == 0);
            assert(peephole_rewrite(bytecode@) =~= out@);
        }
        out
    }

    /// Fold a one-byte push, a one-byte push and an addition into one push
    /// of their wrapping sum.
    fn apply_constant_folding(&self, bytecode: Vec<u8>) -> (r: Vec<u8>)
        ensures
            r@ == fold_rewrite(bytecode@),
    {
        let n = bytecode.len();
        let mut out: Vec<u8> = Vec::new();
        let mut i: usize = 0;
        proof {
            assert(bytecode@.subrange(0, n as int) =~= bytecode@);
            assert(fold_rewrite(bytecode@) =~= out@ + fold_rewrite(
                bytecode@.subrange(0, n as int),
            ));
        }
        while i < n
            invariant
                i <= n,
                n == bytecode@.len(),
                fold_rewrite(bytecode@) == out@ + fold_rewrite(
                    bytecode@.subrange(i as int, n as int),
                ),
            decreases n - i,
        {
            let ghost out0 = out@;
            let ghost rest = bytecode@.subrange(i as int, n as int);
            if n - i > 4 && bytecode[i] == 0x60 && bytecode[i + 2] == 0x60 && bytecode[i + 4]
                == 0x01 {
                out.push(0x60);
                out.push(add_wrap_u8(bytecode[i + 1], bytecode[i + 3]));
                i += 5;
                proof {
                    assert(rest.subrange(5, rest.len() as int) =~= bytecode@.subrange(
                        i as int,
                        n as int,
                    ));
                    assert(out@ =~= out0 + seq![0x60u8, ((rest[1] + rest[3]) % 256) as u8]);
                    assert(out0 + fold_rewrite(rest) =~= out@ + fold_rewrite(
                        bytecode@.subrange(i as int, n as int),
                    ));
                }
            } else {
                out.push(bytecode[i]);
                i += 1;
                proof {
                    assert(rest.subrange(1, rest.len() as int) =~= bytecode@.subrange(
                        i as int,
                        n as int,
                    ));
                    assert(out@ =~= out0 + seq![rest[0]]);
                    assert(out0 + fold_rewrite(rest) =~= out@ + fold_rewrite(
                        bytecode@.subrange(i as int, n as int),
                    ));
                }
            }
        }
        proof {
            assert(bytecode@.subrange(n as int, n as int).len() == 0);
            assert(fold_rewrite(bytecode@) =~= out@);
        }
        out
    }

    /// Cut the code after the first halting instruction reached by the
    /// linear walk; push immediates are carried over unwalked.
    fn apply_dead_code_elimination(&self, bytecode: Vec<u8>) -> (r: Vec<u8>)
        ensures
            r@ == dead_code_rewrite(bytecode@),
    {
        let n = bytecode.len();
        let mut out: Vec<u8> = Vec::new();
        let mut i: usize = 0;
        proof {
            assert(bytecode@.subrange(0, n as int) =~= bytecode@);
            assert(dead_code_rewrite(bytecode@) =~= out@ + dead_code_rewrite(
                bytecode@.subrange(0, n as int),
            ));
        }
        while i < n
            invariant
                i <= n,
                n == bytecode@.len(),
                dead_code_rewrite(bytecode@) == out@ + dead_code_rewrite(
                    bytecode@.subrange(i as int, n as int),
                ),
            decreases n - i,
        {
            let ghost out0 = out@;
            let ghost rest = bytecode@.subrange(i as int, n as int);
            let b = bytecode[i];
            out.push(b);
            if b == 0x00 || b == 0xf3 || b == 0xfd {
                proof {
                    assert(out@ =~= out0 + seq![rest[0]]);
                    assert(dead_code_rewrite(bytecode@) =~= out@);
                }
                return out;
            }
            if 0x60 <= b && b <= 0x7f {
                let width = (b - 0x5f) as usize;
                let available = n - i - 1;
                let copy = if width < available {
                    width
                } else {
                    available
                };
                let mut j: usize = 0;
                let ghost out1 = out@;
                while j < copy
                    invariant
                        j <= copy,
                        copy <= n - i - 1,
                        i < n,
                        n == bytecode@.len(),
                        out@ =~= out1 + bytecode@.subrange(i + 1, i + 1 + j),
                    decreases copy - j,
                {
                    out.push(bytecode[i + 1 + j]);
                    proof {
                        assert(out@ =~= out1 + bytecode@.subrange(i + 1, i + 1 + j + 1));
                    }
                    j += 1;
                }
                i += 1 + copy;
                proof {
                    assert(rest.subrange(0, copy as int + 1) =~= bytecode@.subrange(
                        i - 1 - copy,
                        i as int,
                    ));
                    assert(rest.subrange(copy as int + 1, rest.len() as int)
                        =~= bytecode@.subrange(i as int, n as int));
                    assert(out@ =~= out0 + rest.subrange(0, copy as int + 1));
                    assert(out0 + dead_code_rewrite(rest) =~= out@ + dead_code_rewrite(
                        bytecode@.subrange(i as int, n as int),
                    ));
                }
            } else {
                i += 1;
                proof {
                    assert(rest.subrange(1, rest.len() as int) =~= bytecode@.subrange(
                        i as int,
                        n as int,
                    ));
                    assert(out@ =~= out0 + seq![rest[0]]);
                    assert(out0 + dead_code_rewrite(rest) =~= out@ + dead_code_rewrite(
                        bytecode@.subrange(i as int, n as int),
                    ));
                }
            }
        }
        proof {
            assert(bytecode@.subrange(n as int, n as int).len() == 0);
            assert(dead_code_rewrite(bytecode@) =~= out@);
        }
        out
    }

    /// Run the switched-on passes over a byte string of code; the result is
    /// exactly the composition of the switched-on rewrites.
    pub fn optimize(&self, bytecode: &[u8]) -> (r: Result<Vec<u8>, String>)
        ensures
            r matches Ok(v) && v@ == optimize_spec(bytecode@, *self),
    {
        let mut optimized = vstd::slice::slice_to_vec(bytecode);
        if self.peephole_optimization {
            optimized = self.apply_peephole_optimization(optimized);
        }
        if self.constant_folding {
            optimized = self.apply_constant_folding(optimized);
        }
        if self.dead_code_elimination {
            optimized = self.apply_dead_code_elimination(optimized);
        }
        Ok(optimized)
    }
}

/// Wrapping addition of two bytes.
fn add_wrap_u8(x: u8, y: u8) -> (r: u8)
    ensures
        r == (x + y) % 256,
{
    let s: u16 = x as u16 + y as u16;
    (s % 256) as u8
}

/// A running record of execution times and gas totals.
pub struct PerformanceMonitor {
    pub execution_times: Vec<u64>,
    pub gas_consumption: Vec<u64>,
    pub memory_usage: Vec<usize>,
}

/// The figures of one run.
#[derive(Debug, Clone, Copy, PartialEq, Eq, Structural)]
pub struct PerformanceMetrics {
    pub execution_time_us: u64,
    pub gas_consumed: u64,
    pub gas_remaining: u64,
    pub success: bool,
    pub memory_peak: usize,
    pub opcode_count: usize,
}

impl PerformanceMonitor {
    /// An empty record.
    pub fn new() -> (r: PerformanceMonitor)
        ensures
            r.execution_times@.len() == 0,
            r.gas_consumption@.len() == 0,
            r.memory_usage@.len() == 0,
    {
        PerformanceMonitor {
            execution_times: Vec::new(),
            gas_consumption: Vec::new(),
            memory_usage: Vec::new(),
        }
    }

    /// Fold the outcome of one run, with the elapsed time the host
    /// measured, into the record and summarize the run.
    pub fn record(
        &mut self,
        execution_time_us: u64,
        result: &crate::executor::ExecutionResult,
    ) -> (r: PerformanceMetrics)
        ensures
            final(self).execution_times@ == old(self).execution_times@.push(execution_time_us),
            final(self).gas_consumption@ == old(self).gas_consumption@.push(result.gas_used),
            r.execution_time_us == execution_time_us,
            r.gas_consumed == result.gas_used,
            r.gas_remaining == result.gas_remaining,
            r.success == result.success,
    {
        let metrics = PerformanceMetrics {
            execution_time_us,
            gas_consumed: result.gas_used,
            gas_remaining: result.gas_remaining,
            success: result.success,
            memory_peak: 0,
            opcode_count: 0,
        };
        self.execution_times.push(metrics.execution_time_us);
        self.gas_consumption.push(metrics.gas_consumed);
        metrics
    }
}

/// The flat estimation price of one opcode byte.
pub open spec fn flat_cost(b: u8) -> nat {
    if b == 0x00 {
        0nat
    } else if 0x01 <= b <= 0x06 {
        3nat
    } else if b == 0x0a {
        10nat
    } else if b == 0x55 {
        100nat
    } else if b == 0x20 {
        30nat
    } else {
        2nat
    }
}

/// The flat price of a walked byte string: each recognized instruction
/// contributes its flat price, push immediates are skipped, unrecognized
/// bytes contribute nothing, and a truncated push ends the walk.
pub open spec fn estimate_spec(s: Seq<u8>, i: nat) -> nat
    decreases s.len() - i,
    when i <= s.len()
{
    if i >= s.len() {
        0nat
    } else if !is_valid_opcode_byte(s[i as int]) {
        estimate_spec(s, i + 1)
    } else if is_push_byte(s[i as int]) {
        if i + 1 + push_width(s[i as int]) > s.len() {
            flat_cost(s[i as int])
        } else {
            (flat_cost(s[i as int]) + estimate_spec(s, i + 1 + push_width(s[i as int]))) as nat
        }
    } else {
        (flat_cost(s[i as int]) + estimate_spec(s, i + 1)) as nat
    }
}

/// The four-byte selectors collected from a byte string: the four bytes
/// after each push-of-four found by the collecting scan.
pub open spec fn selectors_spec(s: Seq<u8>, i: nat) -> Seq<Seq<u8>>
    decreases s.len() - i,
    when i <= s.len()
{
    if s.len() < 4 || i >= s.len() - 4 {
        Seq::empty()
    } else if s[i as int] == 0x63 {
        seq![s.subrange(i as int + 1, i as int + 5)] + selectors_spec(s, i + 5)
    } else {
        selectors_spec(s, i + 1)
    }
}

/// The byte views of a list of four-byte selectors.
pub open spec fn selector_views(v: Seq<[u8; 4]>) -> Seq<Seq<u8>> {
    Seq::new(v.len(), |k: int| v[k]@)
}

/// Static analysis over a byte string of code.
pub struct ContractAnalyzer {
    pub function_selectors: Vec<([u8; 4], String)>,
}

impl ContractAnalyzer {
    /// An analyzer primed with well-known function selectors.
    pub fn new() -> (r: ContractAnalyzer)
        ensures
            r.function_selectors@.len() == 6,
    {
        let mut function_selectors: Vec<([u8; 4], String)> = Vec::new();
        function_selectors.push(([0x18, 0x16, 0x0d, 0xdd], "totalSupply()".to_owned()));
        function_selectors.push(([0x70, 0xa0, 0x82, 0x31], "balanceOf(address)".to_owned()));
        function_selectors.push(
            ([0xa9, 0x05, 0x9c, 0xbb], "transfer(address,uint256)".to_owned()),
        );
        function_selectors.push(
            ([0x23, 0xb8, 0x72, 0xdd], "transferFrom(address,address,uint256)".to_owned()),
        );
        function_selectors.push(
            ([0x09, 0x5e, 0xa7, 0xb3], "approve(address,uint256)".to_owned()),
        );
        function_selectors.push(
            ([0x18, 0x15, 0xcc, 0x81], "allowance(address,address)".to_owned()),
        );
        ContractAnalyzer { function_selectors }
    }

    /// Count how often each recognized instruction heads a walked position.
    pub fn analyze_opcode_frequency(&self, bytecode: &[u8]) -> (r: Vec<(Opcode, usize)>)
        ensures
            forall|j: int| 0 <= j < r@.len() ==> (#[trigger] r@[j]).1 >= 1,
    {
        let n = bytecode.len();
        let mut out: Vec<(Opcode, usize)> = Vec::new();
        let mut i: usize = 0;
        while i < n
            invariant
                i <= n,
                n == bytecode@.len(),
                forall|j: int| 0 <= j < out@.len() ==> (#[trigger] out@[j]).1 >= 1,
            decreases n - i,
        {
            let b = bytecode[i];
            match Opcode::from_byte(b) {
                Ok(op) => {
                    bump_count(&mut out, op);
                    if 0x60 <= b && b <= 0x7f {
                        let width = (b - 0x5f) as usize;
                        if n - i - 1 < width {
                            return out;
                        }
                        i += width;
                    }
                },
                Err(_) => {},
            }
            i += 1;
        }
        out
    }

    /// The flat table price of one instruction for estimation.
    pub fn get_opcode_gas_cost(&self, opcode: &Opcode) -> (r: u64)
        ensures
            r == flat_cost(opcode_byte(*opcode)),
    {
        let b = opcode.to_byte();
        if b == 0x00 {
            0
        } else if 0x01 <= b && b <= 0x06 {
            3
        } else if b == 0x0a {
            10
        } else if b == 0x55 {
            100
        } else if b == 0x20 {
            30
        } else {
            2
        }
    }

    /// Estimate the flat gas price of a walked byte string, saturating at
    /// the largest 64-bit value.
    pub fn estimate_gas_cost(&self, bytecode: &[u8]) -> (r: u64)
        ensures
            r == if estimate_spec(bytecode@, 0) > u64::MAX {
                u64::MAX as nat
            } else {
                estimate_spec(bytecode@, 0)
            },
    {
        let n = bytecode.len();
        let mut total: u64 = 0;
        let ghost mut spent: nat = 0nat;
        let mut i: usize = 0;
        while i < n
            invariant
                i <= n,
                n == bytecode@.len(),
                estimate_spec(bytecode@, 0) == spent + estimate_spec(bytecode@, i as nat),
                total == if spent > u64::MAX {
                    u64::MAX as nat
                } else {
                    spent
                },
            decreases n - i,
        {
            let b = bytecode[i];
            match Opcode::from_byte(b) {
                Ok(op) => {
                    let cost = self.get_opcode_gas_cost(&op);
                    if u64::MAX - total >= cost {
                        total = total + cost;
                    } else {
                        total = u64::MAX;
                    }
                    proof {
                        spent = spent + flat_cost(b);
                    }
                    if 0x60 <= b && b <= 0x7f {
                        let width = (b - 0x5f) as usize;
                        if n - i - 1 < width {
                            return total;
                        }
                        i += width;
                    }
                },
                Err(_) => {},
            }
            i += 1;
        }
        total
    }

    /// Flag code where the dear opcodes or the jumps take too large a share
    /// of the instructions; the shares and the walk mirror the validator's
    /// safety gate exactly.
    pub fn detect_issues(&self, bytecode: &[u8]) -> (r: Vec<String>)
        ensures
            r@.len() == (if crate::validation::insn_count(bytecode@, 0) > 0 && 10
                * crate::validation::expensive_count(bytecode@, 0) >= crate::validation::insn_count(
                bytecode@,
                0,
            ) {
                1int
            } else {
                0int
            }) + (if crate::validation::insn_count(bytecode@, 0) > 0 && 5
                * crate::validation::jump_count(bytecode@, 0) >= crate::validation::insn_count(
                bytecode@,
                0,
            ) {
                1int
            } else {
                0int
            }),
    {
        let n = bytecode.len();
        let mut insns: usize = 0;
        let mut expensive: usize = 0;
        let mut jumps: usize = 0;
        let mut i: usize = 0;
        while i < n
            invariant
                i <= n,
                n == bytecode@.len(),
                crate::validation::insn_count(bytecode@, 0) == insns
                    + crate::validation::insn_count(bytecode@, i as nat),
                crate::validation::expensive_count(bytecode@, 0) == expensive
                    + crate::validation::expensive_count(bytecode@, i as nat),
                crate::validation::jump_count(bytecode@, 0) == jumps
                    + crate::validation::jump_count(bytecode@, i as nat),
                insns <= i,
                expensive <= insns,
                jumps <= insns,
            decreases n - i,
        {
            let b = bytecode[i];
            insns = insns + 1;
            if b == 0x0a || b == 0x55 || b == 0x20 {
                expensive = expensive + 1;
            }
            if b == 0x56 || b == 0x57 {
                jumps = jumps + 1;
            }
            if 0x60 <= b && b <= 0x7f {
                let width = (b - 0x5f) as usize;
                if n - i - 1 < width {
                    i = n;
                } else {
                    i = i + 1 + width;
                }
            } else {
                i = i + 1;
            }
        }
        proof {
            assert(crate::validation::insn_count(bytecode@, n as nat) == 0);
        }
        let mut issues: Vec<String> = Vec::new();
        if insns > 0 && 10u128 * (expensive as u128) >= insns as u128 {
            issues.push("High usage of expensive opcodes detected".to_owned());
        }
        if insns > 0 && 5u128 * (jumps as u128) >= insns as u128 {
            issues.push("Potential infinite loop detected".to_owned());
        }
        issues
    }

    /// Collect the four bytes after every push-of-four, the shape a call
    /// dispatcher gives to its function selectors.
    pub fn extract_function_selectors(&self, bytecode: &[u8]) -> (r: Vec<[u8; 4]>)
        ensures
            selector_views(r@) == selectors_spec(bytecode@, 0),
    {
        let n = bytecode.len();
        let mut out: Vec<[u8; 4]> = Vec::new();
        let mut i: usize = 0;
        if n < 4 {
            proof {
                assert(selector_views(out@) =~= selectors_spec(bytecode@, 0));
            }
            return out;
        }
        while i < n - 4
            invariant
                i <= n,
                n == bytecode@.len(),
                n >= 4,
                selectors_spec(bytecode@, 0) == selector_views(out@) + selectors_spec(
                    bytecode@,
                    i as nat,
                ),
            decreases n - i,
        {
            let ghost out0 = out@;
            if bytecode[i] == 0x63 {
                let selector = [
                    bytecode[i + 1],
                    bytecode[i + 2],
                    bytecode[i + 3],
                    bytecode[i + 4],
                ];
                out.push(selector);
                proof {
                    assert(selector@ =~= bytecode@.subrange(i as int + 1, i as int + 5));
                    assert(selector_views(out@) =~= selector_views(out0) + seq![selector@]);
                    assert(selector_views(out0) + selectors_spec(bytecode@, i as nat)
                        =~= selector_views(out@) + selectors_spec(bytecode@, (i + 5) as nat));
                }
                i += 5;
            } else {
                i += 1;
            }
        }
        proof {
            assert(selectors_spec(bytecode@, i as nat) =~= Seq::<Seq<u8>>::empty());
            assert(selectors_spec(bytecode@, 0) =~= selector_views(out@));
        }
        out
    }
}

/// Bump the count of an instruction in a frequency list, or give it a first
/// entry.
fn bump_count(counts: &mut Vec<(Opcode, usize)>, opcode: Opcode)
    requires
        forall|j: int| 0 <= j < old(counts)@.len() ==> (#[trigger] old(counts)@[j]).1 >= 1,
    ensures
        forall|j: int| 0 <= j < final(counts)@.len() ==> (#[trigger] final(counts)@[j]).1 >= 1,
{
    let n = counts.len();
    let mut i: usize = 0;
    while i < n
        invariant
            i <= n,
            n == counts@.len(),
            forall|j: int| 0 <= j < counts@.len() ==> (#[trigger] counts@[j]).1 >= 1,
        decreases n - i,
    {
        if counts[i].0 == opcode {
            if counts[i].1 < usize::MAX {
                let c = counts[i].1;
                counts[i].1 = c + 1;
            }
            return ;
        }
        i += 1;
    }
    counts.push((opcode, 1));
}

/// The advanced toolbox: the optimizer, the performance record and the
/// analyzer, bundled.
pub struct AdvancedEVM {
    pub gas_optimization: GasOptimization,
    pub performance_monitor: PerformanceMonitor,
    pub contract_analyzer: ContractAnalyzer,
}

impl AdvancedEVM {
    /// A toolbox with every optimizer pass on.
    pub fn new() -> (r: AdvancedEVM)
        ensures
            r.gas_optimization.peephole_optimization,
    {
        AdvancedEVM {
            gas_optimization: GasOptimization::new(),
            performance_monitor: PerformanceMonitor::new(),
            contract_analyzer: ContractAnalyzer::new(),
        }
    }

    /// Run the optimizer over a byte string of code; the result is exactly
    /// the composition of the switched-on rewrites.
    pub fn optimize_bytecode(&self, bytecode: &[u8]) -> (r: Result<Vec<u8>, String>)
        ensures
            r matches Ok(v) && v@ == optimize_spec(bytecode@, self.gas_optimization),
    {
        self.gas_optimization.optimize(bytecode)
    }
}

} // verus!
