use evm_rust::opcodes::Opcode;
use evm_rust::tracing::{ExecutionStep, ExecutionTrace, ExecutionTracer};
use evm_rust::uint256::Uint256;

#[test]
fn test_execution_step_creation() {
    let step = ExecutionStep::new(
        0,
        Opcode::Add,
        vec![Uint256::from_u32(2), Uint256::from_u32(3)],
        vec![Uint256::from_u32(5)],
        3,
        97,
        0,
    );

    assert_eq!(step.pc, 0);
    assert_eq!(step.opcode, Opcode::Add);
    assert_eq!(step.stack_difference(), -1);
    assert!(!step.modified_storage());
    assert!(!step.modified_memory());
}

#[test]
fn test_execution_trace() {
    let mut trace = ExecutionTrace::new();

    let step1 = ExecutionStep::new(0, Opcode::Push1, vec![], vec![Uint256::from_u32(1)], 3, 97, 0);
    let step2 = ExecutionStep::new(
        1,
        Opcode::Add,
        vec![Uint256::from_u32(1)],
        vec![Uint256::from_u32(2)],
        3,
        94,
        0,
    );

    trace.add_step(step1);
    trace.add_step(step2);
    trace.finalize(true, 6, 1000);

    assert_eq!(trace.steps.len(), 2);
    assert_eq!(trace.opcode_count, 2);
    assert!(trace.success);
}

#[test]
fn test_execution_tracer() {
    let mut tracer = ExecutionTracer::new();

    tracer.start_step(0, Opcode::Push1, vec![], 100, 0);
    tracer.end_step(vec![Uint256::from_u32(1)], 3, 97);

    let trace = tracer.finalize(true, 3, 0);
    assert_eq!(trace.steps.len(), 1);
    assert_eq!(trace.steps[0].opcode, Opcode::Push1);
}

#[test]
fn test_step_filters() {
    let mut trace = ExecutionTrace::new();
    let mut touched = ExecutionStep::new(0, Opcode::Sstore, vec![], vec![], 5000, 100, 0);
    touched.add_storage_change(Uint256::from_u32(1), Uint256::zero(), Uint256::from_u32(9));
    let plain = ExecutionStep::new(1, Opcode::Add, vec![], vec![], 3, 97, 0);
    trace.add_step(touched);
    trace.add_step(plain);

    assert_eq!(trace.storage_modifying_steps().len(), 1);
    assert_eq!(trace.memory_modifying_steps().len(), 0);
    assert_eq!(trace.failed_steps().len(), 0);
}
