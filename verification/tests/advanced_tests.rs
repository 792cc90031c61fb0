use evm_rust::advanced::{AdvancedEVM, ContractAnalyzer, GasOptimization, PerformanceMonitor};
use evm_rust::bytes::Bytes;
use evm_rust::executor::ExecutionResult;

#[test]
fn test_gas_optimization() {
    let optimizer = GasOptimization::new();
    let bytecode = vec![0x60, 0x02, 0x60, 0x03, 0x01];
    let optimized = optimizer.optimize(&bytecode).unwrap();
    assert!(!optimized.is_empty());
}

#[test]
fn test_constant_folding_adds_immediates() {
    let optimizer = GasOptimization::new();
    // PUSH1 2, PUSH1 3, ADD, STOP folds to PUSH1 5, STOP.
    let optimized = optimizer.optimize(&[0x60, 0x02, 0x60, 0x03, 0x01, 0x00]).unwrap();
    assert_eq!(optimized, vec![0x60, 0x05, 0x00]);
}

#[test]
fn test_performance_monitor() {
    let mut monitor = PerformanceMonitor::new();
    let result = monitor.record(
        1,
        &ExecutionResult {
            success: true,
            gas_used: 100,
            gas_remaining: 900,
            return_data: Bytes::empty(),
            logs: vec![],
        },
    );

    assert!(result.execution_time_us > 0);
    assert_eq!(result.gas_consumed, 100);
}

#[test]
fn test_analyzer_counts_and_selectors() {
    let analyzer = ContractAnalyzer::new();
    let bytecode = vec![0x63, 0xa9, 0x05, 0x9c, 0xbb, 0x00];
    let selectors = analyzer.extract_function_selectors(&bytecode);
    assert_eq!(selectors, vec![[0xa9, 0x05, 0x9c, 0xbb]]);

    let freq = analyzer.analyze_opcode_frequency(&[0x01, 0x01, 0x00]);
    assert!(freq.iter().any(|(op, n)| *op == evm_rust::opcodes::Opcode::Add && *n == 2));

    // Two additions price flat at three each.
    assert_eq!(analyzer.estimate_gas_cost(&[0x01, 0x01]), 6);
    // A push skips its immediate: push (2) plus stop (0).
    assert_eq!(analyzer.estimate_gas_cost(&[0x60, 0x55, 0x00]), 2);
    assert_eq!(analyzer.detect_issues(&[0x55; 10]).len(), 1);
    // A dear byte hidden in a push immediate is not an instruction.
    assert_eq!(analyzer.detect_issues(&[0x60, 0x55, 0x00]).len(), 0);
}

#[test]
fn test_advanced_toolbox_optimizes() {
    let toolbox = AdvancedEVM::new();
    let out = toolbox.optimize_bytecode(&[0x60, 0x01, 0x00]).unwrap();
    assert_eq!(out, vec![0x60, 0x01, 0x00]);
}
