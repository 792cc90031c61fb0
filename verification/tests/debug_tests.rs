use evm_rust::debug::{DebugInfo, Debugger, GasAnalyzer};
use evm_rust::gas::GasMeter;
use evm_rust::memory::Memory;
use evm_rust::opcodes::Opcode;
use evm_rust::stack::Stack;

#[test]
fn test_debug_info_creation() {
    let stack = Stack::new();
    let memory = Memory::new();
    let gas_meter = GasMeter::new(1000);

    let info = DebugInfo::new(0, Opcode::Add, &stack, &memory, &gas_meter);

    assert_eq!(info.pc, 0);
    assert_eq!(info.opcode, Opcode::Add);
    assert_eq!(info.gas_remaining, 1000);
    assert_eq!(info.gas_used, 0);
}

#[test]
fn test_debugger_breakpoints() {
    let mut debugger = Debugger::new();

    debugger.add_breakpoint(100);
    debugger.add_breakpoint(200);

    assert!(debugger.should_break(100));
    assert!(debugger.should_break(200));
    assert!(!debugger.should_break(150));

    debugger.remove_breakpoint(100);
    assert!(!debugger.should_break(100));
    assert!(debugger.should_break(200));
}

#[test]
fn test_gas_analyzer() {
    let mut analyzer = GasAnalyzer::new();

    analyzer.record_gas_usage(Opcode::Add, 3);
    analyzer.record_gas_usage(Opcode::Add, 3);
    analyzer.record_gas_usage(Opcode::Mul, 5);

    let stats = analyzer.get_stats();
    assert_eq!(stats.total_gas, 11);

    let add_stats = stats.stats_for(Opcode::Add).unwrap();
    assert_eq!(add_stats.count, 2);
    assert_eq!(add_stats.total, 6);
    assert_eq!(add_stats.average, 3);
}
