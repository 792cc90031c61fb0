use evm_rust::gas::GasMeter;

#[test]
fn test_gas_meter_creation() {
    let meter = GasMeter::new(1000);
    assert_eq!(meter.available(), 1000);
    assert_eq!(meter.limit(), 1000);
    assert_eq!(meter.used(), 0);
}

#[test]
fn test_gas_consumption() {
    let mut meter = GasMeter::new(1000);

    assert!(meter.consume(500).is_ok());
    assert_eq!(meter.available(), 500);
    assert_eq!(meter.used(), 500);

    assert!(meter.consume(300).is_ok());
    assert_eq!(meter.available(), 200);
    assert_eq!(meter.used(), 800);

    assert!(meter.consume(300).is_err());
}

#[test]
fn test_gas_refund() {
    let mut meter = GasMeter::new(1000);

    meter.consume(800).unwrap();
    assert_eq!(meter.used(), 800);

    meter.refund(500);
    assert_eq!(meter.available(), 600);
}

#[test]
fn test_memory_expansion_cost() {
    let meter = GasMeter::new(1000);

    let cost = meter.memory_expansion_cost(0, 32);
    assert_eq!(cost, 3);

    let cost = meter.memory_expansion_cost(32, 64);
    assert_eq!(cost, 3);
}

#[test]
fn test_keccak256_cost() {
    let meter = GasMeter::new(1000);

    let cost = meter.keccak256_cost(32);
    assert_eq!(cost, 30 + 6);

    let cost = meter.keccak256_cost(64);
    assert_eq!(cost, 30 + 12);
}

#[test]
fn test_gas_used_plus_remaining_is_limit() {
    let mut meter = GasMeter::new(12345);
    meter.consume(678).unwrap();
    meter.refund(100);
    assert_eq!(meter.used() + meter.available(), 12345);
}
