use evm_rust::address::Address;
use evm_rust::bytes::Bytes;
use evm_rust::events::{EventLog, EventLogger, LogReceipt};

#[test]
fn test_event_log_creation() {
    let address = Address::zero();
    let topics = vec![evm_rust::hash::Hash::zero()];
    let data = Bytes::from(b"test data".to_vec());

    let log = EventLog::new(address, topics.clone(), data.clone());

    assert_eq!(log.address, address);
    assert_eq!(log.topics, topics);
    assert_eq!(log.data, data);
}

#[test]
fn test_event_logger() {
    let mut logger = EventLogger::new();

    let address = Address::zero();
    let topics = vec![evm_rust::hash::Hash::zero()];
    let data = Bytes::from(b"test".to_vec());

    logger.log(address, topics, data);

    assert_eq!(logger.count(), 1);
    assert_eq!(logger.logs().len(), 1);
}

#[test]
fn test_log_receipt() {
    let logs = vec![];
    let receipt = LogReceipt::new(true, 1000, 500, Bytes::empty(), logs);

    assert!(receipt.success);
    assert_eq!(receipt.gas_used, 1000);
    assert_eq!(receipt.gas_remaining, 500);
}

#[test]
fn test_logs_filtered_by_address() {
    let mut logger = EventLogger::new();
    let a = Address::new([1u8; 20]);
    let b = Address::new([2u8; 20]);
    logger.log(a, vec![], Bytes::empty());
    logger.log(b, vec![], Bytes::empty());
    logger.log(a, vec![], Bytes::empty());

    assert_eq!(logger.logs_for_address(&a).len(), 2);
    assert_eq!(logger.logs_for_address(&b).len(), 1);
}

#[test]
fn test_logs_filtered_by_topic() {
    let mut logger = EventLogger::new();
    let t = evm_rust::hash::Hash::new([9u8; 32]);
    logger.log(Address::zero(), vec![t], Bytes::empty());
    logger.log(Address::zero(), vec![], Bytes::empty());

    assert_eq!(logger.logs_with_topic(&t).len(), 1);
    assert_eq!(logger.logs_with_topic(&evm_rust::hash::Hash::zero()).len(), 0);
}
