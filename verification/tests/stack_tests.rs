use evm_rust::stack::Stack;
use evm_rust::uint256::Uint256;

#[test]
fn test_stack_push_pop() {
    let mut stack = Stack::new();
    let value = Uint256::from_u32(42);

    assert!(stack.push(value).is_ok());
    assert_eq!(stack.size(), 1);
    assert_eq!(stack.pop().unwrap(), value);
    assert!(stack.is_empty());
}

#[test]
fn test_stack_overflow() {
    let mut stack = Stack::with_max_size(2);

    assert!(stack.push(Uint256::from_u32(1)).is_ok());
    assert!(stack.push(Uint256::from_u32(2)).is_ok());
    assert!(stack.push(Uint256::from_u32(3)).is_err());
}

#[test]
fn test_stack_underflow() {
    let mut stack = Stack::new();
    assert!(stack.pop().is_err());
    assert!(stack.peek().is_err());
}

#[test]
fn test_stack_dup() {
    let mut stack = Stack::new();
    let value1 = Uint256::from_u32(1);
    let value2 = Uint256::from_u32(2);

    stack.push(value1).unwrap();
    stack.push(value2).unwrap();

    stack.dup(0).unwrap();
    assert_eq!(stack.size(), 3);
    assert_eq!(stack.pop().unwrap(), value2);
    assert_eq!(stack.pop().unwrap(), value2);
    assert_eq!(stack.pop().unwrap(), value1);
}

#[test]
fn test_stack_swap() {
    let mut stack = Stack::new();
    let value1 = Uint256::from_u32(1);
    let value2 = Uint256::from_u32(2);
    let value3 = Uint256::from_u32(3);

    stack.push(value1).unwrap();
    stack.push(value2).unwrap();
    stack.push(value3).unwrap();

    stack.swap(1).unwrap();
    assert_eq!(stack.pop().unwrap(), value2);
    assert_eq!(stack.pop().unwrap(), value3);
    assert_eq!(stack.pop().unwrap(), value1);
}

#[test]
fn test_stack_push_pop_balance() {
    let mut stack = Stack::new();
    stack.push(Uint256::from_u32(7)).unwrap();
    let start = stack.size();
    for i in 0..10u32 {
        stack.push(Uint256::from_u32(i)).unwrap();
    }
    for _ in 0..10 {
        stack.pop().unwrap();
    }
    assert_eq!(stack.size(), start);
    assert_eq!(stack.pop().unwrap(), Uint256::from_u32(7));
}
