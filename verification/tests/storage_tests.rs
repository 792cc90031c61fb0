use evm_rust::address::Address;
use evm_rust::storage::Storage;
use evm_rust::uint256::Uint256;

#[test]
fn test_account_creation() {
    let mut storage = Storage::new();
    let address = Address::zero();

    let balance = storage.get_balance(&address);
    assert_eq!(balance, Uint256::zero());

    storage.set_balance(address, Uint256::from_u32(1000));
    assert_eq!(storage.get_balance(&address), Uint256::from_u32(1000));
}

#[test]
fn test_account_balance_operations() {
    let mut storage = Storage::new();
    let address = Address::zero();

    storage.add_balance(address, Uint256::from_u32(500));
    assert_eq!(storage.get_balance(&address), Uint256::from_u32(500));

    storage.sub_balance(&address, Uint256::from_u32(200)).unwrap();
    assert_eq!(storage.get_balance(&address), Uint256::from_u32(300));

    match storage.sub_balance(&address, Uint256::from_u32(400)) {
        Err(evm_rust::storage::StorageError::InsufficientBalance { required, available }) => {
            assert_eq!(required, Uint256::from_u32(400));
            assert_eq!(available, Uint256::from_u32(300));
        }
        other => panic!("expected an insufficient-balance error, got {:?}", other),
    }
}

#[test]
fn test_account_nonce() {
    let mut storage = Storage::new();
    let address = Address::zero();

    assert_eq!(storage.get_nonce(&address), Uint256::zero());

    storage.increment_nonce(address);
    assert_eq!(storage.get_nonce(&address), Uint256::one());
}

#[test]
fn test_account_storage() {
    let mut storage = Storage::new();
    let address = Address::zero();
    let key = Uint256::from_u32(42);
    let value = Uint256::from_u32(123);

    assert_eq!(storage.get_storage(&address, &key), Uint256::zero());

    storage.set_storage(address, key, value);
    assert_eq!(storage.get_storage(&address, &key), value);

    storage.set_storage(address, key, Uint256::zero());
    assert_eq!(storage.get_storage(&address, &key), Uint256::zero());
}

#[test]
fn test_contract_account() {
    let mut storage = Storage::new();
    let address = Address::zero();
    let code = b"contract code".to_vec();

    storage.set_code(address, code.clone());

    let account = storage.get_account(&address).unwrap();
    assert!(account.is_contract());
    assert_eq!(account.code, code);
    assert_ne!(account.code_hash(), evm_rust::hash::Hash::zero());
}

#[test]
fn test_storage_clear_removes_key() {
    let mut storage = Storage::new();
    let address = Address::new([7u8; 20]);
    let key = Uint256::from_u32(1);

    storage.set_storage(address, key, Uint256::from_u32(99));
    storage.set_storage(address, key, Uint256::zero());

    assert_eq!(storage.get_storage(&address, &key), Uint256::zero());
    let account = storage.get_account(&address).unwrap();
    assert!(account.storage.iter().all(|(k, _)| *k != key));
}
