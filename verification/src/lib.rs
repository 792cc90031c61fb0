pub mod address;
pub mod advanced;
pub mod bigint;
pub mod block;
pub mod bytes;
pub mod crypto;
pub mod debug;
pub mod events;
pub mod executor;
pub mod gas;
pub mod hash;
pub mod hexstr;
pub mod memory;
pub mod numbytes;
pub mod opcodes;
pub mod stack;
pub mod storage;
pub mod tracing;
pub mod uint256;
pub mod validation;
