pub mod index_worker;
pub mod persist_block_worker;
pub mod persist_validator_worker;
