pub mod block_by_root_requests_worker;
pub mod block_range_request_worker;
pub mod persist_existing_block_worker;
pub mod persist_epoch_worker;
