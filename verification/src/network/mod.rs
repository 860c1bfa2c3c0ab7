pub mod augmented_network_service;
pub mod block_by_root_requests;
pub mod block_db;
pub mod block_range_request;
pub mod consensus_network;
pub mod event;
pub mod event_adapter;
pub mod peer_db;
pub mod persist_service;
pub mod request_attempts;
pub mod worker;
pub mod workers;
pub mod request_manager;
pub mod request_handler;
pub mod peers_manager;
pub mod execution_service;
pub mod persist_worker;
