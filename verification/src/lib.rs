pub mod assoc;
pub mod block_state;
pub mod network;
pub mod primitives;
pub mod root_set;
pub mod text;
pub mod types;
pub mod work;
pub mod workers;
pub mod msgpack;
pub mod orderable;
pub mod ord_epoch;
pub mod persistable;
pub mod persistable_fields;
pub mod persistable_binary_heap;
pub mod persistable_collection;
pub mod persisting_path;
pub mod cli;
pub mod node_to_files_indexer;
