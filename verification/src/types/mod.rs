pub mod clock;
pub mod consolidated_block;
pub mod consolidated_epoch;
pub mod consolidated_execution_layer_deposit;
pub mod meta;
pub mod model;
pub mod consolidated_validator;
pub mod consolidated_deposits;
