use vstd::prelude::*;

use crate::network::request_attempts::RequestAttempts;
use crate::primitives::Hash256;
use crate::types::consolidated_block::ConsolidatedBlock;
use crate::types::consolidated_epoch::ConsolidatedEpoch;
use crate::types::consolidated_execution_layer_deposit::ConsolidatedExecutionLayerDeposit;

verus! {

/// What the index worker asks the persisting side to do.
pub enum Work {
    PersistIndexingState,
    PersistDepositFromExecutionLayer(ConsolidatedExecutionLayerDeposit),
    PersistBlock(ConsolidatedBlock),
    PersistEpoch(ConsolidatedEpoch),
    PersistBlockRequest(Hash256, RequestAttempts),
    PersistAllBlockRequests,
    PersistAllGoodPeers,
}

} // verus!
