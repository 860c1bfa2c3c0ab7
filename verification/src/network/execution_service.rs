use vstd::prelude::*;

verus! {

/// How many blocks of the execution chain one query of deposit logs covers.
pub const DEPOSIT_BLOCKS_PER_QUERY: u64 = 1000;

/// Where the reading of deposit logs stands: the first block of the next query.
pub struct DepositCursor {
    pub current_deposit_block: u64,
}

impl DepositCursor {
    /// The blocks that the next query covers, as a half-open range.
    pub open spec fn spec_range(self) -> (int, int) {
        (self.current_deposit_block as int, self.current_deposit_block + DEPOSIT_BLOCKS_PER_QUERY)
    }

    /// The cursor after a query that succeeded or failed.
    pub open spec fn after(self, succeeded: bool) -> DepositCursor {
        if succeeded {
            DepositCursor {
                current_deposit_block: (self.current_deposit_block + DEPOSIT_BLOCKS_PER_QUERY) as u64,
            }
        } else {
            self
        }
    }

    /// Starts at the block where the deposit contract was deployed.
    pub fn new(deposit_contract_deploy_block: u64) -> (c: Self)
        ensures
            c.current_deposit_block == deposit_contract_deploy_block,
    {
        DepositCursor { current_deposit_block: deposit_contract_deploy_block }
    }

    /// The blocks of the next query: from the current block, `DEPOSIT_BLOCKS_PER_QUERY` of them.
    pub fn range(&self) -> (r: (u64, u64))
        requires
            self.current_deposit_block + DEPOSIT_BLOCKS_PER_QUERY <= u64::MAX,
        ensures
            r.0 == self.spec_range().0,
            r.1 == self.spec_range().1,
    {
        (self.current_deposit_block, self.current_deposit_block + DEPOSIT_BLOCKS_PER_QUERY)
    }

    /// After a query: a success moves on to the next blocks, a failure asks the same again.
    pub fn on_result(&mut self, succeeded: bool)
        requires
            old(self).current_deposit_block + DEPOSIT_BLOCKS_PER_QUERY <= u64::MAX,
        ensures
            *final(self) == old(self).after(succeeded),
    {
        if succeeded {
            self.current_deposit_block = self.current_deposit_block + DEPOSIT_BLOCKS_PER_QUERY;
        }
    }
}

/// The queries cover the execution chain without gap or overlap: after a success the next
/// query starts where the last one ended, and after a failure the same blocks are asked again.
pub proof fn lemma_queries_contiguous(c: DepositCursor, succeeded: bool)
    requires
        c.current_deposit_block + DEPOSIT_BLOCKS_PER_QUERY <= u64::MAX,
    ensures
        succeeded ==> c.after(succeeded).spec_range().0 == c.spec_range().1,
        !succeeded ==> c.after(succeeded).spec_range() == c.spec_range(),
{
}

} // verus!
