use vstd::prelude::*;

verus! {

/// What the indexer is asked to do.
#[derive(Clone, Copy, Debug, PartialEq, Eq, Structural)]
pub enum Commands {
    /// Index the chain into the data directory; `reset` starts over, `dry` writes nothing.
    BuildDatabase { reset: bool, dry: bool },
    /// Rebuild the ranked indexes from what is stored.
    UpdateIndexes,
}

/// The command line: a command, the data directory and the execution node's address.
pub struct Cli {
    pub command: Commands,
    pub base_dir: String,
    pub execution_node_url: String,
}

} // verus!
