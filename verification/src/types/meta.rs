use vstd::prelude::*;

use crate::persisting_path::PersistingPath;

verus! {

/// The record of how many epochs are stored.
#[derive(Clone, Copy, Debug, PartialEq, Eq, Structural)]
pub struct EpochsMeta {
    pub count: u64,
}

/// The record of how many blocks (slots) are stored.
#[derive(Clone, Copy, Debug, PartialEq, Eq, Structural)]
pub struct BlocksMeta {
    pub count: u64,
}

/// The record of how many validators are stored.
#[derive(Clone, Copy, Debug, PartialEq, Eq, Structural)]
pub struct ValidatorsMeta {
    pub count: u64,
}

/// The record of how many block requests are stored.
#[derive(Clone, Copy, Debug, PartialEq, Eq, Structural)]
pub struct BlockRequestsMeta {
    pub count: u64,
}

/// The record of how many good peers are stored.
#[derive(Clone, Copy, Debug, PartialEq, Eq, Structural)]
pub struct GoodPeersMeta {
    pub count: u64,
}

impl BlockRequestsMeta {
    pub fn new(count: u64) -> (m: Self)
        ensures
            m.count == count,
    {
        BlockRequestsMeta { count }
    }
}

impl GoodPeersMeta {
    pub fn new(count: u64) -> (m: Self)
        ensures
            m.count == count,
    {
        GoodPeersMeta { count }
    }
}

impl EpochsMeta {
    pub fn new(count: u64) -> (m: Self)
        ensures
            m.count == count,
    {
        EpochsMeta { count }
    }
}

impl BlocksMeta {
    pub fn new(count: u64) -> (m: Self)
        ensures
            m.count == count,
    {
        BlocksMeta { count }
    }
}

impl ValidatorsMeta {
    pub fn new(count: u64) -> (m: Self)
        ensures
            m.count == count,
    {
        ValidatorsMeta { count }
    }
}

/// The summary record of a table, stored beside its rows.
pub trait Meta: PersistingPath {
}

impl Meta for EpochsMeta {
}

impl Meta for BlocksMeta {
}

impl Meta for ValidatorsMeta {
}

} // verus!
