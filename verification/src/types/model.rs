use vstd::prelude::*;

use crate::text::{decimal, u64_to_string};
use crate::types::consolidated_block::BlockModelWithId;
use crate::types::consolidated_epoch::EpochModelWithId;
use crate::types::meta::{BlocksMeta, EpochsMeta, ValidatorsMeta};

verus! {

/// A stored record: the directory of its table and its name in it.
pub trait Model {
    spec fn id_of(&self) -> Seq<char>;

    spec fn path_name() -> Seq<char>;

    fn get_id(&self) -> (id: String)
        ensures
            id@ == self.id_of(),
    ;

    fn get_path() -> (p: &'static str)
        ensures
            p@ == Self::path_name(),
    ;
}

impl Model for EpochModelWithId {
    open spec fn id_of(&self) -> Seq<char> {
        decimal(self.id as nat)
    }

    open spec fn path_name() -> Seq<char> {
        "epochs"@
    }

    fn get_id(&self) -> (id: String) {
        u64_to_string(self.id)
    }

    fn get_path() -> (p: &'static str) {
        "epochs"
    }
}

impl Model for BlockModelWithId {
    open spec fn id_of(&self) -> Seq<char> {
        decimal(self.id as nat)
    }

    open spec fn path_name() -> Seq<char> {
        "blocks"@
    }

    fn get_id(&self) -> (id: String) {
        u64_to_string(self.id)
    }

    fn get_path() -> (p: &'static str) {
        "blocks"
    }
}

impl Model for EpochsMeta {
    open spec fn id_of(&self) -> Seq<char> {
        "meta"@
    }

    open spec fn path_name() -> Seq<char> {
        "epochs"@
    }

    fn get_id(&self) -> (id: String) {
        String::from_str("meta")
    }

    fn get_path() -> (p: &'static str) {
        "epochs"
    }
}

impl Model for BlocksMeta {
    open spec fn id_of(&self) -> Seq<char> {
        "meta"@
    }

    open spec fn path_name() -> Seq<char> {
        "blocks"@
    }

    fn get_id(&self) -> (id: String) {
        String::from_str("meta")
    }

    fn get_path() -> (p: &'static str) {
        "blocks"
    }
}

impl Model for ValidatorsMeta {
    open spec fn id_of(&self) -> Seq<char> {
        "meta"@
    }

    open spec fn path_name() -> Seq<char> {
        "validators"@
    }

    fn get_id(&self) -> (id: String) {
        String::from_str("meta")
    }

    fn get_path() -> (p: &'static str) {
        "validators"
    }
}

} // verus!
