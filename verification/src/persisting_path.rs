use vstd::prelude::*;

use crate::text::{decimal, lemma_decimal_injective, push_decimal};
use crate::types::consolidated_block::BlockModelWithId;
use crate::types::consolidated_epoch::{EpochExtendedModelWithId, EpochModelWithId};
use crate::types::meta::{BlocksMeta, EpochsMeta, ValidatorsMeta};

verus! {

/// A value stored in a file of its own, at a path relative to the data directory.
pub trait PersistingPath {
    /// The relative path of the file.
    spec fn path_of(&self) -> Seq<char>;

    fn to_path(&self) -> (p: String)
        ensures
            p@ == self.path_of(),
    ;
}

/// `{prefix}{id}.msg`.
fn numbered_path(prefix: &str, id: u64) -> (p: String)
    ensures
        p@ == prefix@ + decimal(id as nat) + ".msg"@,
{
    let mut p = prefix.to_owned();
    push_decimal(&mut p, id);
    p.append(".msg");
    p
}

impl PersistingPath for EpochModelWithId {
    open spec fn path_of(&self) -> Seq<char> {
        "epochs/"@ + decimal(self.id as nat) + ".msg"@
    }

    fn to_path(&self) -> (p: String) {
        numbered_path("epochs/", self.id)
    }
}

impl PersistingPath for EpochExtendedModelWithId {
    open spec fn path_of(&self) -> Seq<char> {
        "epochs/e/"@ + decimal(self.id as nat) + ".msg"@
    }

    fn to_path(&self) -> (p: String) {
        numbered_path("epochs/e/", self.id)
    }
}

impl PersistingPath for BlockModelWithId {
    open spec fn path_of(&self) -> Seq<char> {
        "blocks/"@ + decimal(self.id as nat) + ".msg"@
    }

    fn to_path(&self) -> (p: String) {
        numbered_path("blocks/", self.id)
    }
}

impl PersistingPath for EpochsMeta {
    open spec fn path_of(&self) -> Seq<char> {
        "epochs/meta.msg"@
    }

    fn to_path(&self) -> (p: String) {
        String::from_str("epochs/meta.msg")
    }
}

impl PersistingPath for BlocksMeta {
    open spec fn path_of(&self) -> Seq<char> {
        "blocks/meta.msg"@
    }

    fn to_path(&self) -> (p: String) {
        String::from_str("blocks/meta.msg")
    }
}

impl PersistingPath for ValidatorsMeta {
    open spec fn path_of(&self) -> Seq<char> {
        "validators/meta.msg"@
    }

    fn to_path(&self) -> (p: String) {
        String::from_str("validators/meta.msg")
    }
}

} // verus!

verus! {

/// Each epoch row has a file of its own: rows of different epochs are stored at
/// different paths.
pub proof fn lemma_epoch_paths_distinct(a: EpochModelWithId, b: EpochModelWithId)
    requires
        a.id != b.id,
    ensures
        a.path_of() != b.path_of(),
{
    let pa = a.path_of();
    let pb = b.path_of();
    if pa == pb {
        let p = "epochs/"@;
        let q = ".msg"@;
        let da = decimal(a.id as nat);
        let db = decimal(b.id as nat);
        assert(pa == p + da + q);
        assert(pb == p + db + q);
        assert(da.len() == db.len());
        assert forall|i: int| 0 <= i < da.len() implies da[i] == db[i] by {
            assert(pa[p.len() + i] == da[i]);
            assert(pb[p.len() + i] == db[i]);
        }
        assert(da =~= db);
        lemma_decimal_injective(a.id as nat, b.id as nat);
    }
}

/// Each block row has a file of its own: rows of different slots are stored at
/// different paths.
pub proof fn lemma_block_paths_distinct(a: BlockModelWithId, b: BlockModelWithId)
    requires
        a.id != b.id,
    ensures
        a.path_of() != b.path_of(),
{
    let pa = a.path_of();
    let pb = b.path_of();
    if pa == pb {
        let p = "blocks/"@;
        let q = ".msg"@;
        let da = decimal(a.id as nat);
        let db = decimal(b.id as nat);
        assert(pa == p + da + q);
        assert(pb == p + db + q);
        assert(da.len() == db.len());
        assert forall|i: int| 0 <= i < da.len() implies da[i] == db[i] by {
            assert(pa[p.len() + i] == da[i]);
            assert(pb[p.len() + i] == db[i]);
        }
        assert(da =~= db);
        lemma_decimal_injective(a.id as nat, b.id as nat);
    }
}

} // verus!
