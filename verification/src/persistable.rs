use vstd::prelude::*;

verus! {

/// A file to write: its path and its contents.
pub struct PersistedFile {
    pub path: String,
    pub bytes: Vec<u8>,
}

/// Why the files of a value could not be produced.
#[derive(Clone, Copy, Debug, PartialEq, Eq, Structural)]
pub enum PersistError {
    /// The MessagePack encoder failed.
    Encoding,
}

/// A value that is stored as files under a base directory.
pub trait Persistable: Sized {
    /// The files that store the value under `base_dir`.
    fn persist(self, base_dir: &str) -> Result<Vec<PersistedFile>, PersistError>;
}

} // verus!
