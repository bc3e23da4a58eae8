//! The envelope of every command's output: `ok`, the command's data, and
//! metadata naming the contract version and the journal file.

use vstd::prelude::*;

verus! {

/// The version of the machine contract that `schema` documents.
pub const CONTRACT_VERSION: u32 = 1;

/// Metadata of an output envelope.
pub struct Meta {
    pub contract: u32,
    pub file: String,
}

/// A successful output: `ok` holds, then the data and the metadata.
pub struct Envelope<T> {
    pub ok: bool,
    pub data: T,
    pub meta: Meta,
}

impl<T> Envelope<T> {
    /// The successful envelope of `data` for the journal `file`.
    pub fn success(data: T, file: String) -> (res: Envelope<T>)
        ensures
            res.ok,
            res.data == data,
            res.meta.contract == CONTRACT_VERSION,
            res.meta.file == file,
    {
        Envelope { ok: true, data, meta: Meta { contract: CONTRACT_VERSION, file } }
    }
}

} // verus!
