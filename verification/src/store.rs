//! The object store's computational half: where an object lands, what
//! bytes are written there, and how stored bytes are read back.

use vstd::prelude::*;

use crate::bytes::sub_vec;
use crate::compress::{deflate_of, inflate_of, zlib_compress, zlib_decompress};
use crate::digest::{hex_bytes_of, hex_lower, lemma_hex_len, sha1_digest, sha1_of};
use crate::error::GitError;
use crate::object::{obj_enc, Object};

verus! {

/// One compressed object, addressed by its hex digest: the two-character
/// directory, the 38-character file name under it, and the file's bytes.
pub struct StoreRecord {
    pub dir: Vec<u8>,
    pub name: Vec<u8>,
    pub data: Vec<u8>,
}

/// Mathematical image of a store record.
pub struct StoreRecordV {
    pub dir: Seq<u8>,
    pub name: Seq<u8>,
    pub data: Seq<u8>,
}

impl View for StoreRecord {
    type V = StoreRecordV;

    open spec fn view(&self) -> StoreRecordV {
        StoreRecordV { dir: self.dir@, name: self.name@, data: self.data@ }
    }
}

/// The record that persists a canonical byte form: the path splits the
/// 40-character hex digest after two characters, and the data is the
/// compressed form.
pub open spec fn spec_record_of(enc: Seq<u8>) -> StoreRecordV {
    StoreRecordV {
        dir: hex_bytes_of(sha1_of(enc)).take(2),
        name: hex_bytes_of(sha1_of(enc)).skip(2),
        data: deflate_of(enc),
    }
}

impl Object {
    /// The 20-byte content hash: the digest of the canonical byte form,
    /// header included.
    pub fn hash(&self) -> (r: Vec<u8>)
        requires
            !(self@ is Tag),
        ensures
            r@ == sha1_of(obj_enc(self@)),
            r@.len() == 20,
    {
        let bytes = self.to_bytes();
        sha1_digest(bytes.as_slice())
    }

    /// Computes where this object is persisted and the compressed bytes
    /// that land there: a two-character directory, a 38-character file
    /// name, and data that decompresses back to the canonical form.
    pub fn write(&self) -> (r: StoreRecord)
        requires
            !(self@ is Tag),
        ensures
            r@ == spec_record_of(obj_enc(self@)),
            r@.dir.len() == 2,
            r@.name.len() == 38,
            inflate_of(r@.data) == Some(obj_enc(self@)),
    {
        let bytes = self.to_bytes();
        let h = sha1_digest(bytes.as_slice());
        let hx = hex_lower(h.as_slice());
        proof {
            lemma_hex_len(h@);
        }
        let dir = sub_vec(hx.as_slice(), 0, 2);
        let name = sub_vec(hx.as_slice(), 2, hx.len());
        let data = zlib_compress(bytes.as_slice());
        proof {
            assert(dir@ =~= hex_bytes_of(sha1_of(obj_enc(self@))).take(2));
            assert(name@ =~= hex_bytes_of(sha1_of(obj_enc(self@))).skip(2));
        }
        StoreRecord { dir, name, data }
    }
}

/// Decompresses the stored bytes of one object back into its canonical
/// byte form.  A compression-stream failure is a collaborator failure,
/// and comes exactly when the bytes are no valid stream, so reading back
/// what `write` produced always succeeds.
pub fn read_object(compressed: &[u8]) -> (r: Result<Vec<u8>, GitError>)
    ensures
        match r {
            Ok(v) => inflate_of(compressed@) == Some(v@),
            Err(e) => e@ is IOFailure && inflate_of(compressed@) is None,
        },
{
    match zlib_decompress(compressed) {
        Ok(v) => Ok(v),
        Err(_) => Err(GitError::IOFailure),
    }
}

/// Splits a hex digest into the store's directory (its first two
/// characters) and file name (the rest); a digest too short to name a
/// file yields nothing.
pub fn split_hash(hex: &[u8]) -> (r: Option<(Vec<u8>, Vec<u8>)>)
    ensures
        match r {
            Some((d, n)) => hex@.len() > 2 && d@ == hex@.take(2) && n@ == hex@.skip(2),
            None => hex@.len() <= 2,
        },
{
    if hex.len() <= 2 {
        return None;
    }
    let dir = sub_vec(hex, 0, 2);
    let name = sub_vec(hex, 2, hex.len());
    proof {
        assert(dir@ =~= hex@.take(2));
        assert(name@ =~= hex@.skip(2));
    }
    Some((dir, name))
}

/// Hash determinism: objects of equal logical value have byte-identical
/// canonical forms and therefore identical digests.
pub proof fn lemma_hash_deterministic(a: Object, b: Object)
    requires
        a@ == b@,
    ensures
        obj_enc(a@) == obj_enc(b@),
        sha1_of(obj_enc(a@)) == sha1_of(obj_enc(b@)),
{
}

/// Idempotent writes: the store path and the written bytes are functions
/// of the canonical form alone, so persisting objects of equal logical
/// value lands the same bytes at the same path both times.
pub proof fn lemma_write_idempotent(a: Object, b: Object)
    requires
        a@ == b@,
    ensures
        spec_record_of(obj_enc(a@)) == spec_record_of(obj_enc(b@)),
{
}

} // verus!
