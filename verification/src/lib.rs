//! A content-addressable object store and tree-serialization library.
//!
//! Objects (blobs, trees, commits) are encoded into a canonical byte form
//! `"<kind> <length>\0<content>"`, identified by the digest of that form,
//! and stored compressed under a path derived from the hex digest.  This
//! crate holds the codec, the hash-chaining tree writer, and the store
//! path computation; reading directories and touching the disk are left
//! to the embedding program, which executes the plans and records these
//! functions return.

use vstd::prelude::*;

pub mod bytes;
pub mod clock;
pub mod commit;
pub mod compress;
pub mod decode;
pub mod digest;
pub mod digits;
pub mod error;
pub mod fields;
pub mod object;
pub mod store;
pub mod tree;

use crate::bytes::sub_vec;
use crate::compress::inflate_of;
use crate::decode::spec_from_bytes;
use crate::digest::{hex_bytes_of, hex_lower, sha1_of};
use crate::error::{GitErrV, GitError};
use crate::object::{content_enc, obj_enc, Object, ObjectV, TreeEntry, TreeEntryV};
use crate::store::{read_object, spec_record_of, StoreRecord};
use crate::tree::{spec_tree_hash, spec_tree_writes, tree_wf, Tree};

verus! {

/// The filesystem layout that initialization creates, relative to a root
/// directory: three directories and the single reference file.
pub struct InitPlan {
    pub dirs: Vec<&'static str>,
    pub head_file: &'static str,
    pub head_contents: &'static str,
}

/// Computes the layout that initialization must create: the `.git`,
/// `.git/objects`, and `.git/refs` directories, in that order, and the
/// `HEAD` file pointing at the master branch.
pub fn git_init() -> (r: InitPlan)
    ensures
        r.dirs@.len() == 3,
        r.dirs@[0]@ == ".git"@,
        r.dirs@[1]@ == ".git/objects"@,
        r.dirs@[2]@ == ".git/refs"@,
        r.head_file@ == ".git/HEAD"@,
        r.head_contents@ == "ref: refs/heads/master\n"@,
{
    let mut dirs: Vec<&'static str> = Vec::new();
    dirs.push(".git");
    dirs.push(".git/objects");
    dirs.push(".git/refs");
    InitPlan { dirs, head_file: ".git/HEAD", head_contents: "ref: refs/heads/master\n" }
}

/// What printing a stored object yields once its bytes are decompressed:
/// the object's content bytes.  A stored tag has no modeled content, so
/// asking for it is a kind mismatch.
pub open spec fn spec_cat_file(raw: Seq<u8>) -> Result<Seq<u8>, GitErrV> {
    match spec_from_bytes(raw) {
        Ok(o) => if o is Tag {
            Err(GitErrV::TypeMismatch)
        } else {
            Ok(content_enc(o))
        },
        Err(e) => Err(e),
    }
}

/// Decodes one object's canonical bytes and returns its content bytes.
pub fn cat_object_bytes(raw: &[u8]) -> (r: Result<Vec<u8>, GitError>)
    ensures
        match r {
            Ok(v) => spec_cat_file(raw@) == Ok::<Seq<u8>, GitErrV>(v@),
            Err(e) => spec_cat_file(raw@) == Err::<Seq<u8>, GitErrV>(e@),
        },
{
    let obj = match Object::from_bytes(raw) {
        Ok(o) => o,
        Err(e) => {
            return Err(e);
        },
    };
    match obj {
        Object::Tag => Err(GitError::TypeMismatch),
        o => Ok(o.content_bytes()),
    }
}

/// Decompresses and decodes one stored object and returns its content
/// bytes: the decompressed form decides the outcome exactly, and bytes
/// that are no valid stream are a collaborator failure.
pub fn git_cat_file(compressed: &[u8]) -> (r: Result<Vec<u8>, GitError>)
    ensures
        match r {
            Ok(v) => inflate_of(compressed@) matches Some(raw) && spec_cat_file(raw) == Ok::<
                Seq<u8>,
                GitErrV,
            >(v@),
            Err(e) => match inflate_of(compressed@) {
                Some(raw) => spec_cat_file(raw) == Err::<Seq<u8>, GitErrV>(e@),
                None => e@ is IOFailure,
            },
        },
{
    let raw = match read_object(compressed) {
        Ok(v) => v,
        Err(e) => {
            return Err(e);
        },
    };
    cat_object_bytes(raw.as_slice())
}

/// Hashes a file's content as a blob object and computes its store
/// record.  Returns the 40-character hex hash and the record.
pub fn git_hash_object(content: Vec<u8>) -> (r: (Vec<u8>, StoreRecord))
    ensures
        ({
            let enc = obj_enc(ObjectV::Blob(content@));
            r.0@ == hex_bytes_of(sha1_of(enc)) && r.1@ == spec_record_of(enc)
        }),
        r.0@.len() == 40,
{
    let blob = Object::Blob(content);
    let h = blob.hash();
    let hex = hex_lower(h.as_slice());
    proof {
        crate::digest::lemma_hex_len(h@);
    }
    let rec = blob.write();
    (hex, rec)
}

/// The names a stored tree object lists, in stored order.  A stored
/// object of any other kind is a kind mismatch, never an empty listing.
pub open spec fn spec_ls_tree(raw: Seq<u8>) -> Result<Seq<Seq<u8>>, GitErrV> {
    match spec_from_bytes(raw) {
        Ok(ObjectV::Tree(es)) => Ok(es.map_values(|e: TreeEntryV| e.name)),
        Ok(_) => Err(GitErrV::TypeMismatch),
        Err(e) => Err(e),
    }
}

/// Decodes one object's canonical bytes, which must be a tree object, and
/// returns its entries' names in stored order.
pub fn ls_tree_bytes(raw: &[u8]) -> (r: Result<Vec<Vec<u8>>, GitError>)
    ensures
        match r {
            Ok(names) => spec_ls_tree(raw@) == Ok::<Seq<Seq<u8>>, GitErrV>(
                names@.map_values(|n: Vec<u8>| n@),
            ),
            Err(e) => spec_ls_tree(raw@) == Err::<Seq<Seq<u8>>, GitErrV>(e@),
        },
{
    let obj = match Object::from_bytes(raw) {
        Ok(o) => o,
        Err(e) => {
            return Err(e);
        },
    };
    let entries = match obj {
        Object::Tree(es) => es,
        _ => {
            return Err(GitError::TypeMismatch);
        },
    };
    let ghost target = entries@.map_values(|e: TreeEntry| e@).map_values(
        |ev: TreeEntryV| ev.name,
    );
    let mut names: Vec<Vec<u8>> = Vec::new();
    let mut i: usize = 0;
    proof {
        assert(names@.map_values(|n: Vec<u8>| n@) =~= target.take(0));
    }
    while i < entries.len()
        invariant
            0 <= i <= entries@.len(),
            target == entries@.map_values(|e: TreeEntry| e@).map_values(|ev: TreeEntryV| ev.name),
            names@.map_values(|n: Vec<u8>| n@) == target.take(i as int),
        decreases entries@.len() - i,
    {
        let name = sub_vec(entries[i].name.as_slice(), 0, entries[i].name.len());
        let ghost before = names@.map_values(|n: Vec<u8>| n@);
        names.push(name);
        proof {
            assert(name@ =~= entries@[i as int].name@);
            assert(names@.map_values(|n: Vec<u8>| n@) =~= before.push(name@));
            assert(target.take(i + 1) =~= before.push(name@));
        }
        i = i + 1;
    }
    proof {
        assert(target.take(target.len() as int) =~= target);
    }
    Ok(names)
}

/// Decompresses and decodes one stored object, which must be a tree, and
/// returns its entries' names in stored order: the decompressed form
/// decides the outcome exactly, and bytes that are no valid stream are a
/// collaborator failure.
pub fn git_ls_tree(compressed: &[u8]) -> (r: Result<Vec<Vec<u8>>, GitError>)
    ensures
        match r {
            Ok(names) => inflate_of(compressed@) matches Some(raw) && spec_ls_tree(raw) == Ok::<
                Seq<Seq<u8>>,
                GitErrV,
            >(names@.map_values(|n: Vec<u8>| n@)),
            Err(e) => match inflate_of(compressed@) {
                Some(raw) => spec_ls_tree(raw) == Err::<Seq<Seq<u8>>, GitErrV>(e@),
                None => e@ is IOFailure,
            },
        },
{
    let raw = match read_object(compressed) {
        Ok(v) => v,
        Err(e) => {
            return Err(e);
        },
    };
    ls_tree_bytes(raw.as_slice())
}

/// Persists a directory snapshot and every object under it; returns the
/// root tree's 40-character hex hash and the records to write, children
/// always before their parent tree.
pub fn git_write_tree(tree: &Tree) -> (r: (Vec<u8>, Vec<StoreRecord>))
    requires
        tree_wf(*tree),
    ensures
        r.1@.map_values(|x: StoreRecord| x@) == spec_tree_writes(*tree),
        r.0@ == hex_bytes_of(spec_tree_hash(*tree)),
        r.0@.len() == 40,
{
    let mut out: Vec<StoreRecord> = Vec::new();
    proof {
        assert(out@.map_values(|x: StoreRecord| x@) =~= Seq::<crate::store::StoreRecordV>::empty());
    }
    let h = tree.write(&mut out);
    let hex = hex_lower(h.as_slice());
    proof {
        crate::digest::lemma_hex_len(h@);
        assert(Seq::<crate::store::StoreRecordV>::empty() + spec_tree_writes(*tree)
            =~= spec_tree_writes(*tree));
    }
    (hex, out)
}

} // verus!

