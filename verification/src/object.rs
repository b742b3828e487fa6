//! The object model and its canonical byte encoding.
//!
//! An object is a blob, a commit, a tag, or a tree of entries; its
//! canonical form is `"<kind> <content-length>\0<content-bytes>"`, and two
//! objects are identical exactly when those forms are byte-identical.

use vstd::prelude::*;

use crate::bytes::{extend_bytes, sub_vec};
use crate::digits::{dec_digits, u64_to_dec};

verus! {

/// One record of a tree object: a mode, a name, and the 20-byte hash of
/// the child object.
pub struct TreeEntry {
    pub mode: usize,
    pub name: Vec<u8>,
    pub hash: Vec<u8>,
}

/// Mathematical image of a tree entry.
pub struct TreeEntryV {
    pub mode: nat,
    pub name: Seq<u8>,
    pub hash: Seq<u8>,
}

impl View for TreeEntry {
    type V = TreeEntryV;

    open spec fn view(&self) -> TreeEntryV {
        TreeEntryV { mode: self.mode as nat, name: self.name@, hash: self.hash@ }
    }
}

/// An immutable, hash-addressed unit of stored data.
pub enum Object {
    /// A single file's raw content.
    Blob(Vec<u8>),
    /// A fully formatted commit body, opaque once assembled.
    Commit(Vec<u8>),
    /// Recognized but not modeled; it cannot be re-encoded.
    Tag,
    /// A directory snapshot: an ordered sequence of entries.
    Tree(Vec<TreeEntry>),
}

/// Mathematical image of an object.
pub enum ObjectV {
    Blob(Seq<u8>),
    Commit(Seq<u8>),
    Tag,
    Tree(Seq<TreeEntryV>),
}

impl View for Object {
    type V = ObjectV;

    open spec fn view(&self) -> ObjectV {
        match self {
            Object::Blob(c) => ObjectV::Blob(c@),
            Object::Commit(c) => ObjectV::Commit(c@),
            Object::Tag => ObjectV::Tag,
            Object::Tree(es) => ObjectV::Tree(es@.map_values(|e: TreeEntry| e@)),
        }
    }
}

/// Byte encoding of one tree entry: `"<mode-decimal> <name>\0"` followed
/// by the 20 raw hash bytes.
pub open spec fn entry_enc(e: TreeEntryV) -> Seq<u8> {
    dec_digits(e.mode) + seq![32u8] + e.name + seq![0u8] + e.hash
}

/// Content of a tree object: the entries' encodings, concatenated in order.
pub open spec fn tree_body_enc(es: Seq<TreeEntryV>) -> Seq<u8>
    decreases es.len(),
{
    if es.len() == 0 {
        Seq::empty()
    } else {
        entry_enc(es[0]) + tree_body_enc(es.skip(1))
    }
}

/// Peeling the last entry off a tree body instead of the first.
pub proof fn lemma_tree_body_enc_snoc(es: Seq<TreeEntryV>)
    requires
        es.len() > 0,
    ensures
        tree_body_enc(es) == tree_body_enc(es.drop_last()) + entry_enc(es.last()),
    decreases es.len(),
{
    if es.len() == 1 {
        assert(es.skip(1) =~= Seq::<TreeEntryV>::empty());
        assert(es.drop_last() =~= Seq::<TreeEntryV>::empty());
        assert(entry_enc(es[0]) + tree_body_enc(es.skip(1)) =~= entry_enc(es.last()));
        assert(tree_body_enc(es.drop_last()) + entry_enc(es.last()) =~= entry_enc(es.last()));
    } else {
        lemma_tree_body_enc_snoc(es.skip(1));
        assert(es.skip(1).drop_last() =~= es.drop_last().skip(1));
        assert(es.skip(1).last() == es.last());
        assert(es.drop_last()[0] == es[0]);
        assert(es.drop_last().len() > 0);
        assert(tree_body_enc(es) == entry_enc(es[0]) + (tree_body_enc(es.drop_last().skip(1))
            + entry_enc(es.last())));
        assert(entry_enc(es[0]) + (tree_body_enc(es.drop_last().skip(1)) + entry_enc(es.last()))
            =~= (entry_enc(es[0]) + tree_body_enc(es.drop_last().skip(1))) + entry_enc(es.last()));
    }
}

/// The bytes of `"blob"`.
pub open spec fn blob_token() -> Seq<u8> {
    seq![98u8, 108u8, 111u8, 98u8]
}

/// The bytes of `"commit"`.
pub open spec fn commit_token() -> Seq<u8> {
    seq![99u8, 111u8, 109u8, 109u8, 105u8, 116u8]
}

/// The bytes of `"tag"`.
pub open spec fn tag_token() -> Seq<u8> {
    seq![116u8, 97u8, 103u8]
}

/// The bytes of `"tree"`.
pub open spec fn tree_token() -> Seq<u8> {
    seq![116u8, 114u8, 101u8, 101u8]
}

/// The kind token of an object's header.
pub open spec fn kind_enc(o: ObjectV) -> Seq<u8> {
    match o {
        ObjectV::Blob(_) => blob_token(),
        ObjectV::Commit(_) => commit_token(),
        ObjectV::Tag => tag_token(),
        ObjectV::Tree(_) => tree_token(),
    }
}

/// The content bytes of an object.  A tag has no modeled content.
pub open spec fn content_enc(o: ObjectV) -> Seq<u8> {
    match o {
        ObjectV::Blob(c) => c,
        ObjectV::Commit(c) => c,
        ObjectV::Tag => Seq::empty(),
        ObjectV::Tree(es) => tree_body_enc(es),
    }
}

/// The canonical byte form: `"<kind> <content-length>\0<content-bytes>"`.
pub open spec fn obj_enc(o: ObjectV) -> Seq<u8> {
    kind_enc(o) + seq![32u8] + dec_digits(content_enc(o).len()) + seq![0u8] + content_enc(o)
}

/// A tree entry that the format can carry faithfully: the hash is exactly
/// 20 bytes, the mode fits the machine word it is parsed into, and the
/// name is UTF-8 text that avoids the NUL byte delimiting it.
pub open spec fn entry_wf(e: TreeEntryV) -> bool {
    &&& e.hash.len() == 20
    &&& e.mode <= usize::MAX
    &&& forall|i: int| 0 <= i < e.name.len() ==> e.name[i] != 0
    &&& vstd::utf8::valid_utf8(e.name)
}

/// An object whose canonical form decodes back to it: blobs and commits
/// carry arbitrary bytes; a tree needs well-formed entries.
pub open spec fn obj_wf(o: ObjectV) -> bool {
    match o {
        ObjectV::Tree(es) => forall|i: int| 0 <= i < es.len() ==> entry_wf(#[trigger] es[i]),
        _ => true,
    }
}

impl Object {
    /// The name of this object's kind.
    pub fn kind(&self) -> (r: &'static str)
        ensures
            match self@ {
                ObjectV::Blob(_) => r@ == "blob"@,
                ObjectV::Commit(_) => r@ == "commit"@,
                ObjectV::Tag => r@ == "tag"@,
                ObjectV::Tree(_) => r@ == "tree"@,
            },
    {
        match self {
            Object::Blob(_) => "blob",
            Object::Tree(_) => "tree",
            Object::Commit(_) => "commit",
            Object::Tag => "tag",
        }
    }

    /// The content bytes of this object.  A tag cannot be re-encoded, so
    /// callers must not ask for its content.
    pub fn content_bytes(&self) -> (r: Vec<u8>)
        requires
            !(self@ is Tag),
        ensures
            r@ == content_enc(self@),
    {
        match self {
            Object::Blob(c) => {
                let r = sub_vec(c.as_slice(), 0, c.len());
                proof {
                    assert(r@ =~= c@);
                }
                r
            },
            Object::Commit(c) => {
                let r = sub_vec(c.as_slice(), 0, c.len());
                proof {
                    assert(r@ =~= c@);
                }
                r
            },
            Object::Tag => {
                proof {
                    assert(false);
                }
                Vec::new()
            },
            Object::Tree(entries) => {
                let ghost vs = entries@.map_values(|e: TreeEntry| e@);
                let mut out: Vec<u8> = Vec::new();
                let mut i: usize = 0;
                proof {
                    assert(vs.take(0) =~= Seq::<TreeEntryV>::empty());
                }
                while i < entries.len()
                    invariant
                        0 <= i <= entries@.len(),
                        vs == entries@.map_values(|e: TreeEntry| e@),
                        out@ == tree_body_enc(vs.take(i as int)),
                    decreases entries@.len() - i,
                {
                    let mut eb = entries[i].to_bytes();
                    out.append(&mut eb);
                    proof {
                        lemma_tree_body_enc_snoc(vs.take(i + 1));
                        assert(vs.take(i + 1).drop_last() =~= vs.take(i as int));
                        assert(vs.take(i + 1).last() == vs[i as int]);
                        assert(vs[i as int] == entries@[i as int]@);
                    }
                    i = i + 1;
                }
                proof {
                    assert(vs.take(vs.len() as int) =~= vs);
                }
                out
            },
        }
    }

    /// The canonical byte form of this object.
    pub fn to_bytes(&self) -> (r: Vec<u8>)
        requires
            !(self@ is Tag),
        ensures
            r@ == obj_enc(self@),
    {
        let content = self.content_bytes();
        let mut out: Vec<u8> = Vec::new();
        match self {
            Object::Blob(_) => {
                out.push(98);
                out.push(108);
                out.push(111);
                out.push(98);
            },
            Object::Commit(_) => {
                out.push(99);
                out.push(111);
                out.push(109);
                out.push(109);
                out.push(105);
                out.push(116);
            },
            Object::Tag => {},
            Object::Tree(_) => {
                out.push(116);
                out.push(114);
                out.push(101);
                out.push(101);
            },
        }
        proof {
            assert(out@ =~= kind_enc(self@));
        }
        out.push(32);
        let mut len_digits = u64_to_dec(content.len() as u64);
        out.append(&mut len_digits);
        out.push(0);
        let mut c = content;
        out.append(&mut c);
        proof {
            assert(out@ =~= obj_enc(self@));
        }
        out
    }
}

impl TreeEntry {
    /// The byte encoding of this entry inside a tree object's body.
    pub fn to_bytes(&self) -> (r: Vec<u8>)
        ensures
            r@ == entry_enc(self@),
    {
        let mut out = u64_to_dec(self.mode as u64);
        out.push(32);
        extend_bytes(&mut out, self.name.as_slice());
        out.push(0);
        extend_bytes(&mut out, self.hash.as_slice());
        proof {
            assert(out@ =~= entry_enc(self@));
        }
        out
    }
}

} // verus!
