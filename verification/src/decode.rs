//! Decoding canonical bytes back into objects, and the round-trip law.

use vstd::prelude::*;

use crate::bytes::{bytes_eq, spec_find, sub_vec};
use crate::digits::{
    all_digits, dec_digits, dec_val, is_digit_byte, lemma_dec_digits_wf, lemma_dec_val_of_digits,
    parse_dec,
};
use crate::error::{GitErrV, GitError};
use crate::fields::{
    lemma_ascii_valid_utf8, lemma_parse_fields_of, parse_fields, spec_parse_fields, SpecFields,
};
use crate::object::{
    blob_token, commit_token, content_enc, entry_enc, entry_wf, kind_enc, obj_enc, obj_wf,
    tag_token, tree_body_enc, tree_token, Object, ObjectV, TreeEntry, TreeEntryV,
};

verus! {

/// Outcome of parsing one tree entry off a buffer.
pub enum SpecEntryStep {
    /// The buffer was empty: no further entries.
    Done,
    /// The entry is malformed.
    Fail(GitErrV),
    /// The entry and the bytes that follow it.
    Entry(TreeEntryV, Seq<u8>),
}

/// Parses one tree entry: `<mode> <name>\0` followed by 20 raw hash bytes.
pub open spec fn spec_parse_entry(b: Seq<u8>) -> SpecEntryStep {
    match spec_parse_fields(b) {
        SpecFields::Empty => SpecEntryStep::Done,
        SpecFields::Malformed => SpecEntryStep::Fail(GitErrV::MalformedHeader),
        SpecFields::Found { f1, f2, rest } => {
            if !(f1.len() > 0 && all_digits(f1) && dec_val(f1) <= usize::MAX) {
                SpecEntryStep::Fail(GitErrV::InvalidMode)
            } else if rest.len() < 20 {
                SpecEntryStep::Fail(GitErrV::TruncatedEntry)
            } else {
                SpecEntryStep::Entry(
                    TreeEntryV { mode: dec_val(f1), name: f2, hash: rest.take(20) },
                    rest.skip(20),
                )
            }
        },
    }
}

/// A successfully parsed entry consumes at least one byte.
pub proof fn lemma_spec_parse_entry_consumes(b: Seq<u8>)
    ensures
        spec_parse_entry(b) matches SpecEntryStep::Entry(e, rest) ==> rest.len() < b.len(),
{
    if b.len() > 0 {
        crate::bytes::lemma_spec_find(b, 32);
        match spec_find(b, 32) {
            Some(sp) => {
                let tail = b.skip(sp + 1 as int);
                crate::bytes::lemma_spec_find(tail, 0);
            },
            None => {},
        }
    }
}

/// Parses a tree body: entries until the buffer is exhausted.
pub open spec fn spec_parse_tree(b: Seq<u8>) -> Result<Seq<TreeEntryV>, GitErrV>
    decreases b.len(),
{
    match spec_parse_entry(b) {
        SpecEntryStep::Done => Ok(Seq::empty()),
        SpecEntryStep::Fail(e) => Err(e),
        SpecEntryStep::Entry(e, rest) => if rest.len() < b.len() {
            match spec_parse_tree(rest) {
                Ok(es) => Ok(seq![e] + es),
                Err(err) => Err(err),
            }
        } else {
            // spec_parse_entry always consumes bytes, so this branch is
            // never taken; any value serves here.
            Err(GitErrV::TruncatedEntry)
        },
    }
}

/// Decodes a canonical byte form into an object.  The header must carry a
/// known kind and a size field that matches the body's length; a tree body
/// must parse entry by entry to its very end.
pub open spec fn spec_from_bytes(b: Seq<u8>) -> Result<ObjectV, GitErrV> {
    match spec_parse_fields(b) {
        SpecFields::Empty => Err(GitErrV::MalformedHeader),
        SpecFields::Malformed => Err(GitErrV::MalformedHeader),
        SpecFields::Found { f1, f2, rest } => {
            if !(f2.len() > 0 && all_digits(f2) && dec_val(f2) == rest.len()) {
                Err(GitErrV::MalformedHeader)
            } else if f1 == blob_token() {
                Ok(ObjectV::Blob(rest))
            } else if f1 == commit_token() {
                Ok(ObjectV::Commit(rest))
            } else if f1 == tag_token() {
                Ok(ObjectV::Tag)
            } else if f1 == tree_token() {
                match spec_parse_tree(rest) {
                    Ok(es) => Ok(ObjectV::Tree(es)),
                    Err(e) => Err(e),
                }
            } else {
                Err(GitErrV::UnknownObjectKind(f1))
            }
        },
    }
}

impl TreeEntry {
    /// Parses one tree entry off the front of `bytes`.  Returns the entry
    /// and the index where the following bytes start, `Ok(None)` when the
    /// buffer is empty, or the typed failure.
    pub fn from_bytes(bytes: &[u8]) -> (r: Result<Option<(TreeEntry, usize)>, GitError>)
        ensures
            match r {
                Ok(None) => spec_parse_entry(bytes@) is Done,
                Ok(Some((e, used))) => {
                    &&& 0 < used <= bytes@.len()
                    &&& spec_parse_entry(bytes@) == SpecEntryStep::Entry(
                        e@,
                        bytes@.skip(used as int),
                    )
                },
                Err(err) => spec_parse_entry(bytes@) matches SpecEntryStep::Fail(ev) && ev == err@,
            },
    {
        let (sp, nl) = match parse_fields(bytes) {
            Err(_) => {
                return Err(GitError::MalformedHeader);
            },
            Ok(None) => {
                return Ok(None);
            },
            Ok(Some(p)) => p,
        };
        let f1 = vstd::slice::slice_subrange(bytes, 0, sp);
        proof {
            assert(f1@ =~= bytes@.take(sp as int));
        }
        let mode = match parse_dec(f1) {
            Some(m) => m,
            None => {
                return Err(GitError::InvalidMode);
            },
        };
        let name = sub_vec(bytes, sp + 1, nl);
        if bytes.len() - (nl + 1) < 20 {
            return Err(GitError::TruncatedEntry);
        }
        let hash = sub_vec(bytes, nl + 1, nl + 21);
        proof {
            let rest = bytes@.skip(nl as int + 1);
            assert(rest.take(20) =~= bytes@.subrange(nl as int + 1, nl as int + 21));
            assert(rest.skip(20) =~= bytes@.skip(nl as int + 21));
        }
        Ok(Some((TreeEntry { mode, name, hash }, nl + 21)))
    }
}

impl Object {
    /// Decodes a canonical byte form into an object, or reports exactly
    /// which part of the form is unusable.
    pub fn from_bytes(bytes: &[u8]) -> (r: Result<Object, GitError>)
        ensures
            match r {
                Ok(o) => spec_from_bytes(bytes@) == Ok::<ObjectV, GitErrV>(o@),
                Err(e) => spec_from_bytes(bytes@) == Err::<ObjectV, GitErrV>(e@),
            },
    {
        let (sp, nl) = match parse_fields(bytes) {
            Err(e) => {
                return Err(e);
            },
            Ok(None) => {
                return Err(GitError::MalformedHeader);
            },
            Ok(Some(p)) => p,
        };
        let f1 = vstd::slice::slice_subrange(bytes, 0, sp);
        let f2 = vstd::slice::slice_subrange(bytes, sp + 1, nl);
        proof {
            assert(f1@ =~= bytes@.take(sp as int));
            assert(f2@ =~= bytes@.subrange(sp as int + 1, nl as int));
        }
        let total = bytes.len();
        let rest_start = nl + 1;
        let rest_len = total - rest_start;
        let size = match parse_dec(f2) {
            Some(s) => s,
            None => {
                return Err(GitError::MalformedHeader);
            },
        };
        if size != rest_len {
            return Err(GitError::MalformedHeader);
        }
        let blob_tok = blob_token_vec();
        let commit_tok = commit_token_vec();
        let tag_tok = tag_token_vec();
        let tree_tok = tree_token_vec();
        if bytes_eq(f1, blob_tok.as_slice()) {
            let content = sub_vec(bytes, rest_start, bytes.len());
            proof {
                assert(content@ =~= bytes@.skip(nl as int + 1));
            }
            Ok(Object::Blob(content))
        } else if bytes_eq(f1, commit_tok.as_slice()) {
            let content = sub_vec(bytes, rest_start, bytes.len());
            proof {
                assert(content@ =~= bytes@.skip(nl as int + 1));
            }
            Ok(Object::Commit(content))
        } else if bytes_eq(f1, tag_tok.as_slice()) {
            Ok(Object::Tag)
        } else if bytes_eq(f1, tree_tok.as_slice()) {
            let ghost full = bytes@.skip(rest_start as int);
            let mut entries: Vec<TreeEntry> = Vec::new();
            let mut pos: usize = rest_start;
            #[verifier::loop_isolation(false)]
            loop
                invariant
                    rest_start <= pos <= bytes@.len(),
                    spec_parse_tree(bytes@.skip(pos as int)) matches Ok(es)
                        ==> spec_parse_tree(full) == Ok::<_, GitErrV>(
                        entries@.map_values(|en: TreeEntry| en@) + es,
                    ),
                    spec_parse_tree(bytes@.skip(pos as int)) matches Err(ev)
                        ==> spec_parse_tree(full) == Err::<Seq<TreeEntryV>, GitErrV>(ev),
                decreases bytes@.len() - pos,
            {
                let cur = vstd::slice::slice_subrange(bytes, pos, bytes.len());
                proof {
                    assert(cur@ =~= bytes@.skip(pos as int));
                }
                match TreeEntry::from_bytes(cur) {
                    Err(e) => {
                        return Err(e);
                    },
                    Ok(None) => {
                        proof {
                            assert(bytes@.skip(pos as int).len() == 0);
                            let done = Seq::<TreeEntryV>::empty();
                            assert(spec_parse_tree(bytes@.skip(pos as int)) == Ok::<
                                _,
                                GitErrV,
                            >(done));
                            assert(entries@.map_values(|en: TreeEntry| en@) + done
                                =~= entries@.map_values(|en: TreeEntry| en@));
                        }
                        return Ok(Object::Tree(entries));
                    },
                    Ok(Some((entry, used))) => {
                        proof {
                            let curv = bytes@.skip(pos as int);
                            let restv = curv.skip(used as int);
                            assert(restv =~= bytes@.skip(pos + used));
                            assert(restv.len() < curv.len());
                            match spec_parse_tree(restv) {
                                Ok(es) => {
                                    assert(spec_parse_tree(curv) == Ok::<_, GitErrV>(
                                        seq![entry@] + es,
                                    ));
                                },
                                Err(ev) => {
                                    assert(spec_parse_tree(curv) == Err::<
                                        Seq<TreeEntryV>,
                                        GitErrV,
                                    >(ev));
                                },
                            }
                        }
                        let ghost oldviews = entries@.map_values(|en: TreeEntry| en@);
                        entries.push(entry);
                        pos = pos + used;
                        proof {
                            let newviews = entries@.map_values(|en: TreeEntry| en@);
                            assert(newviews =~= oldviews + seq![entry@]);
                            match spec_parse_tree(bytes@.skip(pos as int)) {
                                Ok(es) => {
                                    assert(oldviews + (seq![entry@] + es) =~= newviews + es);
                                },
                                Err(_) => {},
                            }
                        }
                    },
                }
            }
        } else {
            let kind = sub_vec(bytes, 0, sp);
            proof {
                assert(kind@ =~= bytes@.take(sp as int));
            }
            Err(GitError::UnknownObjectKind(kind))
        }
    }
}

/// A well-formed entry's encoding, followed by anything, parses back into
/// that entry with the trailing bytes untouched.
pub proof fn lemma_parse_entry_enc(e: TreeEntryV, rest: Seq<u8>)
    requires
        entry_wf(e),
    ensures
        spec_parse_entry(entry_enc(e) + rest) == SpecEntryStep::Entry(e, rest),
{
    let d = dec_digits(e.mode);
    lemma_dec_digits_wf(e.mode);
    lemma_dec_val_of_digits(e.mode);
    assert(entry_enc(e) + rest =~= d + seq![32u8] + e.name + seq![0u8] + (e.hash + rest));
    assert forall|i: int| 0 <= i < d.len() implies d[i] != 32 && d[i] < 128 by {
        assert(is_digit_byte(d[i]));
    }
    lemma_ascii_valid_utf8(d);
    lemma_parse_fields_of(d, e.name, e.hash + rest);
    assert((e.hash + rest).take(20) =~= e.hash);
    assert((e.hash + rest).skip(20) =~= rest);
}

/// The concatenated encodings of well-formed entries parse back into
/// exactly those entries, in order.
pub proof fn lemma_parse_tree_enc(es: Seq<TreeEntryV>)
    requires
        forall|i: int| 0 <= i < es.len() ==> entry_wf(#[trigger] es[i]),
    ensures
        spec_parse_tree(tree_body_enc(es)) == Ok::<Seq<TreeEntryV>, GitErrV>(es),
    decreases es.len(),
{
    if es.len() == 0 {
        assert(tree_body_enc(es).len() == 0);
        assert(es =~= Seq::<TreeEntryV>::empty());
    } else {
        let tail_enc = tree_body_enc(es.skip(1));
        lemma_parse_entry_enc(es[0], tail_enc);
        assert forall|i: int| 0 <= i < es.skip(1).len() implies entry_wf(
            #[trigger] es.skip(1)[i],
        ) by {
            assert(es.skip(1)[i] == es[i + 1]);
        }
        lemma_parse_tree_enc(es.skip(1));
        lemma_spec_parse_entry_consumes(tree_body_enc(es));
        assert(seq![es[0]] + es.skip(1) =~= es);
    }
}

/// Round trip: decoding the canonical byte form of any object this system
/// can construct reproduces an object of identical kind and content.
pub proof fn lemma_decode_encode(o: ObjectV)
    requires
        obj_wf(o),
        !(o is Tag),
    ensures
        spec_from_bytes(obj_enc(o)) == Ok::<ObjectV, GitErrV>(o),
{
    let k = kind_enc(o);
    let c = content_enc(o);
    let d = dec_digits(c.len());
    lemma_dec_digits_wf(c.len());
    lemma_dec_val_of_digits(c.len());
    assert(obj_enc(o) =~= k + seq![32u8] + d + seq![0u8] + c);
    assert forall|i: int| 0 <= i < k.len() implies k[i] != 32 && k[i] < 128 by {
        match o {
            ObjectV::Blob(_) => {
                assert(k =~= blob_token());
            },
            ObjectV::Commit(_) => {
                assert(k =~= commit_token());
            },
            ObjectV::Tag => {},
            ObjectV::Tree(_) => {
                assert(k =~= tree_token());
            },
        }
    }
    assert forall|i: int| 0 <= i < d.len() implies d[i] != 0 && d[i] < 128 by {
        assert(is_digit_byte(d[i]));
    }
    lemma_ascii_valid_utf8(k);
    lemma_ascii_valid_utf8(d);
    lemma_parse_fields_of(k, d, c);
    match o {
        ObjectV::Blob(_) => {},
        ObjectV::Commit(_) => {
            assert(k != blob_token());
        },
        ObjectV::Tag => {},
        ObjectV::Tree(es) => {
            assert(k != blob_token()) by {
                assert(tree_token()[0] == 116);
                assert(blob_token()[0] == 98);
            }
            assert(k != commit_token());
            assert(k != tag_token());
            lemma_parse_tree_enc(es);
        },
    }
}

/// Builds the `"blob"` kind token.
fn blob_token_vec() -> (r: Vec<u8>)
    ensures
        r@ == blob_token(),
{
    let mut v: Vec<u8> = Vec::new();
    v.push(98);
    v.push(108);
    v.push(111);
    v.push(98);
    proof {
        assert(v@ =~= blob_token());
    }
    v
}

/// Builds the `"commit"` kind token.
fn commit_token_vec() -> (r: Vec<u8>)
    ensures
        r@ == commit_token(),
{
    let mut v: Vec<u8> = Vec::new();
    v.push(99);
    v.push(111);
    v.push(109);
    v.push(109);
    v.push(105);
    v.push(116);
    proof {
        assert(v@ =~= commit_token());
    }
    v
}

/// Builds the `"tag"` kind token.
fn tag_token_vec() -> (r: Vec<u8>)
    ensures
        r@ == tag_token(),
{
    let mut v: Vec<u8> = Vec::new();
    v.push(116);
    v.push(97);
    v.push(103);
    proof {
        assert(v@ =~= tag_token());
    }
    v
}

/// Builds the `"tree"` kind token.
fn tree_token_vec() -> (r: Vec<u8>)
    ensures
        r@ == tree_token(),
{
    let mut v: Vec<u8> = Vec::new();
    v.push(116);
    v.push(114);
    v.push(101);
    v.push(101);
    proof {
        assert(v@ =~= tree_token());
    }
    v
}

} // verus!
