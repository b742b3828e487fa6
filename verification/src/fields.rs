//! The field parser: every object header and every tree entry starts with
//! a prefix of the form `<field1> <field2>\0`, and this module splits such
//! a prefix off a byte buffer.  Both fields must be valid UTF-8 text.

use vstd::prelude::*;

use crate::bytes::{find_byte, lemma_spec_find_unique, spec_find};
use crate::error::GitError;
use vstd::utf8::valid_utf8;

verus! {

/// Relies on std::str::from_utf8: it accepts a byte slice exactly when
/// the bytes are a valid UTF-8 encoding.
#[verifier::external_body]
pub(crate) fn utf8_ok(b: &[u8]) -> (r: bool)
    ensures
        r == valid_utf8(b@),
{
    std::str::from_utf8(b).is_ok()
}

/// Bytes below 128 are one-byte scalars, so an ASCII string is valid UTF-8.
pub proof fn lemma_ascii_valid_utf8(s: Seq<u8>)
    requires
        forall|i: int| 0 <= i < s.len() ==> s[i] < 128,
    ensures
        valid_utf8(s),
    decreases s.len(),
{
    if s.len() > 0 {
        assert(vstd::utf8::is_leading_byte_width_1(s[0]));
        assert(vstd::utf8::pop_first_scalar(s) =~= s.skip(1));
        lemma_ascii_valid_utf8(s.skip(1));
    }
}

/// Outcome of splitting `<field1> <field2>\0<rest>` off a buffer.
pub enum SpecFields {
    /// The buffer was empty: not an error, but the end of repeated parsing.
    Empty,
    /// The buffer is nonempty but the space or the NUL delimiter is
    /// missing, or a delimited field is not valid UTF-8 text.
    Malformed,
    /// The two fields and the bytes that follow the NUL.
    Found { f1: Seq<u8>, f2: Seq<u8>, rest: Seq<u8> },
}

/// Splits a buffer at its first space and the first NUL after that space;
/// both fields must be valid UTF-8 text.
pub open spec fn spec_parse_fields(b: Seq<u8>) -> SpecFields {
    if b.len() == 0 {
        SpecFields::Empty
    } else {
        match spec_find(b, 32) {
            None => SpecFields::Malformed,
            Some(sp) => {
                let tail = b.skip(sp + 1 as int);
                match spec_find(tail, 0) {
                    None => SpecFields::Malformed,
                    Some(nl) => {
                        if valid_utf8(b.take(sp as int)) && valid_utf8(tail.take(nl as int)) {
                            SpecFields::Found {
                                f1: b.take(sp as int),
                                f2: tail.take(nl as int),
                                rest: tail.skip(nl + 1 as int),
                            }
                        } else {
                            SpecFields::Malformed
                        }
                    },
                }
            },
        }
    }
}

/// Splitting inverts assembly: a buffer built as `<f1> <f2>\0<rest>`, with
/// no space in `f1`, no NUL in `f2`, and both fields valid UTF-8, parses
/// back into exactly those three pieces.
pub proof fn lemma_parse_fields_of(f1: Seq<u8>, f2: Seq<u8>, rest: Seq<u8>)
    requires
        forall|i: int| 0 <= i < f1.len() ==> f1[i] != 32,
        forall|i: int| 0 <= i < f2.len() ==> f2[i] != 0,
        valid_utf8(f1),
        valid_utf8(f2),
    ensures
        spec_parse_fields(f1 + seq![32u8] + f2 + seq![0u8] + rest) == (SpecFields::Found {
            f1,
            f2,
            rest,
        }),
{
    let b = f1 + seq![32u8] + f2 + seq![0u8] + rest;
    assert(b.len() > 0);
    assert(b[f1.len() as int] == 32);
    assert forall|j: int| 0 <= j < f1.len() implies b[j] != 32 by {
        assert(b[j] == f1[j]);
    }
    lemma_spec_find_unique(b, 32, f1.len() as int);
    let tail = b.skip(f1.len() + 1 as int);
    assert(tail =~= f2 + seq![0u8] + rest);
    assert(tail[f2.len() as int] == 0);
    assert forall|j: int| 0 <= j < f2.len() implies tail[j] != 0 by {
        assert(tail[j] == f2[j]);
    }
    lemma_spec_find_unique(tail, 0, f2.len() as int);
    assert(b.take(f1.len() as int) =~= f1);
    assert(tail.take(f2.len() as int) =~= f2);
    assert(tail.skip(f2.len() + 1 as int) =~= rest);
}

/// Locates the two delimiters of a `<field1> <field2>\0` prefix and checks
/// that both fields are UTF-8 text.  Returns `Ok(None)` on an empty
/// buffer, the absolute indices of the space and the NUL on success, and
/// `MalformedHeader` when a delimiter is missing or a field is not text.
pub fn parse_fields(bytes: &[u8]) -> (r: Result<Option<(usize, usize)>, GitError>)
    ensures
        match r {
            Ok(None) => bytes@.len() == 0 && spec_parse_fields(bytes@) is Empty,
            Ok(Some((sp, nl))) => {
                &&& sp < nl < bytes@.len()
                &&& bytes@[sp as int] == 32
                &&& bytes@[nl as int] == 0
                &&& spec_parse_fields(bytes@) == (SpecFields::Found {
                    f1: bytes@.take(sp as int),
                    f2: bytes@.subrange(sp as int + 1, nl as int),
                    rest: bytes@.skip(nl as int + 1),
                })
            },
            Err(e) => e@ is MalformedHeader && spec_parse_fields(bytes@) is Malformed,
        },
{
    if bytes.len() == 0 {
        return Ok(None);
    }
    let sp = match find_byte(bytes, 0, 32) {
        Some(i) => i,
        None => {
            proof {
                crate::bytes::lemma_spec_find(bytes@, 32);
                if spec_find(bytes@, 32) is Some {
                    let i = spec_find(bytes@, 32).unwrap();
                    assert(bytes@[i as int] == 32);
                }
            }
            return Err(GitError::MalformedHeader);
        },
    };
    proof {
        lemma_spec_find_unique(bytes@, 32, sp as int);
    }
    let nl = match find_byte(bytes, sp + 1, 0) {
        Some(i) => i,
        None => {
            proof {
                let tail = bytes@.skip(sp + 1);
                crate::bytes::lemma_spec_find(tail, 0);
                if spec_find(tail, 0) is Some {
                    let i = spec_find(tail, 0).unwrap();
                    assert(bytes@[sp + 1 + i] == 0);
                }
            }
            return Err(GitError::MalformedHeader);
        },
    };
    proof {
        let tail = bytes@.skip(sp + 1);
        assert forall|j: int| 0 <= j < nl - sp - 1 implies tail[j] != 0 by {
            assert(bytes@[sp + 1 + j] != 0);
        }
        assert(tail[nl - sp - 1] == 0);
        lemma_spec_find_unique(tail, 0, nl - sp - 1);
        assert(tail.take(nl - sp - 1) =~= bytes@.subrange(sp as int + 1, nl as int));
        assert(tail.skip(nl - sp - 1 + 1) =~= bytes@.skip(nl as int + 1));
    }
    let f1 = vstd::slice::slice_subrange(bytes, 0, sp);
    let f2 = vstd::slice::slice_subrange(bytes, sp + 1, nl);
    proof {
        assert(f1@ =~= bytes@.take(sp as int));
        assert(f2@ =~= bytes@.skip(sp + 1).take(nl - sp - 1));
    }
    if !utf8_ok(f1) || !utf8_ok(f2) {
        return Err(GitError::MalformedHeader);
    }
    Ok(Some((sp, nl)))
}

} // verus!
