//! The commit assembler: formats a commit body around a tree reference, a
//! parent reference, and a timestamped identity, then hashes and prepares
//! it for the store.

use vstd::prelude::*;
use vstd::string::*;

use crate::bytes::extend_bytes;
use crate::clock::local_timestamp_and_offset;
use crate::digest::{hex_bytes_of, hex_lower, sha1_of};
use crate::digits::{dec_digits, u64_to_dec};
use crate::object::{obj_enc, Object, ObjectV};
use crate::store::{spec_record_of, StoreRecord};

verus! {

/// Decimal ASCII of a signed number: a minus sign before the digits of
/// the magnitude.
pub open spec fn dec_int(v: int) -> Seq<u8> {
    if v < 0 {
        seq![45u8] + dec_digits((-v) as nat)
    } else {
        dec_digits(v as nat)
    }
}

/// Two-digit zero-padded decimal; wider only if the value needs it.
pub open spec fn pad2(n: nat) -> Seq<u8> {
    if n < 10 {
        seq![48u8, (48 + n) as u8]
    } else {
        dec_digits(n)
    }
}

/// A timezone offset rendered as `±HHMM`, with `:SS` appended only when
/// the offset has a seconds component.
pub open spec fn tz_enc(off: int) -> Seq<u8> {
    let sign: u8 = if off < 0 {
        45u8
    } else {
        43u8
    };
    let mag = if off < 0 {
        (-off) as nat
    } else {
        off as nat
    };
    let sec = mag % 60;
    let mins = mag / 60;
    if sec == 0 {
        seq![sign] + pad2(mins / 60) + pad2(mins % 60)
    } else {
        seq![sign] + pad2(mins / 60) + pad2(mins % 60) + seq![58u8] + pad2(sec)
    }
}

/// The time of an author or committer line: Unix seconds, a space, and
/// the timezone offset.
pub open spec fn timestamp_enc(ts: int, off: int) -> Seq<u8> {
    dec_int(ts) + seq![32u8] + tz_enc(off)
}

/// The fixed identity on author and committer lines.
pub open spec fn ident() -> Seq<u8> {
    "objstore <objstore@localhost>".spec_bytes()
}

/// A commit body: tree and parent references, author and committer lines
/// with the timestamp, a blank line, and the newline-terminated message.
pub open spec fn commit_body(
    tree_hex: Seq<u8>,
    parent_hex: Seq<u8>,
    msg: Seq<u8>,
    ts: int,
    off: int,
) -> Seq<u8> {
    "tree ".spec_bytes() + tree_hex + "\n".spec_bytes() + "parent ".spec_bytes() + parent_hex
        + "\n".spec_bytes() + "author ".spec_bytes() + ident() + seq![32u8] + timestamp_enc(
        ts,
        off,
    ) + "\n".spec_bytes() + "committer ".spec_bytes() + ident() + seq![32u8] + timestamp_enc(
        ts,
        off,
    ) + "\n\n".spec_bytes() + msg + "\n".spec_bytes()
}

/// Appends the bytes of a string slice.
fn extend_str(out: &mut Vec<u8>, s: &str)
    ensures
        final(out)@ == old(out)@ + s.spec_bytes(),
{
    extend_bytes(out, s.as_bytes());
}

/// Appends a value below 100 as two zero-padded decimal digits.
fn push_pad2(out: &mut Vec<u8>, n: u32)
    ensures
        final(out)@ == old(out)@ + pad2(n as nat),
{
    if n < 10 {
        out.push(48);
        out.push(48 + n as u8);
        proof {
            assert(out@ =~= old(out)@ + pad2(n as nat));
        }
    } else {
        let mut d = u64_to_dec(n as u64);
        out.append(&mut d);
    }
}

/// Appends a signed decimal number.
fn push_dec_i64(out: &mut Vec<u8>, v: i64)
    ensures
        final(out)@ == old(out)@ + dec_int(v as int),
{
    if v >= 0 {
        let mut d = u64_to_dec(v as u64);
        out.append(&mut d);
    } else {
        out.push(45);
        let neg: i128 = -(v as i128);
        let mag: u64 = neg as u64;
        proof {
            assert(mag == -(v as int));
        }
        let mut d = u64_to_dec(mag);
        out.append(&mut d);
        proof {
            assert(out@ =~= old(out)@ + dec_int(v as int));
        }
    }
}

/// Appends the timezone offset, `±HHMM` or `±HHMM:SS`.
fn push_tz(out: &mut Vec<u8>, off: i32)
    requires
        -86400 < off < 86400,
    ensures
        final(out)@ == old(out)@ + tz_enc(off as int),
{
    let sign: u8 = if off < 0 {
        45
    } else {
        43
    };
    let mag: u32 = if off < 0 {
        (-(off as i64)) as u32
    } else {
        off as u32
    };
    out.push(sign);
    let sec = mag % 60;
    let mins = mag / 60;
    push_pad2(out, mins / 60);
    push_pad2(out, mins % 60);
    if sec != 0 {
        out.push(58);
        push_pad2(out, sec);
    }
    proof {
        assert(out@ =~= old(out)@ + tz_enc(off as int));
    }
}

/// Assembles, hashes, and prepares to persist a commit object for the
/// given tree reference, parent reference, message, and instant.
/// Returns the 40-character hex hash and the store record.
pub fn git_commit_tree(tree_hex: &[u8], parent_hex: &[u8], msg: &[u8], ts: i64, off: i32) -> (r: (
    Vec<u8>,
    StoreRecord,
))
    requires
        -86400 < off < 86400,
    ensures
        ({
            let enc = obj_enc(
                ObjectV::Commit(commit_body(tree_hex@, parent_hex@, msg@, ts as int, off as int)),
            );
            r.0@ == hex_bytes_of(sha1_of(enc)) && r.1@ == spec_record_of(enc)
        }),
        r.0@.len() == 40,
{
    let mut body: Vec<u8> = Vec::new();
    extend_str(&mut body, "tree ");
    extend_bytes(&mut body, tree_hex);
    extend_str(&mut body, "\n");
    extend_str(&mut body, "parent ");
    extend_bytes(&mut body, parent_hex);
    extend_str(&mut body, "\n");
    extend_str(&mut body, "author ");
    extend_str(&mut body, "objstore <objstore@localhost>");
    body.push(32);
    push_dec_i64(&mut body, ts);
    body.push(32);
    push_tz(&mut body, off);
    extend_str(&mut body, "\n");
    extend_str(&mut body, "committer ");
    extend_str(&mut body, "objstore <objstore@localhost>");
    body.push(32);
    push_dec_i64(&mut body, ts);
    body.push(32);
    push_tz(&mut body, off);
    extend_str(&mut body, "\n\n");
    extend_bytes(&mut body, msg);
    extend_str(&mut body, "\n");
    proof {
        assert(body@ =~= commit_body(tree_hex@, parent_hex@, msg@, ts as int, off as int));
    }
    let commit = Object::Commit(body);
    let h = commit.hash();
    let hex = hex_lower(h.as_slice());
    proof {
        crate::digest::lemma_hex_len(h@);
    }
    let rec = commit.write();
    (hex, rec)
}

/// Assembles a commit at the instant the local clock reports: whatever
/// that instant is, the result is exactly the commit for it, with the
/// offset in the clock's stated range.
pub fn git_commit_tree_now(tree_hex: &[u8], parent_hex: &[u8], msg: &[u8]) -> (r: (
    Vec<u8>,
    StoreRecord,
))
    ensures
        exists|ts: int, off: int|
            {
                let enc = obj_enc(
                    ObjectV::Commit(#[trigger] commit_body(tree_hex@, parent_hex@, msg@, ts, off)),
                );
                -86400 < off < 86400 && r.0@ == hex_bytes_of(sha1_of(enc)) && r.1@
                    == spec_record_of(enc)
            },
        r.0@.len() == 40,
{
    let (ts, off) = local_timestamp_and_offset();
    let r = git_commit_tree(tree_hex, parent_hex, msg, ts, off);
    proof {
        let tsi = ts as int;
        let offi = off as int;
        let enc = obj_enc(
            ObjectV::Commit(commit_body(tree_hex@, parent_hex@, msg@, tsi, offi)),
        );
        assert(r.0@ == hex_bytes_of(sha1_of(enc)) && r.1@ == spec_record_of(enc));
    }
    r
}

} // verus!
