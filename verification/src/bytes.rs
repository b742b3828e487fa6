//! Byte-string utilities: delimiter search, slicing, equality, and the
//! byte-wise lexicographic order used to sort tree entries.

use vstd::prelude::*;

verus! {

/// Index of the first occurrence of `x` in `b`, if any.
pub open spec fn spec_find(b: Seq<u8>, x: u8) -> Option<nat>
    decreases b.len(),
{
    if b.len() == 0 {
        None
    } else if b[0] == x {
        Some(0)
    } else {
        match spec_find(b.skip(1), x) {
            Some(i) => Some((i + 1) as nat),
            None => None,
        }
    }
}

/// `spec_find` returns the first occurrence: the byte there is `x` and no
/// earlier byte is; `None` means `x` does not occur at all.
pub proof fn lemma_spec_find(b: Seq<u8>, x: u8)
    ensures
        match spec_find(b, x) {
            Some(i) => i < b.len() && b[i as int] == x && forall|j: int|
                0 <= j < i ==> b[j] != x,
            None => forall|j: int| 0 <= j < b.len() ==> b[j] != x,
        },
    decreases b.len(),
{
    if b.len() == 0 {
    } else if b[0] == x {
    } else {
        lemma_spec_find(b.skip(1), x);
        match spec_find(b.skip(1), x) {
            Some(i) => {
                assert forall|j: int| 0 <= j < i + 1 implies b[j] != x by {
                    if j > 0 {
                        assert(b.skip(1)[j - 1] != x);
                    }
                }
            },
            None => {
                assert forall|j: int| 0 <= j < b.len() implies b[j] != x by {
                    if j > 0 {
                        assert(b.skip(1)[j - 1] != x);
                    }
                }
            },
        }
    }
}

/// A position that holds `x` with no earlier occurrence is exactly what
/// `spec_find` returns.
pub proof fn lemma_spec_find_unique(b: Seq<u8>, x: u8, i: int)
    requires
        0 <= i < b.len(),
        b[i] == x,
        forall|j: int| 0 <= j < i ==> b[j] != x,
    ensures
        spec_find(b, x) == Some(i as nat),
{
    lemma_spec_find(b, x);
    match spec_find(b, x) {
        Some(k) => {
            if k < i {
                assert(b[k as int] == x);
            } else if i < k {
                assert(b[i] != x);
            }
        },
        None => {
            assert(b[i] != x);
        },
    }
}

/// Finds the first occurrence of `x` in `b` at or after `start`.
pub fn find_byte(b: &[u8], start: usize, x: u8) -> (r: Option<usize>)
    requires
        start <= b@.len(),
    ensures
        match r {
            Some(i) => start <= i < b@.len() && b@[i as int] == x && forall|j: int|
                start <= j < i ==> b@[j] != x,
            None => forall|j: int| start <= j < b@.len() ==> b@[j] != x,
        },
{
    let mut i: usize = start;
    while i < b.len()
        invariant
            start <= i <= b@.len(),
            forall|j: int| start <= j < i ==> b@[j] != x,
        decreases b@.len() - i,
    {
        if b[i] == x {
            return Some(i);
        }
        i = i + 1;
    }
    None
}

/// Byte-wise equality of two slices.
pub fn bytes_eq(a: &[u8], b: &[u8]) -> (r: bool)
    ensures
        r == (a@ == b@),
{
    if a.len() != b.len() {
        return false;
    }
    let mut i: usize = 0;
    while i < a.len()
        invariant
            a@.len() == b@.len(),
            0 <= i <= a@.len(),
            forall|j: int| 0 <= j < i ==> a@[j] == b@[j],
        decreases a@.len() - i,
    {
        if a[i] != b[i] {
            return false;
        }
        i = i + 1;
    }
    proof {
        assert(a@ =~= b@);
    }
    true
}

/// Copies the byte range `[i, j)` of `b` into a fresh vector.
pub fn sub_vec(b: &[u8], i: usize, j: usize) -> (r: Vec<u8>)
    requires
        i <= j <= b@.len(),
    ensures
        r@ == b@.subrange(i as int, j as int),
{
    let s = vstd::slice::slice_subrange(b, i, j);
    vstd::slice::slice_to_vec(s)
}

/// Appends all bytes of `b` to `out`.
pub fn extend_bytes(out: &mut Vec<u8>, b: &[u8])
    ensures
        final(out)@ == old(out)@ + b@,
{
    let mut i: usize = 0;
    proof {
        assert(out@ =~= old(out)@ + b@.take(0));
    }
    while i < b.len()
        invariant
            0 <= i <= b@.len(),
            out@ == old(out)@ + b@.take(i as int),
        decreases b@.len() - i,
    {
        out.push(b[i]);
        proof {
            assert(old(out)@ + b@.take(i + 1) =~= (old(out)@ + b@.take(i as int)).push(
                b@[i as int],
            ));
        }
        i = i + 1;
    }
    proof {
        assert(b@.take(b@.len() as int) =~= b@);
    }
}

/// Byte-wise lexicographic order: `a` comes no later than `b` when `a` is
/// a prefix of `b` or holds the smaller byte at the first difference.
pub open spec fn lex_le(a: Seq<u8>, b: Seq<u8>) -> bool
    decreases a.len(),
{
    if a.len() == 0 {
        true
    } else if b.len() == 0 {
        false
    } else if a[0] < b[0] {
        true
    } else if a[0] > b[0] {
        false
    } else {
        lex_le(a.skip(1), b.skip(1))
    }
}

/// The order is total: any two byte strings compare one way or the other.
pub proof fn lemma_lex_le_total(a: Seq<u8>, b: Seq<u8>)
    ensures
        lex_le(a, b) || lex_le(b, a),
    decreases a.len(),
{
    if a.len() == 0 || b.len() == 0 {
    } else if a[0] == b[0] {
        lemma_lex_le_total(a.skip(1), b.skip(1));
    }
}

/// The order is transitive.
pub proof fn lemma_lex_le_trans(a: Seq<u8>, b: Seq<u8>, c: Seq<u8>)
    requires
        lex_le(a, b),
        lex_le(b, c),
    ensures
        lex_le(a, c),
    decreases a.len(),
{
    if a.len() == 0 || b.len() == 0 || c.len() == 0 {
    } else if a[0] == b[0] && b[0] == c[0] {
        lemma_lex_le_trans(a.skip(1), b.skip(1), c.skip(1));
    }
}

/// Compares two byte vectors in the lexicographic order.
pub fn name_le(a: &Vec<u8>, b: &Vec<u8>) -> (r: bool)
    ensures
        r == lex_le(a@, b@),
{
    let mut i: usize = 0;
    proof {
        assert(a@.skip(0) =~= a@);
        assert(b@.skip(0) =~= b@);
    }
    loop
        invariant
            0 <= i <= a@.len(),
            0 <= i <= b@.len(),
            lex_le(a@, b@) == lex_le(a@.skip(i as int), b@.skip(i as int)),
        decreases a@.len() - i,
    {
        if i >= a.len() {
            proof {
                assert(a@.skip(i as int) =~= Seq::<u8>::empty());
            }
            return true;
        }
        if i >= b.len() {
            proof {
                assert(b@.skip(i as int) =~= Seq::<u8>::empty());
                assert(a@.skip(i as int).len() > 0);
            }
            return false;
        }
        let ca = a[i];
        let cb = b[i];
        proof {
            assert(a@.skip(i as int)[0] == ca);
            assert(b@.skip(i as int)[0] == cb);
        }
        if ca < cb {
            return true;
        }
        if ca > cb {
            return false;
        }
        proof {
            assert(a@.skip(i as int).skip(1) =~= a@.skip(i + 1));
            assert(b@.skip(i as int).skip(1) =~= b@.skip(i + 1));
        }
        i = i + 1;
    }
}

} // verus!
