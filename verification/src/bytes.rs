//! Small verified helpers on byte strings: comparison, copying, and taking
//! the suffix after the last occurrence of a byte (used for the last path
//! segment and for file extensions).

use vstd::prelude::*;

verus! {

/// Whether `c` occurs anywhere in `p`.
pub open spec fn has_byte(p: Seq<u8>, c: u8) -> bool {
    exists|i: int| 0 <= i < p.len() && p[i] == c
}

/// The suffix of `p` that follows the last occurrence of `c`; all of `p` when
/// `c` does not occur.
pub open spec fn suffix_after_last(p: Seq<u8>, c: u8) -> Seq<u8>
    decreases p.len(),
{
    if p.len() == 0 {
        p
    } else if p.last() == c {
        Seq::<u8>::empty()
    } else {
        suffix_after_last(p.drop_last(), c).push(p.last())
    }
}

/// Byte-string equality.
pub fn bytes_eq(a: &[u8], b: &[u8]) -> (r: bool)
    ensures
        r == (a@ == b@),
{
    if a.len() != b.len() {
        return false;
    }
    let n = a.len();
    let mut i: usize = 0;
    while i < n
        invariant
            i <= n,
            n == a@.len() == b@.len(),
            forall|j: int| 0 <= j < i ==> a@[j] == b@[j],
        decreases n - i,
    {
        if a[i] != b[i] {
            return false;
        }
        i = i + 1;
    }
    proof {
        assert(a@ =~= b@);
    }
    true
}

/// A fresh vector holding the same bytes.
pub fn copy_bytes(b: &[u8]) -> (r: Vec<u8>)
    ensures
        r@ == b@,
{
    let n = b.len();
    let mut out: Vec<u8> = Vec::new();
    let mut i: usize = 0;
    while i < n
        invariant
            i <= n,
            n == b@.len(),
            out@ == b@.take(i as int),
        decreases n - i,
    {
        out.push(b[i]);
        proof {
            assert(out@ =~= b@.take(i + 1));
        }
        i = i + 1;
    }
    proof {
        assert(b@.take(n as int) =~= b@);
    }
    out
}

proof fn lemma_suffix_after_last_at(p: Seq<u8>, c: u8, j: int)
    requires
        0 < j <= p.len(),
        p[j - 1] == c,
        forall|k: int| j <= k < p.len() ==> p[k] != c,
    ensures
        suffix_after_last(p, c) == p.subrange(j, p.len() as int),
    decreases p.len(),
{
    if j == p.len() {
        assert(suffix_after_last(p, c) =~= p.subrange(j, p.len() as int));
    } else {
        assert(p.last() != c);
        let q = p.drop_last();
        assert(forall|k: int| j <= k < q.len() ==> q[k] == p[k]);
        lemma_suffix_after_last_at(q, c, j);
        assert(q.subrange(j, q.len() as int).push(p.last()) =~= p.subrange(j, p.len() as int));
    }
}

proof fn lemma_suffix_after_last_absent(p: Seq<u8>, c: u8)
    requires
        !has_byte(p, c),
    ensures
        suffix_after_last(p, c) == p,
    decreases p.len(),
{
    if p.len() > 0 {
        assert(p[p.len() - 1] != c);
        assert(!has_byte(p.drop_last(), c)) by {
            if has_byte(p.drop_last(), c) {
                let i = choose|i: int| 0 <= i < p.drop_last().len() && p.drop_last()[i] == c;
                assert(p[i] == c);
            }
        };
        lemma_suffix_after_last_absent(p.drop_last(), c);
        assert(p.drop_last().push(p.last()) =~= p);
    }
}

/// The suffix of `p` after the last occurrence of `c`, and whether `c` occurs
/// at all: `p` itself comes back unchanged when it does not.
pub fn tail_after_last(p: &[u8], c: u8) -> (r: (bool, Vec<u8>))
    ensures
        r.0 == has_byte(p@, c),
        r.1@ == suffix_after_last(p@, c),
        !r.0 ==> r.1@ == p@,
{
    let n = p.len();
    let mut j: usize = n;
    while j > 0 && p[j - 1] != c
        invariant
            j <= n,
            n == p@.len(),
            forall|k: int| j <= k < n ==> p@[k] != c,
        decreases j,
    {
        j = j - 1;
    }
    let mut out: Vec<u8> = Vec::new();
    let mut i: usize = j;
    while i < n
        invariant
            j <= i <= n,
            n == p@.len(),
            out@ == p@.subrange(j as int, i as int),
        decreases n - i,
    {
        out.push(p[i]);
        proof {
            assert(out@ =~= p@.subrange(j as int, i + 1));
        }
        i = i + 1;
    }
    if j == 0 {
        proof {
            assert(!has_byte(p@, c));
            lemma_suffix_after_last_absent(p@, c);
            assert(out@ =~= p@);
        }
        (false, out)
    } else {
        proof {
            assert(has_byte(p@, c)) by {
                assert(p@[j - 1] == c);
            };
            lemma_suffix_after_last_at(p@, c, j as int);
        }
        (true, out)
    }
}

} // verus!
