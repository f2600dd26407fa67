//! Small byte-sequence helpers.

use vstd::prelude::*;

verus! {

/// Appends the bytes of `src` to `out`.
pub fn append_bytes(out: &mut Vec<u8>, src: &[u8])
    ensures
        final(out)@ == old(out)@ + src@,
{
    let n = src.len();
    let mut i: usize = 0;
    while i < n
        invariant
            n == src@.len(),
            i <= n,
            out@ == old(out)@ + src@.subrange(0, i as int),
        decreases n - i,
    {
        out.push(src[i]);
        proof {
            assert(src@.subrange(0, i + 1) == src@.subrange(0, i as int).push(src@[i as int]));
        }
        i = i + 1;
    }
    proof {
        assert(src@.subrange(0, n as int) == src@);
    }
}

/// A new vector holding `src[from..to]`.
pub fn copy_range(src: &[u8], from: usize, to: usize) -> (r: Vec<u8>)
    requires
        from <= to <= src@.len(),
    ensures
        r@ == src@.subrange(from as int, to as int),
{
    let mut out: Vec<u8> = Vec::new();
    let mut i: usize = from;
    while i < to
        invariant
            from <= i <= to,
            to <= src@.len(),
            out@ == src@.subrange(from as int, i as int),
        decreases to - i,
    {
        out.push(src[i]);
        proof {
            assert(src@.subrange(from as int, i + 1) == src@.subrange(from as int, i as int).push(
                src@[i as int],
            ));
        }
        i = i + 1;
    }
    out
}

/// Whether two byte sequences are equal.
pub fn bytes_equal(a: &[u8], b: &[u8]) -> (r: bool)
    ensures
        r == (a@ == b@),
{
    if a.len() != b.len() {
        return false;
    }
    let n = a.len();
    let mut i: usize = 0;
    while i < n
        invariant
            n == a@.len(),
            n == b@.len(),
            i <= n,
            forall|k: int| 0 <= k < i ==> a@[k] == b@[k],
        decreases n - i,
    {
        if a[i] != b[i] {
            return false;
        }
        i = i + 1;
    }
    proof {
        assert(a@ =~= b@);
    }
    true
}

/// The first 16 bytes of `src` as an array.
pub fn array16(src: &[u8]) -> (r: [u8; 16])
    requires
        src@.len() == 16,
    ensures
        r@ == src@,
{
    let mut out = [0u8; 16];
    let mut i: usize = 0;
    while i < 16
        invariant
            src@.len() == 16,
            i <= 16,
            forall|k: int| 0 <= k < i ==> out@[k] == src@[k],
        decreases 16 - i,
    {
        out[i] = src[i];
        i = i + 1;
    }
    proof {
        assert(out@ =~= src@);
    }
    out
}

/// The first 24 bytes of `src` as an array.
pub fn array24(src: &[u8]) -> (r: [u8; 24])
    requires
        src@.len() == 24,
    ensures
        r@ == src@,
{
    let mut out = [0u8; 24];
    let mut i: usize = 0;
    while i < 24
        invariant
            src@.len() == 24,
            i <= 24,
            forall|k: int| 0 <= k < i ==> out@[k] == src@[k],
        decreases 24 - i,
    {
        out[i] = src[i];
        i = i + 1;
    }
    proof {
        assert(out@ =~= src@);
    }
    out
}

/// The first 32 bytes of `src` as an array.
pub fn array32(src: &[u8]) -> (r: [u8; 32])
    requires
        src@.len() == 32,
    ensures
        r@ == src@,
{
    let mut out = [0u8; 32];
    let mut i: usize = 0;
    while i < 32
        invariant
            src@.len() == 32,
            i <= 32,
            forall|k: int| 0 <= k < i ==> out@[k] == src@[k],
        decreases 32 - i,
    {
        out[i] = src[i];
        i = i + 1;
    }
    proof {
        assert(out@ =~= src@);
    }
    out
}

} // verus!
