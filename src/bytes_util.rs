//! Small byte-sequence helpers shared by the codecs and matchers.
use vstd::prelude::*;

verus! {

/// Copies `buf[start..end]` into a fresh vector.
pub fn copy_range(buf: &[u8], start: usize, end: usize) -> (r: Vec<u8>)
    requires
        start <= end <= buf@.len(),
    ensures
        r@ == buf@.subrange(start as int, end as int),
{
    let mut r: Vec<u8> = Vec::new();
    let mut i: usize = start;
    while i < end
        invariant
            start <= i <= end <= buf@.len(),
            r@ == buf@.subrange(start as int, i as int),
        decreases end - i,
    {
        r.push(buf[i]);
        i = i + 1;
    }
    r
}

/// Copies all of `buf` into a fresh vector.
pub fn copy_all(buf: &[u8]) -> (r: Vec<u8>)
    ensures
        r@ == buf@,
{
    let r = copy_range(buf, 0, buf.len());
    assert(buf@.subrange(0, buf@.len() as int) =~= buf@);
    r
}

/// Appends every byte of `src` to `dst`.
pub fn append_bytes(dst: &mut Vec<u8>, src: &[u8])
    ensures
        final(dst)@ == old(dst)@ + src@,
{
    let mut i: usize = 0;
    while i < src.len()
        invariant
            i <= src@.len(),
            dst@ == old(dst)@ + src@.subrange(0, i as int),
        decreases src@.len() - i,
    {
        dst.push(src[i]);
        i = i + 1;
        assert(src@.subrange(0, i as int) == src@.subrange(0, i - 1) + seq![src@[i - 1]]);
    }
    assert(src@.subrange(0, src@.len() as int) == src@);
}

/// Byte-for-byte equality of two byte strings.
pub fn bytes_eq(a: &[u8], b: &[u8]) -> (r: bool)
    ensures
        r == (a@ == b@),
{
    if a.len() != b.len() {
        return false;
    }
    let mut i: usize = 0;
    while i < a.len()
        invariant
            i <= a@.len(),
            a@.len() == b@.len(),
            forall|j: int| 0 <= j < i ==> a@[j] == b@[j],
        decreases a@.len() - i,
    {
        if a[i] != b[i] {
            return false;
        }
        i = i + 1;
    }
    assert(a@ =~= b@);
    true
}

} // verus!
