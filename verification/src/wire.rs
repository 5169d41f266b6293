//! Byte-level helpers shared by the wire formats: copying runs of bytes in and
//! out of fixed-size arrays.

use vstd::prelude::*;

verus! {

/// `dst` with the bytes of `src` written from offset `at` on.
pub open spec fn spliced(dst: Seq<u8>, at: int, src: Seq<u8>) -> Seq<u8> {
    dst.subrange(0, at) + src + dst.subrange(at + src.len(), dst.len() as int)
}

/// Writes `src` into `dst` starting at `at`, leaving every other byte alone.
pub fn copy_into<const N: usize>(dst: &mut [u8; N], at: usize, src: &[u8])
    requires
        at + src@.len() <= N,
    ensures
        final(dst)@ == spliced(old(dst)@, at as int, src@),
{
    let ghost before = dst@;
    let mut i: usize = 0;
    while i < src.len()
        invariant
            at + src@.len() <= N,
            i <= src@.len(),
            dst@.len() == N,
            before.len() == N,
            forall|j: int| 0 <= j < N ==> #[trigger] dst@[j] == (if at <= j < at + i {
                src@[j - at]
            } else {
                before[j]
            }),
        decreases src@.len() - i,
    {
        dst[at + i] = src[i];
        i = i + 1;
    }
    assert(dst@ =~= spliced(before, at as int, src@));
}

/// The `N` bytes of `src` that start at `at`.
pub fn take_array<const N: usize>(src: &[u8], at: usize) -> (out: [u8; N])
    requires
        at + N <= src@.len(),
    ensures
        out@ == src@.subrange(at as int, at + N),
{
    let mut out = [0u8; N];
    let len = src.len();
    let mut i: usize = 0;
    while i < N
        invariant
            len == src@.len(),
            at + N <= src@.len(),
            i <= N,
            out@.len() == N,
            forall|j: int| 0 <= j < i ==> #[trigger] out@[j] == src@[at + j],
        decreases N - i,
    {
        out[i] = src[at + i];
        i = i + 1;
    }
    assert(out@ =~= src@.subrange(at as int, at + N));
    out
}

/// `first` followed by `second`, in a new buffer.
pub fn concat(first: &[u8], second: &[u8]) -> (joined: Vec<u8>)
    ensures
        joined@ == first@ + second@,
{
    let mut joined: Vec<u8> = Vec::new();
    extend(&mut joined, first);
    extend(&mut joined, second);
    joined
}

/// Appends `more` to `buffer`.
pub fn extend(buffer: &mut Vec<u8>, more: &[u8])
    ensures
        final(buffer)@ == old(buffer)@ + more@,
{
    let ghost start = buffer@;
    let mut i: usize = 0;
    while i < more.len()
        invariant
            i <= more@.len(),
            buffer@ == start + more@.subrange(0, i as int),
        decreases more@.len() - i,
    {
        buffer.push(more[i]);
        i = i + 1;
        assert(buffer@ =~= start + more@.subrange(0, i as int));
    }
    assert(more@.subrange(0, i as int) =~= more@);
}

} // verus!
