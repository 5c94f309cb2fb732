//! Byte-sequence helpers shared by the packet builders.
use vstd::prelude::*;

verus! {

/// `n` zero bytes.
pub open spec fn zeros(n: nat) -> Seq<u8> {
    Seq::new(n, |i: int| 0u8)
}

/// `s` extended with zero bytes up to length `len` (unchanged when already that long).
pub open spec fn zero_pad(s: Seq<u8>, len: nat) -> Seq<u8> {
    if s.len() < len {
        s + zeros((len - s.len()) as nat)
    } else {
        s
    }
}

/// Appends every byte of `data` to `buf`.
pub fn push_all(buf: &mut Vec<u8>, data: &[u8])
    ensures
        final(buf)@ == old(buf)@ + data@,
{
    let ghost start = buf@;
    let mut i: usize = 0;
    while i < data.len()
        invariant
            i <= data@.len(),
            buf@ == start + data@.subrange(0, i as int),
        decreases data@.len() - i,
    {
        buf.push(data[i]);
        i = i + 1;
        proof {
            assert(data@.subrange(0, i as int) == data@.subrange(0, i - 1) + seq![data@[i - 1]]);
        }
    }
    proof {
        assert(data@.subrange(0, data@.len() as int) == data@);
    }
}

/// Appends `n` zero bytes to `buf`.
pub fn push_zeros(buf: &mut Vec<u8>, n: usize)
    ensures
        final(buf)@ == old(buf)@ + zeros(n as nat),
{
    let ghost start = buf@;
    let mut i: usize = 0;
    while i < n
        invariant
            i <= n,
            buf@ == start + zeros(i as nat),
        decreases n - i,
    {
        buf.push(0u8);
        i = i + 1;
        proof {
            assert(zeros(i as nat) == zeros((i - 1) as nat).push(0u8));
        }
    }
}

/// Appends `data[start..end]` to `buf`.
pub fn push_range(buf: &mut Vec<u8>, data: &[u8], start: usize, end: usize)
    requires
        start <= end <= data@.len(),
    ensures
        final(buf)@ == old(buf)@ + data@.subrange(start as int, end as int),
{
    let ghost begin = buf@;
    let mut i: usize = start;
    while i < end
        invariant
            start <= i <= end,
            end <= data@.len(),
            buf@ == begin + data@.subrange(start as int, i as int),
        decreases end - i,
    {
        buf.push(data[i]);
        i = i + 1;
        proof {
            assert(data@.subrange(start as int, i as int) == data@.subrange(start as int, i - 1)
                + seq![data@[i - 1]]);
        }
    }
}

/// The views of a sequence of byte vectors.
pub open spec fn views(v: Seq<Vec<u8>>) -> Seq<Seq<u8>> {
    v.map_values(|x: Vec<u8>| x@)
}

/// Pushing a vector appends its view.
pub proof fn lemma_views_push(v: Seq<Vec<u8>>, x: Vec<u8>)
    ensures
        views(v.push(x)) == views(v).push(x@),
{
    assert(views(v.push(x)) =~= views(v).push(x@));
}

} // verus!
