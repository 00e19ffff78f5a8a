use vstd::prelude::*;

verus! {

/// The on-disk format stores every multi-byte integer least-significant byte
/// first. These spec functions are the byte-level model that every decoding
/// contract in the crate is stated against.
pub open spec fn le16(s: Seq<u8>, i: int) -> int {
    s[i] + 0x100 * s[i + 1]
}

pub open spec fn le32(s: Seq<u8>, i: int) -> int {
    le16(s, i) + 0x10000 * le16(s, i + 2)
}

pub open spec fn le64(s: Seq<u8>, i: int) -> int {
    le32(s, i) + 0x100000000 * le32(s, i + 4)
}

pub fn read_le16(s: &Vec<u8>, i: usize) -> (r: u16)
    requires
        i + 2 <= s@.len(),
    ensures
        r == le16(s@, i as int),
{
    let l = s.len();
    let b0 = s[i] as u16;
    let b1 = s[i + 1] as u16;
    b0 + 0x100 * b1
}

pub fn read_le32(s: &Vec<u8>, i: usize) -> (r: u32)
    requires
        i + 4 <= s@.len(),
    ensures
        r == le32(s@, i as int),
{
    let l = s.len();
    let b0 = s[i] as u32;
    let b1 = s[i + 1] as u32;
    let b2 = s[i + 2] as u32;
    let b3 = s[i + 3] as u32;
    b0 + 0x100 * b1 + 0x10000 * b2 + 0x1000000 * b3
}

pub fn read_le64(s: &Vec<u8>, i: usize) -> (r: u64)
    requires
        i + 8 <= s@.len(),
    ensures
        r == le64(s@, i as int),
{
    let l = s.len();
    let lo = read_le32(s, i) as u64;
    let hi = read_le32(s, i + 4) as u64;
    lo + 0x100000000 * hi
}

/// Appends every byte of `src` to `dst`.
pub fn push_all(dst: &mut Vec<u8>, src: &Vec<u8>)
    ensures
        final(dst)@ == old(dst)@ + src@,
{
    let mut i: usize = 0;
    while i < src.len()
        invariant
            i <= src@.len(),
            dst@ == old(dst)@ + src@.take(i as int),
        decreases src@.len() - i,
    {
        dst.push(src[i]);
        i = i + 1;
        assert(old(dst)@ + src@.take(i as int) =~= (old(dst)@ + src@.take(i - 1)).push(src@[i - 1]));
    }
    assert(src@.take(src@.len() as int) =~= src@);
}

/// Appends `n` zero bytes to `dst`.
pub fn push_zeros(dst: &mut Vec<u8>, n: usize)
    ensures
        final(dst)@ == old(dst)@ + Seq::new(n as nat, |j: int| 0u8),
{
    let mut i: usize = 0;
    while i < n
        invariant
            i <= n,
            dst@ == old(dst)@ + Seq::new(i as nat, |j: int| 0u8),
        decreases n - i,
    {
        dst.push(0u8);
        i = i + 1;
        assert(old(dst)@ + Seq::new(i as nat, |j: int| 0u8) =~= (old(dst)@ + Seq::new((i - 1) as nat,
            |j: int| 0u8)).push(0u8));
    }
}

/// Copies the range `[i, i + n)` of `src` into a fresh vector.
pub fn copy_range(src: &Vec<u8>, i: usize, n: usize) -> (r: Vec<u8>)
    requires
        i + n <= src@.len(),
    ensures
        r@ == src@.subrange(i as int, i + n),
{
    let l = src.len();
    let mut out: Vec<u8> = Vec::new();
    let mut k: usize = 0;
    while k < n
        invariant
            k <= n,
            l == src@.len(),
            i + n <= src@.len(),
            out@ == src@.subrange(i as int, i + k),
        decreases n - k,
    {
        out.push(src[i + k]);
        k = k + 1;
        assert(src@.subrange(i as int, i + k) =~= src@.subrange(i as int, i + k - 1).push(src@[i + k
            - 1]));
    }
    out
}

/// Compares two byte vectors for equality of contents.
pub fn bytes_eq(a: &Vec<u8>, b: &Vec<u8>) -> (r: bool)
    ensures
        r <==> a@ == b@,
{
    if a.len() != b.len() {
        proof {
            assert(a@.len() != b@.len());
        }
        return false;
    }
    let mut i: usize = 0;
    while i < a.len()
        invariant
            i <= a@.len(),
            a@.len() == b@.len(),
            forall|j: int| 0 <= j < i ==> a@[j] == b@[j],
        decreases a@.len() - i,
    {
        if a[i] != b[i] {
            return false;
        }
        i = i + 1;
    }
    proof {
        assert(a@ =~= b@);
    }
    true
}

} // verus!
