//! Little-endian field access on byte buffers (account data and accumulator windows).
use vstd::bytes::*;
use vstd::prelude::*;

verus! {

/// The eight bytes of `b` at `off`, as a sequence.
pub open spec fn window(b: Seq<u8>, off: int, n: int) -> Seq<u8> {
    b.subrange(off, off + n)
}

/// `d` with `d[off..off + new.len()]` replaced by `new`.
pub open spec fn put(d: Seq<u8>, off: int, new: Seq<u8>) -> Seq<u8> {
    d.take(off) + new + d.skip(off + new.len())
}

/// The little-endian `u64` at `d[off..off + 8]`.
pub open spec fn get_u64(d: Seq<u8>, off: int) -> u64 {
    spec_u64_from_le_bytes(window(d, off, 8))
}

/// The little-endian `u32` at `d[off..off + 4]`.
pub open spec fn get_u32(d: Seq<u8>, off: int) -> u32 {
    spec_u32_from_le_bytes(window(d, off, 4))
}

/// `d` with the little-endian `v` stored at `d[off..off + 8]`.
pub open spec fn put_u64(d: Seq<u8>, off: int, v: u64) -> Seq<u8> {
    put(d, off, spec_u64_to_le_bytes(v))
}

/// `d` with the little-endian `v` stored at `d[off..off + 4]`.
pub open spec fn put_u32(d: Seq<u8>, off: int, v: u32) -> Seq<u8> {
    put(d, off, spec_u32_to_le_bytes(v))
}

/// `d` with the byte `v` stored at `d[off]`.
pub open spec fn put_u8(d: Seq<u8>, off: int, v: u8) -> Seq<u8> {
    d.update(off, v)
}

/// Reading back a stored `u64`, and the length of a `put`.
pub proof fn lemma_put_u64(d: Seq<u8>, off: int, v: u64)
    requires
        0 <= off && off + 8 <= d.len(),
    ensures
        put_u64(d, off, v).len() == d.len(),
        get_u64(put_u64(d, off, v), off) == v,
        forall|i: int|
            0 <= i < d.len() && !(off <= i < off + 8) ==> #[trigger] put_u64(d, off, v)[i] == d[i],
{
    lemma_auto_spec_u64_to_from_le_bytes();
    assert(window(put_u64(d, off, v), off, 8) =~= spec_u64_to_le_bytes(v));
}

/// A `u64` whose bytes a write left alone reads the same.
pub proof fn lemma_get_u64_frame(d: Seq<u8>, d2: Seq<u8>, off: int)
    requires
        0 <= off && off + 8 <= d.len(),
        d2.len() == d.len(),
        forall|i: int| off <= i < off + 8 ==> d2[i] == d[i],
    ensures
        get_u64(d2, off) == get_u64(d, off),
{
    assert(window(d2, off, 8) =~= window(d, off, 8));
}

/// Reading back a stored `u32`, and the length of a `put`.
pub proof fn lemma_put_u32(d: Seq<u8>, off: int, v: u32)
    requires
        0 <= off && off + 4 <= d.len(),
    ensures
        put_u32(d, off, v).len() == d.len(),
        get_u32(put_u32(d, off, v), off) == v,
        forall|i: int|
            0 <= i < d.len() && !(off <= i < off + 4) ==> #[trigger] put_u32(d, off, v)[i] == d[i],
{
    lemma_auto_spec_u32_to_from_le_bytes();
    assert(window(put_u32(d, off, v), off, 4) =~= spec_u32_to_le_bytes(v));
}

/// Reads the little-endian `u64` stored at `b[off..off + 8]`.
pub fn read_u64(b: &[u8], off: usize) -> (r: u64)
    requires
        off + 8 <= b@.len(),
    ensures
        r == get_u64(b@, off as int),
{
    let _len = b.len();
    let s = &b[off..off + 8];
    assert(s@ == window(b@, off as int, 8));
    u64_from_le_bytes(s)
}

/// Reads the little-endian `u32` stored at `b[off..off + 4]`.
pub fn read_u32(b: &[u8], off: usize) -> (r: u32)
    requires
        off + 4 <= b@.len(),
    ensures
        r == get_u32(b@, off as int),
{
    let _len = b.len();
    let s = &b[off..off + 4];
    assert(s@ == window(b@, off as int, 4));
    u32_from_le_bytes(s)
}

/// Writes `new` into `buf` at `off`, leaving every other byte as it was.
pub fn write_bytes(buf: &mut [u8], off: usize, new: &[u8])
    requires
        off + new@.len() <= old(buf)@.len(),
    ensures
        final(buf)@ == put(old(buf)@, off as int, new@),
{
    let n = new.len();
    let _len = buf.len();
    let mut i: usize = 0;
    while i < n
        invariant
            n == new@.len(),
            off + n <= buf@.len(),
            buf@.len() == old(buf)@.len(),
            buf@.len() == _len,
            0 <= i <= n,
            forall|k: int| 0 <= k < i ==> #[trigger] buf@[off + k] == new@[k],
            forall|k: int|
                0 <= k < buf@.len() && !(off <= k < off + i) ==> #[trigger] buf@[k] == old(buf)@[k],
        decreases n - i,
    {
        buf[off + i] = new[i];
        i = i + 1;
    }
    let ghost expect = put(old(buf)@, off as int, new@);
    assert forall|k: int| 0 <= k < buf@.len() implies buf@[k] == expect[k] by {
        if off <= k < off + n {
            assert(buf@[off + (k - off)] == new@[k - off]);
        }
    }
    assert(buf@ =~= expect);
}

/// Writes `v` little-endian into `buf[off..off + 8]`.
pub fn write_u64(buf: &mut [u8], off: usize, v: u64)
    requires
        off + 8 <= old(buf)@.len(),
    ensures
        final(buf)@ == put_u64(old(buf)@, off as int, v),
{
    proof {
        lemma_auto_spec_u64_to_from_le_bytes();
    }
    let bs = u64_to_le_bytes(v);
    write_bytes(buf, off, bs.as_slice());
}

/// Writes `v` little-endian into `buf[off..off + 4]`.
pub fn write_u32(buf: &mut [u8], off: usize, v: u32)
    requires
        off + 4 <= old(buf)@.len(),
    ensures
        final(buf)@ == put_u32(old(buf)@, off as int, v),
{
    proof {
        lemma_auto_spec_u32_to_from_le_bytes();
    }
    let bs = u32_to_le_bytes(v);
    write_bytes(buf, off, bs.as_slice());
}

const WINDOW: usize = 64;

/// An all-zero 64-byte window.
pub fn zero_window() -> (r: [u8; 64])
    ensures
        r@ == Seq::new(64, |_i: int| 0u8),
{
    let mut r = [0u8; WINDOW];
    let mut i: usize = 0;
    while i < WINDOW
        invariant
            0 <= i <= WINDOW,
            r@.len() == WINDOW,
            forall|k: int| 0 <= k < i ==> r@[k] == 0u8,
        decreases WINDOW - i,
    {
        r[i] = 0;
        i = i + 1;
    }
    assert(r@ =~= Seq::new(64, |_i: int| 0u8));
    r
}

/// Byte-wise equality of two slices.
pub fn bytes_eq(a: &[u8], b: &[u8]) -> (r: bool)
    ensures
        r == (a@ == b@),
{
    let n = a.len();
    if n != b.len() {
        return false;
    }
    let mut i: usize = 0;
    while i < n
        invariant
            n == a@.len(),
            n == b@.len(),
            0 <= i <= n,
            forall|k: int| 0 <= k < i ==> a@[k] == b@[k],
        decreases n - i,
    {
        if a[i] != b[i] {
            return false;
        }
        i = i + 1;
    }
    assert(a@ =~= b@);
    true
}

} // verus!
