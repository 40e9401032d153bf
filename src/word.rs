//! Little-endian 64-bit words stored in a byte region.
use vstd::prelude::*;

verus! {

/// The value of the little-endian word made of `s[off..off + 8]`.
pub open spec fn pack(s: Seq<u8>, off: int) -> u64 {
    (s[off] as u64)
        | ((s[off + 1] as u64) << 8u64)
        | ((s[off + 2] as u64) << 16u64)
        | ((s[off + 3] as u64) << 24u64)
        | ((s[off + 4] as u64) << 32u64)
        | ((s[off + 5] as u64) << 40u64)
        | ((s[off + 6] as u64) << 48u64)
        | ((s[off + 7] as u64) << 56u64)
}

/// Byte `i` (0 = least significant) of `v`.
pub open spec fn byte_of(v: u64, i: int) -> u8 {
    ((v >> ((8 * i) as u64)) & 0xffu64) as u8
}

/// The word stored at `off`, or `None` when it does not lie inside `s`.
pub open spec fn word_at(s: Seq<u8>, off: int) -> Option<u64> {
    if 0 <= off && off + 8 <= s.len() {
        Some(pack(s, off))
    } else {
        None
    }
}

/// `s` with the little-endian bytes of `v` stored at `off`.
pub open spec fn put_word(s: Seq<u8>, off: int, v: u64) -> Seq<u8> {
    Seq::new(s.len(), |j: int| if off <= j < off + 8 { byte_of(v, j - off) } else { s[j] })
}

/// `s` with `data` copied in at `off`.
pub open spec fn put_bytes(s: Seq<u8>, off: int, data: Seq<u8>) -> Seq<u8> {
    Seq::new(s.len(), |j: int| if off <= j < off + data.len() { data[j - off] } else { s[j] })
}

proof fn lemma_bytes_pack(v: u64)
    by (bit_vector)
    ensures
        (((v >> 0u64) & 0xff) as u8 as u64)
            | ((((v >> 8u64) & 0xff) as u8 as u64) << 8u64)
            | ((((v >> 16u64) & 0xff) as u8 as u64) << 16u64)
            | ((((v >> 24u64) & 0xff) as u8 as u64) << 24u64)
            | ((((v >> 32u64) & 0xff) as u8 as u64) << 32u64)
            | ((((v >> 40u64) & 0xff) as u8 as u64) << 40u64)
            | ((((v >> 48u64) & 0xff) as u8 as u64) << 48u64)
            | ((((v >> 56u64) & 0xff) as u8 as u64) << 56u64) == v,
{
}

/// Reading back a word that was just stored gives the stored value.
pub proof fn lemma_put_word_read(s: Seq<u8>, off: int, v: u64)
    requires
        0 <= off,
        off + 8 <= s.len(),
    ensures
        word_at(put_word(s, off, v), off) == Some(v),
{
    let t = put_word(s, off, v);
    assert(t[off] == ((v >> 0u64) & 0xff) as u8);
    assert(t[off + 1] == ((v >> 8u64) & 0xff) as u8);
    assert(t[off + 2] == ((v >> 16u64) & 0xff) as u8);
    assert(t[off + 3] == ((v >> 24u64) & 0xff) as u8);
    assert(t[off + 4] == ((v >> 32u64) & 0xff) as u8);
    assert(t[off + 5] == ((v >> 40u64) & 0xff) as u8);
    assert(t[off + 6] == ((v >> 48u64) & 0xff) as u8);
    assert(t[off + 7] == ((v >> 56u64) & 0xff) as u8);
    lemma_bytes_pack(v);
}

/// A word whose bytes are all left as they were reads as before.
pub proof fn lemma_word_same(s: Seq<u8>, t: Seq<u8>, off: int)
    requires
        s.len() == t.len(),
        forall|j: int| off <= j < off + 8 ==> s[j] == t[j],
    ensures
        word_at(s, off) == word_at(t, off),
{
    if 0 <= off && off + 8 <= s.len() {
        assert(s[off] == t[off]);
        assert(s[off + 1] == t[off + 1]);
        assert(s[off + 2] == t[off + 2]);
        assert(s[off + 3] == t[off + 3]);
        assert(s[off + 4] == t[off + 4]);
        assert(s[off + 5] == t[off + 5]);
        assert(s[off + 6] == t[off + 6]);
        assert(s[off + 7] == t[off + 7]);
    }
}

/// Reads the word at `off` of `s`.
pub fn read_word(s: &Vec<u8>, off: usize) -> (r: u64)
    requires
        off + 8 <= s@.len(),
    ensures
        word_at(s@, off as int) == Some(r),
{
    let n = s.len();
    assert(off + 8 <= n);
    (s[off] as u64)
        | ((s[off + 1] as u64) << 8u64)
        | ((s[off + 2] as u64) << 16u64)
        | ((s[off + 3] as u64) << 24u64)
        | ((s[off + 4] as u64) << 32u64)
        | ((s[off + 5] as u64) << 40u64)
        | ((s[off + 6] as u64) << 48u64)
        | ((s[off + 7] as u64) << 56u64)
}

/// Stores `v` as a little-endian word at `off` of `s`.
pub fn write_word(s: &mut Vec<u8>, off: usize, v: u64)
    requires
        off + 8 <= old(s)@.len(),
    ensures
        final(s)@ == put_word(old(s)@, off as int, v),
{
    let n = s.len();
    let mut i: usize = 0;
    while i < 8
        invariant
            i <= 8,
            off + 8 <= n,
            n == s@.len(),
            s@.len() == old(s)@.len(),
            forall|j: int|
                0 <= j < s@.len() ==> s@[j] == (if off <= j < off + i {
                    byte_of(v, j - off)
                } else {
                    old(s)@[j]
                }),
        decreases 8 - i,
    {
        let b = #[verifier::truncate] (((v >> ((8 * i) as u64)) & 0xffu64) as u8);
        s.set(off + i, b);
        i = i + 1;
    }
    assert(s@ =~= put_word(old(s)@, off as int, v));
}

/// Copies `data` into `s` starting at `off`.
pub fn write_bytes(s: &mut Vec<u8>, off: usize, data: &[u8])
    requires
        off + data@.len() <= old(s)@.len(),
    ensures
        final(s)@ == put_bytes(old(s)@, off as int, data@),
{
    let n = s.len();
    let mut i: usize = 0;
    while i < data.len()
        invariant
            i <= data@.len(),
            off + data@.len() <= n,
            n == s@.len(),
            s@.len() == old(s)@.len(),
            forall|j: int|
                0 <= j < s@.len() ==> s@[j] == (if off <= j < off + i {
                    data@[j - off]
                } else {
                    old(s)@[j]
                }),
        decreases data@.len() - i,
    {
        s.set(off + i, data[i]);
        i = i + 1;
    }
    assert(s@ =~= put_bytes(old(s)@, off as int, data@));
}

} // verus!
