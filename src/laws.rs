//! Properties of the arena that hold across several operations.
use vstd::prelude::*;
use crate::arena::{ArenaView, EditRejection, ROOT, MAX_EDIT_LEN, arena_wf, start_of, allocated, block_pos, searched, edited};
use crate::word::{pack, word_at, put_word, put_bytes, lemma_put_word_read, lemma_word_same};

verus! {

/// Allocating each of `sizes` in turn: the arena after them and each result.
pub open spec fn allocate_all(m: ArenaView, sizes: Seq<u64>) -> (ArenaView, Seq<Option<u64>>)
    decreases sizes.len(),
{
    if sizes.len() == 0 {
        (m, Seq::empty())
    } else {
        let (m1, ps) = allocate_all(m, sizes.drop_last());
        let (m2, p) = allocated(m1, sizes.last());
        (m2, ps.push(p))
    }
}

/// Bytes taken by the first `k` blocks of `sizes`, headers included.
pub open spec fn span(sizes: Seq<u64>, k: nat) -> int
    decreases k,
{
    if k == 0 || k > sizes.len() {
        0
    } else {
        span(sizes, (k - 1) as nat) + 16 + sizes[k - 1]
    }
}

/// Editing the block at `pos` with each of `datas` in turn, `resize` set.
pub open spec fn truncate_all(s: Seq<u8>, pos: u64, datas: Seq<Seq<u8>>) -> Seq<u8>
    decreases datas.len(),
{
    if datas.len() == 0 {
        s
    } else {
        edited(truncate_all(s, pos, datas.drop_last()), pos, datas.last(), true).0
    }
}

/// One allocation never moves the frontier back. A successful one sets it
/// `16 + size` bytes past where the block starts, so strictly past where it
/// was; a failed one leaves it.
pub proof fn lemma_allocate_frontier(m: ArenaView, size: u64)
    requires
        arena_wf(m),
    ensures
        arena_wf(allocated(m, size).0),
        allocated(m, size).0.frontier >= m.frontier,
        allocated(m, size).1 is Some ==> allocated(m, size).0.frontier == start_of(m.frontier)
            + 16 + size && allocated(m, size).0.frontier > m.frontier,
        allocated(m, size).1 is None ==> allocated(m, size).0.frontier == m.frontier,
{
}

/// Over any run of allocations the frontier never decreases; while every
/// allocation succeeds it grows by `16 + size` for each of them.
pub proof fn lemma_frontier_monotonic(m: ArenaView, sizes: Seq<u64>)
    requires
        arena_wf(m),
    ensures
        arena_wf(allocate_all(m, sizes).0),
        allocate_all(m, sizes).0.region.len() == m.region.len(),
        allocate_all(m, sizes).0.frontier >= m.frontier,
        (forall|k: int| 0 <= k < sizes.len() ==> #[trigger] allocate_all(m, sizes).1[k] is Some)
            && sizes.len() > 0 ==> allocate_all(m, sizes).0.frontier == start_of(m.frontier)
            + span(sizes, sizes.len()),
        allocate_all(m, sizes).1.len() == sizes.len(),
    decreases sizes.len(),
{
    if sizes.len() > 0 {
        let init = sizes.drop_last();
        lemma_frontier_monotonic(m, init);
        let (m1, ps) = allocate_all(m, init);
        lemma_allocate_frontier(m1, sizes.last());
        lemma_span_prefix(sizes, init, init.len());
        let all_ok = forall|k: int| 0 <= k < sizes.len() ==> #[trigger] allocate_all(m, sizes).1[k] is Some;
        if all_ok {
            assert forall|k: int| 0 <= k < init.len() implies #[trigger] ps[k] is Some by {
                assert(allocate_all(m, sizes).1[k] is Some);
            }
            assert(allocate_all(m, sizes).1[init.len() as int] is Some);
            let (m2, p) = allocated(m1, sizes.last());
            assert(p is Some);
            assert(m2.frontier == start_of(m1.frontier) + 16 + sizes.last());
            lemma_span_mono(sizes, init.len(), init.len());
            if init.len() > 0 {
                assert(m1.frontier == start_of(m.frontier) + span(init, init.len()));
                assert(start_of(m1.frontier) == start_of(m.frontier) + span(sizes, init.len()));
            }
            if init.len() == 0 {
                assert(m1 == m);
            }
            assert(span(sizes, sizes.len()) == span(sizes, init.len()) + 16 + sizes.last());
        }
    }
}

/// The first `k` blocks take as many bytes whatever follows them.
proof fn lemma_span_prefix(sizes: Seq<u64>, init: Seq<u64>, k: nat)
    requires
        init.len() <= sizes.len(),
        forall|j: int| 0 <= j < init.len() ==> init[j] == sizes[j],
        k <= init.len(),
    ensures
        span(init, k) == span(sizes, k),
    decreases k,
{
    if k > 0 {
        lemma_span_prefix(sizes, init, (k - 1) as nat);
    }
}

/// Prefixes take no fewer bytes as they grow, and never a negative number.
proof fn lemma_span_mono(sizes: Seq<u64>, j: nat, k: nat)
    requires
        j <= k <= sizes.len(),
    ensures
        0 <= span(sizes, j) <= span(sizes, k),
    decreases k,
{
    if k > 0 {
        if j < k {
            lemma_span_mono(sizes, j, (k - 1) as nat);
        } else {
            lemma_span_mono(sizes, (k - 1) as nat, (k - 1) as nat);
        }
    }
}

/// Each block ends no later than the next one starts.
proof fn lemma_span_grows(sizes: Seq<u64>, j: nat, k: nat)
    requires
        j < k <= sizes.len(),
    ensures
        span(sizes, j) + 16 + sizes[j as int] <= span(sizes, k),
    decreases k - j,
{
    if j + 1 < k {
        lemma_span_grows(sizes, j, (k - 1) as nat);
    }
}

/// After allocations from an arena whose frontier is unset, all of which
/// succeed, block `k` (from 0) starts `span(sizes, k)` bytes past the root
/// and its two header words hold its length-word offset and its size.
proof fn lemma_alloc_layout(m: ArenaView, sizes: Seq<u64>)
    requires
        arena_wf(m),
        m.frontier == 0,
        forall|k: int| 0 <= k < sizes.len() ==> #[trigger] allocate_all(m, sizes).1[k] is Some,
    ensures
        allocate_all(m, sizes).1.len() == sizes.len(),
        forall|k: int|
            0 <= k < sizes.len() ==> #[trigger] allocate_all(m, sizes).1[k] == Some(
                (ROOT + span(sizes, k as nat) + 16) as u64,
            ),
        forall|k: nat|
            k < sizes.len() ==> #[trigger] word_at(
                allocate_all(m, sizes).0.region,
                ROOT + span(sizes, k),
            ) == Some((ROOT + span(sizes, k) + 8) as u64) && word_at(
                allocate_all(m, sizes).0.region,
                ROOT + span(sizes, k) + 8,
            ) == Some(sizes[k as int]),
        start_of(allocate_all(m, sizes).0.frontier) == ROOT + span(sizes, sizes.len()),
        sizes.len() > 0 ==> ROOT + span(sizes, sizes.len()) <= m.region.len(),
        allocate_all(m, sizes).0.region.len() == m.region.len(),
    decreases sizes.len(),
{
    lemma_frontier_monotonic(m, sizes);
    if sizes.len() > 0 {
        let n = sizes.len();
        let init = sizes.drop_last();
        let (m1, ps) = allocate_all(m, init);
        let (m2, p) = allocated(m1, sizes.last());
        assert forall|k: int| 0 <= k < init.len() implies #[trigger] ps[k] is Some by {
            assert(allocate_all(m, sizes).1[k] is Some);
        }
        assert(allocate_all(m, sizes).1[init.len() as int] is Some);
        lemma_alloc_layout(m, init);
        lemma_span_prefix(sizes, init, init.len());
        let start = ROOT + span(sizes, (n - 1) as nat);
        assert(start == start_of(m1.frontier));
        let r1 = put_word(m1.region, start, (start + 8) as u64);
        let r2 = put_word(r1, start + 8, sizes.last());
        assert(m2.region == r2);
        lemma_put_word_read(m1.region, start, (start + 8) as u64);
        lemma_put_word_read(r1, start + 8, sizes.last());
        lemma_word_same(r1, r2, start);
        assert forall|k: int| 0 <= k < n implies #[trigger] allocate_all(m, sizes).1[k] == Some(
            (ROOT + span(sizes, k as nat) + 16) as u64,
        ) by {
            if k < n - 1 {
                lemma_span_prefix(sizes, init, k as nat);
            }
        }
        assert forall|k: nat| k < n implies #[trigger] word_at(
            allocate_all(m, sizes).0.region,
            ROOT + span(sizes, k),
        ) == Some((ROOT + span(sizes, k) + 8) as u64) && word_at(
            allocate_all(m, sizes).0.region,
            ROOT + span(sizes, k) + 8,
        ) == Some(sizes[k as int]) by {
            if k < n - 1 {
                lemma_span_prefix(sizes, init, k);
                lemma_span_grows(sizes, k, (n - 1) as nat);
                let h = ROOT + span(sizes, k);
                assert(word_at(m1.region, ROOT + span(init, k)) == Some((ROOT + span(init, k) + 8) as u64));
                assert(word_at(m1.region, h + 8) == Some(sizes[k as int]));
                lemma_word_same(m1.region, r2, h);
                lemma_word_same(m1.region, r2, h + 8);
            }
        }
    }
}

/// Following the chain over the headers laid down by `lemma_alloc_layout`
/// reaches block `k + 1`'s length word.
proof fn lemma_chain(s: Seq<u8>, sizes: Seq<u64>, k: nat)
    requires
        k < sizes.len(),
        ROOT + span(sizes, sizes.len()) <= s.len(),
        s.len() <= u64::MAX,
        forall|j: nat|
            j < sizes.len() ==> #[trigger] word_at(s, ROOT + span(sizes, j)) == Some(
                (ROOT + span(sizes, j) + 8) as u64,
            ) && word_at(s, ROOT + span(sizes, j) + 8) == Some(sizes[j as int]),
    ensures
        block_pos(s, k + 1) == ROOT + span(sizes, k) + 8,
    decreases k,
{
    lemma_span_mono(sizes, k, sizes.len());
    lemma_span_grows(sizes, k, sizes.len());
    if k == 0 {
        assert(word_at(s, ROOT + span(sizes, 0)) == Some((ROOT + span(sizes, 0) + 8) as u64));
    } else {
        let j = (k - 1) as nat;
        lemma_chain(s, sizes, j);
        assert(word_at(s, ROOT + span(sizes, j)) == Some((ROOT + span(sizes, j) + 8) as u64));
        assert(word_at(s, ROOT + span(sizes, j) + 8) == Some(sizes[j as int]));
        assert(word_at(s, ROOT + span(sizes, k)) == Some((ROOT + span(sizes, k) + 8) as u64));
    }
}

/// After `n` successful allocations from an arena whose frontier is unset,
/// searching block `i`, for each `1 <= i <= n`, reports the `i`-th size and
/// the payload offset that the `i`-th allocation returned.
pub proof fn lemma_index_consistency(m: ArenaView, sizes: Seq<u64>)
    requires
        arena_wf(m),
        m.frontier == 0,
        forall|k: int| 0 <= k < sizes.len() ==> #[trigger] allocate_all(m, sizes).1[k] is Some,
    ensures
        forall|i: int|
            1 <= i <= sizes.len() ==> #[trigger] searched(allocate_all(m, sizes).0.region, i as nat)
                == (sizes[i - 1], allocate_all(m, sizes).1[i - 1]->Some_0),
{
    lemma_alloc_layout(m, sizes);
    let s = allocate_all(m, sizes).0.region;
    assert(s.len() <= u64::MAX);
    assert forall|i: int| 1 <= i <= sizes.len() implies #[trigger] searched(s, i as nat) == (
    sizes[i - 1], allocate_all(m, sizes).1[i - 1]->Some_0) by {
        let j = (i - 1) as nat;
        lemma_chain(s, sizes, j);
        lemma_span_grows(sizes, j, sizes.len());
        lemma_span_mono(sizes, j, sizes.len());
        assert(word_at(s, ROOT + span(sizes, j)) == Some((ROOT + span(sizes, j) + 8) as u64));
        assert(word_at(s, ROOT + span(sizes, j) + 8) == Some(sizes[j as int]));
    }
}

/// An edit never grows the length stored for the block it edits, and one
/// with at least as many bytes as the block holds leaves that length as it
/// was, `resize` or not.
pub proof fn lemma_edit_never_grows(s: Seq<u8>, pos: u64, data: Seq<u8>, resize: bool)
    requires
        pos >= 8,
        word_at(s, pos - 8) is Some,
    ensures
        edited(s, pos, data, resize).0.len() == s.len(),
        word_at(edited(s, pos, data, resize).0, pos - 8) is Some,
        word_at(edited(s, pos, data, resize).0, pos - 8)->Some_0 <= word_at(s, pos - 8)->Some_0,
        data.len() >= word_at(s, pos - 8)->Some_0 ==> word_at(edited(s, pos, data, resize).0, pos - 8)
            == word_at(s, pos - 8),
{
    let len = word_at(s, pos - 8)->Some_0;
    let t = edited(s, pos, data, resize).0;
    if edited(s, pos, data, resize).1 is Ok {
        if resize && data.len() < len {
            let r1 = put_bytes(s, pos as int, data);
            let r2 = put_word(r1, pos + data.len(), pack(s, pos + len));
            lemma_put_word_read(r2, pos - 8, data.len() as u64);
        } else {
            lemma_word_same(s, t, pos - 8);
        }
    }
}

/// Repeated truncating edits of one block never grow its stored length.
pub proof fn lemma_truncation_shrinks(s: Seq<u8>, pos: u64, datas: Seq<Seq<u8>>)
    requires
        pos >= 8,
        word_at(s, pos - 8) is Some,
    ensures
        truncate_all(s, pos, datas).len() == s.len(),
        word_at(truncate_all(s, pos, datas), pos - 8) is Some,
        word_at(truncate_all(s, pos, datas), pos - 8)->Some_0 <= word_at(s, pos - 8)->Some_0,
    decreases datas.len(),
{
    if datas.len() > 0 {
        lemma_truncation_shrinks(s, pos, datas.drop_last());
        lemma_edit_never_grows(truncate_all(s, pos, datas.drop_last()), pos, datas.last(), true);
    }
}

/// An edit with more bytes than the block's length plus one word, or than the
/// absolute cap, leaves every byte of the region as it was.
pub proof fn lemma_oversized_rejected(s: Seq<u8>, pos: u64, data: Seq<u8>, resize: bool)
    requires
        pos >= 8,
        word_at(s, pos - 8) is Some,
        data.len() > word_at(s, pos - 8)->Some_0 + 8 || data.len() > MAX_EDIT_LEN,
    ensures
        edited(s, pos, data, resize).0 == s,
        edited(s, pos, data, resize).1 is Err,
{
}

/// An edit of a block of length `L` (at most `MAX_EDIT_LEN - 8`) with exactly
/// `L + 8` bytes succeeds and writes the last eight of them over the word
/// right after the payload, the next block's self-locator; no byte outside
/// the payload and that word changes.
pub proof fn lemma_overflow_window(s: Seq<u8>, pos: u64, data: Seq<u8>, resize: bool)
    requires
        pos >= 8,
        word_at(s, pos - 8) is Some,
        1 <= word_at(s, pos - 8)->Some_0 <= MAX_EDIT_LEN - 8,
        pos + word_at(s, pos - 8)->Some_0 + 8 <= s.len(),
        data.len() == word_at(s, pos - 8)->Some_0 + 8,
    ensures
        edited(s, pos, data, resize).1 == Ok::<(), EditRejection>(()),
        edited(s, pos, data, resize).0.len() == s.len(),
        edited(s, pos, data, resize).0.subrange(
            pos + data.len() - 8,
            pos + data.len(),
        ) == data.subrange(data.len() - 8, data.len() as int),
        forall|j: int|
            0 <= j < s.len() && !(pos <= j < pos + data.len()) ==> #[trigger] edited(
                s,
                pos,
                data,
                resize,
            ).0[j] == s[j],
{
    let t = edited(s, pos, data, resize).0;
    assert(t.subrange(pos + data.len() - 8, pos + data.len()) =~= data.subrange(
        data.len() - 8,
        data.len() as int,
    ));
}

} // verus!
