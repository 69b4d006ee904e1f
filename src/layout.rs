//! Where the header, the items and the footer lie in a source, and which
//! chunks they make.
use vstd::prelude::*;

use crate::counters::{chunk_of, slot_of};

verus! {

/// The boundaries that a scan of the source found: the header is
/// `[0, header_end)`, item `i` ends at `ends[i]` and starts where the one
/// before it ended (the first one at `header_end`).
pub struct Layout {
    pub header_end: int,
    pub ends: Seq<int>,
}

/// Number of items in the layout.
pub open spec fn item_count(lay: Layout) -> nat {
    lay.ends.len()
}

/// Start of item `i`: the end of the item before it, or the header's end.
pub open spec fn item_start(lay: Layout, i: int) -> int {
    if i <= 0 {
        lay.header_end
    } else {
        lay.ends[i - 1]
    }
}

/// The bytes of item `i`, with the text that precedes it since the item before.
pub open spec fn item_bytes(src: Seq<u8>, lay: Layout, i: int) -> Seq<u8> {
    src.subrange(item_start(lay, i), lay.ends[i])
}

/// The bytes of items `a..b`, one after the other.
pub open spec fn items_concat(src: Seq<u8>, lay: Layout, a: int, b: int) -> Seq<u8>
    decreases b - a,
{
    if b <= a {
        Seq::empty()
    } else {
        items_concat(src, lay, a, b - 1) + item_bytes(src, lay, b - 1)
    }
}

/// The bytes before the first item.
pub open spec fn header_bytes(src: Seq<u8>, lay: Layout) -> Seq<u8> {
    src.subrange(0, lay.header_end)
}

/// The bytes after the last item.
pub open spec fn footer_bytes(src: Seq<u8>, lay: Layout) -> Seq<u8> {
    src.subrange(item_start(lay, item_count(lay) as int), src.len() as int)
}

/// Number of chunks that `k` items make with `n` items per chunk: `ceil(k / n)`,
/// and a single chunk when `n == 0` and there is any item.
pub open spec fn chunk_count(k: nat, n: nat) -> nat {
    if n == 0 {
        if k == 0 {
            0
        } else {
            1
        }
    } else {
        ((k + n - 1) as nat / n) as nat
    }
}

/// First item of chunk `j`.
pub open spec fn chunk_first(j: nat, n: nat) -> nat {
    j * n
}

/// One past the last item of chunk `j` when there are `k` items.
pub open spec fn chunk_last(j: nat, n: nat, k: nat) -> nat {
    if n == 0 || (j + 1) * n > k {
        k
    } else {
        (j + 1) * n
    }
}

/// Chunk `j` as it stands before the footer is added: header and its items.
pub open spec fn chunk_body(src: Seq<u8>, lay: Layout, n: nat, j: nat) -> Seq<u8> {
    header_bytes(src, lay) + items_concat(
        src,
        lay,
        chunk_first(j, n) as int,
        chunk_last(j, n, item_count(lay)) as int,
    )
}

/// The chunks before the footer pass.
pub open spec fn open_chunks(src: Seq<u8>, lay: Layout, n: nat) -> Seq<Seq<u8>> {
    Seq::new(chunk_count(item_count(lay), n), |j: int| chunk_body(src, lay, n, j as nat))
}

/// The finished chunks: header, the chunk's items, footer.
pub open spec fn chunks_of(src: Seq<u8>, lay: Layout, n: nat) -> Seq<Seq<u8>> {
    Seq::new(
        chunk_count(item_count(lay), n),
        |j: int| chunk_body(src, lay, n, j as nat) + footer_bytes(src, lay),
    )
}

/// Boundaries that lie inside the source and in order.
pub open spec fn layout_wf(src: Seq<u8>, lay: Layout) -> bool {
    &&& 0 <= lay.header_end <= src.len()
    &&& forall|i: int|
        0 <= i < lay.ends.len() ==> item_start(lay, i) < #[trigger] lay.ends[i] <= src.len()
}

/// What placing item `k` does to the chunk count and to the chunk it goes to.
pub proof fn lemma_chunk_step(k: nat, n: nat)
    ensures
        slot_of(k, n) == 0 ==> chunk_count(k + 1, n) == chunk_count(k, n) + 1 && chunk_of(k, n)
            == chunk_count(k, n) && chunk_first(chunk_of(k, n), n) == k,
        slot_of(k, n) != 0 ==> chunk_count(k + 1, n) == chunk_count(k, n) && chunk_of(k, n) + 1
            == chunk_count(k, n),
        chunk_first(chunk_of(k, n), n) <= k,
        chunk_last(chunk_of(k, n), n, k + 1) == k + 1,
        forall|j: nat| j < chunk_of(k, n) ==> chunk_last(j, n, k + 1) == chunk_last(j, n, k),
        slot_of(k, n) != 0 ==> chunk_last(chunk_of(k, n), n, k) == k,
        chunk_count(0, n) == 0,
{
    if n > 0 {
        vstd::arithmetic::div_mod::lemma_basic_div((n - 1) as int, n as int);
        let q = k / n;
        let r = k % n;
        vstd::arithmetic::div_mod::lemma_fundamental_div_mod(k as int, n as int);
        vstd::arithmetic::div_mod::lemma_mod_pos_bound(k as int, n as int);
        vstd::arithmetic::div_mod::lemma_div_pos_is_pos(k as int, n as int);
        assert(k == q * n + r);
        if r == 0 {
            assert(((k + n - 1) as nat) as int == q * n + (n - 1)) by (nonlinear_arith)
                requires k == q * n + r, r == 0, n > 0;
            vstd::arithmetic::div_mod::lemma_fundamental_div_mod_converse(
                (k + n - 1) as int, n as int, q as int, (n - 1) as int);
            assert(((k + 1 + n - 1) as nat) as int == (q + 1) * n + 0) by (nonlinear_arith)
                requires k == q * n + r, r == 0, n > 0;
            vstd::arithmetic::div_mod::lemma_fundamental_div_mod_converse(
                (k + 1 + n - 1) as int, n as int, (q + 1) as int, 0);
        } else {
            assert(((k + n - 1) as nat) as int == (q + 1) * n + (r - 1)) by (nonlinear_arith)
                requires k == q * n + r, n > 0, r > 0;
            vstd::arithmetic::div_mod::lemma_fundamental_div_mod_converse(
                (k + n - 1) as int, n as int, (q + 1) as int, (r - 1) as int);
            assert(((k + 1 + n - 1) as nat) as int == (q + 1) * n + r) by (nonlinear_arith)
                requires k == q * n + r, n > 0, r > 0;
            vstd::arithmetic::div_mod::lemma_fundamental_div_mod_converse(
                (k + 1 + n - 1) as int, n as int, (q + 1) as int, r as int);
        }
        assert((q + 1) * n == q * n + n) by (nonlinear_arith);
        assert forall|j: nat| j < q implies chunk_last(j, n, k + 1) == chunk_last(j, n, k) by {
            assert((j + 1) * n <= q * n) by (nonlinear_arith)
                requires j < q, n > 0;
        }
    }
}

} // verus!
