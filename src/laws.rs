//! What holds of every split: how many chunks there are, which items each
//! one holds, and how its bytes are made.
use vstd::prelude::*;

use crate::counters::chunk_of;
use crate::layout::{
    chunk_count, chunk_first, chunk_last, footer_bytes, header_bytes, item_count, items_concat,
    lemma_chunk_step,
};
use crate::source::scan_layout;
use crate::splitter::split_result;

verus! {

/// With `n >= 1` items per chunk, `k` items make `ceil(k / n)` chunks; chunk
/// `j` holds exactly items `j * n` up to `min((j + 1) * n, k)`, and every item
/// lies in chunk `i / n`.
pub proof fn lemma_chunk_partition(src: Seq<u8>, tag: Seq<u8>, n: nat)
    requires
        n >= 1,
        scan_layout(src, tag) is Ok,
    ensures
        ({
            let lay = scan_layout(src, tag)->Ok_0;
            let k = item_count(lay);
            let cs = split_result(src, tag, n)->Ok_0;
            &&& split_result(src, tag, n) is Ok
            &&& cs.len() == (k + n - 1) as nat / n
            &&& forall|j: int|
                0 <= j < cs.len() ==> #[trigger] cs[j] == header_bytes(src, lay) + items_concat(
                    src,
                    lay,
                    j * n,
                    if (j + 1) * n <= k {
                        (j + 1) * n
                    } else {
                        k as int
                    },
                ) + footer_bytes(src, lay)
            &&& forall|i: int|
                0 <= i < k ==> #[trigger] (i / n as int) < cs.len() && (i / n as int) * n <= i
                    < (i / n as int + 1) * n
        }),
{
    let lay = scan_layout(src, tag)->Ok_0;
    let k = item_count(lay);
    let cs = split_result(src, tag, n)->Ok_0;
    assert forall|j: int| 0 <= j < cs.len() implies #[trigger] cs[j] == header_bytes(
        src,
        lay,
    ) + items_concat(
        src,
        lay,
        j * n,
        if (j + 1) * n <= k {
            (j + 1) * n
        } else {
            k as int
        },
    ) + footer_bytes(src, lay) by {
        assert(chunk_first(j as nat, n) == j * n);
    }
    assert forall|i: int| 0 <= i < k implies #[trigger] (i / n as int) < cs.len() && (i / n as int)
        * n <= i < (i / n as int + 1) * n by {
        let q = i / n as int;
        vstd::arithmetic::div_mod::lemma_fundamental_div_mod(i, n as int);
        vstd::arithmetic::div_mod::lemma_mod_pos_bound(i, n as int);
        assert((q + 1) * n == q * n + n) by (nonlinear_arith);
        assert((q + 1) * n <= k + n - 1);
        vstd::arithmetic::div_mod::lemma_div_is_ordered((q + 1) * n, (k + n - 1) as int, n as int);
        vstd::arithmetic::div_mod::lemma_div_by_multiple(q + 1, n as int);
    }
}

/// Every chunk is, byte for byte, the header, then the source bytes of the
/// items assigned to it in order, then the footer; item `i` is assigned to
/// chunk `i / n` (to chunk 0 when `n == 0`), and that chunk exists.
pub proof fn lemma_chunk_bytes(src: Seq<u8>, tag: Seq<u8>, n: nat)
    requires
        scan_layout(src, tag) is Ok,
    ensures
        ({
            let lay = scan_layout(src, tag)->Ok_0;
            let k = item_count(lay);
            let cs = split_result(src, tag, n)->Ok_0;
            &&& split_result(src, tag, n) is Ok
            &&& cs.len() == chunk_count(k, n)
            &&& forall|j: int|
                0 <= j < cs.len() ==> #[trigger] cs[j] == header_bytes(src, lay) + items_concat(
                    src,
                    lay,
                    chunk_first(j as nat, n) as int,
                    chunk_last(j as nat, n, k) as int,
                ) + footer_bytes(src, lay)
            &&& forall|i: nat|
                i < k ==> #[trigger] chunk_of(i, n) < cs.len() && chunk_first(chunk_of(i, n), n)
                    <= i < chunk_last(chunk_of(i, n), n, k)
        }),
{
    let lay = scan_layout(src, tag)->Ok_0;
    let k = item_count(lay);
    assert forall|i: nat| i < k implies #[trigger] chunk_of(i, n) < chunk_count(k, n) && chunk_first(
        chunk_of(i, n),
        n,
    ) <= i < chunk_last(chunk_of(i, n), n, k) by {
        lemma_chunk_step(i, n);
        if n > 0 {
            lemma_chunk_partition(src, tag, n);
            let q = i / n;
            vstd::arithmetic::div_mod::lemma_fundamental_div_mod(i as int, n as int);
            vstd::arithmetic::div_mod::lemma_mod_pos_bound(i as int, n as int);
            assert((q + 1) * n == q * n + n) by (nonlinear_arith);
        }
    }
}

/// All chunks start with the same header and end with the same footer.
pub proof fn lemma_shared_header_footer(src: Seq<u8>, tag: Seq<u8>, n: nat)
    requires
        scan_layout(src, tag) is Ok,
    ensures
        ({
            let lay = scan_layout(src, tag)->Ok_0;
            let h = header_bytes(src, lay);
            let f = footer_bytes(src, lay);
            let cs = split_result(src, tag, n)->Ok_0;
            forall|j: int|
                0 <= j < cs.len() ==> {
                    &&& h.len() + f.len() <= (#[trigger] cs[j]).len()
                    &&& cs[j].subrange(0, h.len() as int) == h
                    &&& cs[j].subrange(cs[j].len() - f.len(), cs[j].len() as int) == f
                }
        }),
{
    let lay = scan_layout(src, tag)->Ok_0;
    let h = header_bytes(src, lay);
    let f = footer_bytes(src, lay);
    let cs = split_result(src, tag, n)->Ok_0;
    assert forall|j: int| 0 <= j < cs.len() implies {
        &&& h.len() + f.len() <= (#[trigger] cs[j]).len()
        &&& cs[j].subrange(0, h.len() as int) == h
        &&& cs[j].subrange(cs[j].len() - f.len(), cs[j].len() as int) == f
    } by {
        let body = items_concat(
            src,
            lay,
            chunk_first(j as nat, n) as int,
            chunk_last(j as nat, n, item_count(lay)) as int,
        );
        assert(cs[j] == h + body + f);
        assert((h + body + f).subrange(0, h.len() as int) =~= h);
        assert((h + body + f).subrange(cs[j].len() - f.len(), cs[j].len() as int) =~= f);
    }
}

/// A source without any item gives no chunk at all.
pub proof fn lemma_no_items_no_chunks(src: Seq<u8>, tag: Seq<u8>, n: nat)
    requires
        scan_layout(src, tag) is Ok,
        item_count(scan_layout(src, tag)->Ok_0) == 0,
    ensures
        split_result(src, tag, n) == Ok::<Seq<Seq<u8>>, int>(Seq::empty()),
{
    lemma_chunk_step(0, n);
    assert(split_result(src, tag, n)->Ok_0 =~= Seq::empty());
}

/// The same source, tag and chunk size always give the same chunks (or the
/// same failure).
pub proof fn lemma_deterministic(
    src1: Seq<u8>,
    src2: Seq<u8>,
    tag1: Seq<u8>,
    tag2: Seq<u8>,
    n1: nat,
    n2: nat,
)
    requires
        src1 == src2,
        tag1 == tag2,
        n1 == n2,
    ensures
        split_result(src1, tag1, n1) == split_result(src2, tag2, n2),
{
}

/// With no limit per chunk (`n == 0`), a source with items gives exactly one
/// chunk, holding all of them.
pub proof fn lemma_unbounded_single_chunk(src: Seq<u8>, tag: Seq<u8>)
    requires
        scan_layout(src, tag) is Ok,
        item_count(scan_layout(src, tag)->Ok_0) >= 1,
    ensures
        ({
            let lay = scan_layout(src, tag)->Ok_0;
            let cs = split_result(src, tag, 0)->Ok_0;
            &&& split_result(src, tag, 0) is Ok
            &&& cs.len() == 1
            &&& cs[0] == header_bytes(src, lay) + items_concat(
                src,
                lay,
                0,
                item_count(lay) as int,
            ) + footer_bytes(src, lay)
        }),
{
}

} // verus!
