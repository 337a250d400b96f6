//! Pass 2: replays the adjacency spool in order, resolves every link
//! target through the title resolver, and produces the binary graph
//! file. Before each node is written, the write cursor is compared to
//! the node's planned offset; a mismatch means the two passes disagree
//! and is fatal, since the file format carries no index and is unusable
//! when any node sits off its planned offset. A dangling link target is
//! written as the sentinel offset 0, which lies inside the file header
//! and is never a valid node position.

use vstd::prelude::*;

use crate::graph_builder::{
    file_header_bytes, le_bytes, node_header_bytes, GraphBuilder, WikiBinaryGraphBuilder,
};
use crate::models::{spool_models, SpoolModel, SpoolRecord};
use crate::store::{resolve_spec, LookupStore, StoreView};

verus! {

/// The serialized length of one node: its 16-byte header plus four bytes
/// per link.
pub open spec fn node_len(rec: SpoolModel) -> int {
    16 + 4 * rec.targets.len() as int
}

/// Whether the spool's planned offsets are consistent from the given
/// cursor on: each record sits exactly where the previous one ends.
pub open spec fn offsets_ok(spool: Seq<SpoolModel>, cursor: int) -> bool
    decreases spool.len(),
{
    if spool.len() == 0 {
        true
    } else {
        spool[0].offset == cursor && offsets_ok(spool.drop_first(), cursor + node_len(spool[0]))
    }
}

/// The write cursor at which node `i` is emitted: the file header plus
/// every earlier node.
pub open spec fn planned_cursor(spool: Seq<SpoolModel>, i: int) -> int
    decreases i,
{
    if i <= 0 {
        16
    } else {
        planned_cursor(spool, i - 1) + node_len(spool[i - 1])
    }
}

/// Whether every record's link count fits in a 32-bit field.
pub open spec fn counts_fit(spool: Seq<SpoolModel>) -> bool {
    forall|i: int| 0 <= i < spool.len() ==> (#[trigger] spool[i].targets.len()) <= u32::MAX
}

/// The offset written for one link target: its resolved offset, or the
/// sentinel 0 for a dangling reference.
pub open spec fn resolve_or_sentinel(m: StoreView, t: Seq<char>) -> u32 {
    match resolve_spec(m, t) {
        Some(o) => o,
        None => 0,
    }
}

/// How many of these link targets are dangling: resolvable to no node.
pub open spec fn dangling_in_links(m: StoreView, ts: Seq<Seq<char>>) -> int
    decreases ts.len(),
{
    if ts.len() == 0 {
        0
    } else {
        (if resolve_spec(m, ts[0]) is None {
            1int
        } else {
            0int
        }) + dangling_in_links(m, ts.drop_first())
    }
}

/// How many link targets of the whole spool are dangling.
pub open spec fn dangling_total(m: StoreView, spool: Seq<SpoolModel>) -> int
    decreases spool.len(),
{
    if spool.len() == 0 {
        0
    } else {
        dangling_in_links(m, spool[0].targets) + dangling_total(m, spool.drop_first())
    }
}

/// The bytes of a node's link list, in target order.
pub open spec fn links_bytes(m: StoreView, ts: Seq<Seq<char>>) -> Seq<u8>
    decreases ts.len(),
{
    if ts.len() == 0 {
        Seq::empty()
    } else {
        le_bytes(resolve_or_sentinel(m, ts[0])) + links_bytes(m, ts.drop_first())
    }
}

/// The bytes of one node: its header and its link list.
pub open spec fn node_bytes(m: StoreView, rec: SpoolModel) -> Seq<u8> {
    node_header_bytes(rec.targets.len() as u32) + links_bytes(m, rec.targets)
}

/// The bytes of all nodes, in spool order.
pub open spec fn nodes_bytes(m: StoreView, spool: Seq<SpoolModel>) -> Seq<u8>
    decreases spool.len(),
{
    if spool.len() == 0 {
        Seq::empty()
    } else {
        node_bytes(m, spool[0]) + nodes_bytes(m, spool.drop_first())
    }
}

/// The whole binary graph file for this spool and store.
pub open spec fn graph_bytes(m: StoreView, spool: Seq<SpoolModel>, version: u32) -> Seq<u8> {
    file_header_bytes(version, spool.len() as u32) + nodes_bytes(m, spool)
}

/// A fatal condition of Pass 2; any of these aborts the pass and leaves
/// no valid output file.
#[derive(Clone, Copy, PartialEq, Eq, Structural, Debug)]
pub enum GraphError {
    /// More accepted articles than the node-count header field can hold.
    TooManyNodes,
    /// The write cursor does not equal the record's planned offset: the
    /// two passes disagree about earlier nodes' sizes or acceptance.
    OffsetMismatch { record: usize, expected: u32, actual: u64 },
    /// A record's link count does not fit in its 32-bit header field.
    TooManyLinks { record: usize },
}

proof fn lemma_links_bytes_snoc(m: StoreView, ts: Seq<Seq<char>>, t: Seq<char>)
    ensures
        links_bytes(m, ts.push(t)) == links_bytes(m, ts) + le_bytes(resolve_or_sentinel(m, t)),
    decreases ts.len(),
{
    if ts.len() == 0 {
        assert(ts =~= Seq::<Seq<char>>::empty());
        assert(ts.push(t).drop_first() =~= ts);
        assert(ts.push(t)[0] == t);
        assert(links_bytes(m, ts.push(t)) == le_bytes(resolve_or_sentinel(m, t)) + links_bytes(
            m,
            ts,
        ));
        assert(le_bytes(resolve_or_sentinel(m, t)) + links_bytes(m, ts) =~= links_bytes(m, ts)
            + le_bytes(resolve_or_sentinel(m, t)));
    } else {
        lemma_links_bytes_snoc(m, ts.drop_first(), t);
        assert(ts.push(t).drop_first() =~= ts.drop_first().push(t));
        assert(ts.push(t)[0] == ts[0]);
        assert(le_bytes(resolve_or_sentinel(m, ts[0])) + (links_bytes(m, ts.drop_first())
            + le_bytes(resolve_or_sentinel(m, t))) =~= (le_bytes(resolve_or_sentinel(m, ts[0]))
            + links_bytes(m, ts.drop_first())) + le_bytes(resolve_or_sentinel(m, t)));
    }
}

proof fn lemma_nodes_bytes_snoc(m: StoreView, spool: Seq<SpoolModel>, rec: SpoolModel)
    ensures
        nodes_bytes(m, spool.push(rec)) == nodes_bytes(m, spool) + node_bytes(m, rec),
    decreases spool.len(),
{
    if spool.len() == 0 {
        assert(spool =~= Seq::<SpoolModel>::empty());
        assert(spool.push(rec).drop_first() =~= spool);
        assert(spool.push(rec)[0] == rec);
        assert(nodes_bytes(m, spool.push(rec)) == node_bytes(m, rec) + nodes_bytes(m, spool));
        assert(node_bytes(m, rec) + nodes_bytes(m, spool) =~= nodes_bytes(m, spool) + node_bytes(
            m,
            rec,
        ));
    } else {
        lemma_nodes_bytes_snoc(m, spool.drop_first(), rec);
        assert(spool.push(rec).drop_first() =~= spool.drop_first().push(rec));
        assert(spool.push(rec)[0] == spool[0]);
        assert(node_bytes(m, spool[0]) + (nodes_bytes(m, spool.drop_first()) + node_bytes(m, rec))
            =~= (node_bytes(m, spool[0]) + nodes_bytes(m, spool.drop_first())) + node_bytes(
            m,
            rec,
        ));
    }
}

proof fn lemma_dangling_links_snoc(m: StoreView, ts: Seq<Seq<char>>, t: Seq<char>)
    ensures
        dangling_in_links(m, ts.push(t)) == dangling_in_links(m, ts) + (if resolve_spec(
            m,
            t,
        ) is None {
            1int
        } else {
            0int
        }),
    decreases ts.len(),
{
    if ts.len() == 0 {
        assert(ts =~= Seq::<Seq<char>>::empty());
        assert(ts.push(t).drop_first() =~= ts);
        assert(ts.push(t)[0] == t);
    } else {
        lemma_dangling_links_snoc(m, ts.drop_first(), t);
        assert(ts.push(t).drop_first() =~= ts.drop_first().push(t));
        assert(ts.push(t)[0] == ts[0]);
    }
}

proof fn lemma_dangling_total_snoc(m: StoreView, spool: Seq<SpoolModel>, rec: SpoolModel)
    ensures
        dangling_total(m, spool.push(rec)) == dangling_total(m, spool) + dangling_in_links(
            m,
            rec.targets,
        ),
    decreases spool.len(),
{
    if spool.len() == 0 {
        assert(spool =~= Seq::<SpoolModel>::empty());
        assert(spool.push(rec).drop_first() =~= spool);
        assert(spool.push(rec)[0] == rec);
    } else {
        lemma_dangling_total_snoc(m, spool.drop_first(), rec);
        assert(spool.push(rec).drop_first() =~= spool.drop_first().push(rec));
        assert(spool.push(rec)[0] == spool[0]);
    }
}

proof fn lemma_links_bytes_len(m: StoreView, ts: Seq<Seq<char>>)
    ensures
        links_bytes(m, ts).len() == 4 * ts.len(),
    decreases ts.len(),
{
    if ts.len() > 0 {
        lemma_links_bytes_len(m, ts.drop_first());
    }
}

proof fn lemma_nodes_bytes_prefix_len(m: StoreView, spool: Seq<SpoolModel>, i: int)
    requires
        0 <= i <= spool.len(),
    ensures
        nodes_bytes(m, spool.subrange(0, i)).len() == planned_cursor(spool, i) - 16,
    decreases i,
{
    if i == 0 {
        assert(spool.subrange(0, 0) =~= Seq::<SpoolModel>::empty());
    } else {
        lemma_nodes_bytes_prefix_len(m, spool, i - 1);
        assert(spool.subrange(0, i) =~= spool.subrange(0, i - 1).push(spool[i - 1]));
        lemma_nodes_bytes_snoc(m, spool.subrange(0, i - 1), spool[i - 1]);
        lemma_links_bytes_len(m, spool[i - 1].targets);
    }
}

proof fn lemma_offsets_ok_suffix(spool: Seq<SpoolModel>, k: int)
    requires
        0 <= k <= spool.len(),
    ensures
        offsets_ok(spool.skip(k), planned_cursor(spool, k)) <==> (forall|i: int|
            k <= i < spool.len() ==> (#[trigger] spool[i].offset) == planned_cursor(spool, i)),
    decreases spool.len() - k,
{
    if k == spool.len() {
        assert(spool.skip(k) =~= Seq::<SpoolModel>::empty());
    } else {
        lemma_offsets_ok_suffix(spool, k + 1);
        assert(spool.skip(k)[0] == spool[k]);
        assert(spool.skip(k).drop_first() =~= spool.skip(k + 1));
        assert(node_len(spool.skip(k)[0]) == node_len(spool[k]));
        assert(planned_cursor(spool, k) + node_len(spool[k]) == planned_cursor(spool, k + 1));
    }
}

/// Offset consistency from the file-header cursor on is exactly: every
/// record's planned offset equals the write cursor at which its node is
/// emitted.
pub proof fn lemma_offsets_ok_iff(spool: Seq<SpoolModel>)
    ensures
        offsets_ok(spool, 16) <==> (forall|i: int|
            0 <= i < spool.len() ==> (#[trigger] spool[i].offset) == planned_cursor(spool, i)),
{
    lemma_offsets_ok_suffix(spool, 0);
    assert(spool.skip(0) =~= spool);
}

/// For every accepted article of a consistent spool, the byte offset
/// recorded in the spool equals the encoder's write cursor at the moment
/// that article's node is emitted: the file-header and all earlier nodes
/// occupy exactly the bytes below its planned offset.
pub proof fn lemma_planned_offset_realized(
    m: StoreView,
    spool: Seq<SpoolModel>,
    version: u32,
    i: int,
)
    requires
        offsets_ok(spool, 16),
        0 <= i < spool.len(),
    ensures
        (file_header_bytes(version, spool.len() as u32) + nodes_bytes(
            m,
            spool.subrange(0, i),
        )).len() == spool[i].offset,
{
    lemma_offsets_ok_iff(spool);
    lemma_nodes_bytes_prefix_len(m, spool, i);
}

/// Pass 2: the binary graph file for this spool and store, with the
/// number of dangling references written as the sentinel 0, or the
/// first fatal condition hit. Succeeds exactly when the node count fits
/// the header, every link count fits its field, and the planned offsets
/// are consistent.
pub fn create_graph(spool: &Vec<SpoolRecord>, store: &LookupStore, version: u32) -> (r: Result<
    (Vec<u8>, u64),
    GraphError,
>)
    requires
        store.wf(),
    ensures
        (r is Ok <==> spool@.len() <= u32::MAX && offsets_ok(spool_models(spool@), 16)
            && counts_fit(spool_models(spool@))),
        r matches Ok(out) ==> out.0@ == graph_bytes(store@, spool_models(spool@), version)
            && out.1 == dangling_total(store@, spool_models(spool@)),
        r matches Err(GraphError::OffsetMismatch { record, expected, actual }) ==> {
            &&& 0 <= record < spool@.len()
            &&& expected == spool_models(spool@)[record as int].offset
            &&& actual == planned_cursor(spool_models(spool@), record as int)
            &&& expected as u64 != actual
        },
        r matches Err(GraphError::TooManyLinks { record }) ==> {
            &&& 0 <= record < spool@.len()
            &&& spool_models(spool@)[record as int].targets.len() > u32::MAX
        },
        r matches Err(GraphError::TooManyNodes) ==> spool@.len() > u32::MAX,
{
    let ghost ms = spool_models(spool@);
    let n = spool.len();
    if n > u32::MAX as usize {
        return Err(GraphError::TooManyNodes);
    }
    let mut builder = WikiBinaryGraphBuilder::new(n as u32, version);
    let mut dangling: u64 = 0;
    builder.write_file_header();
    proof {
        assert(builder.bytes() =~= file_header_bytes(version, n as u32) + nodes_bytes(
            store@,
            ms.subrange(0, 0),
        ));
        assert(nodes_bytes(store@, ms.subrange(0, 0)) =~= Seq::<u8>::empty());
        lemma_nodes_bytes_prefix_len(store@, ms, 0);
        assert(ms.subrange(0, 0) =~= Seq::<SpoolModel>::empty());
    }
    let mut i: usize = 0;
    while i < n
        invariant
            store.wf(),
            n == spool@.len() <= u32::MAX,
            ms == spool_models(spool@),
            i <= n,
            builder.version() == version,
            builder.node_count() == n as u32,
            forall|j: int|
                0 <= j < i ==> (#[trigger] ms[j].offset) == planned_cursor(ms, j),
            forall|j: int| 0 <= j < i ==> (#[trigger] ms[j].targets.len()) <= u32::MAX,
            builder.bytes() == file_header_bytes(version, n as u32) + nodes_bytes(
                store@,
                ms.subrange(0, i as int),
            ),
            builder.bytes().len() == planned_cursor(ms, i as int),
            dangling == dangling_total(store@, ms.subrange(0, i as int)),
            4 * dangling <= builder.bytes().len(),
        decreases n - i,
    {
        let rec = &spool[i];
        proof {
            assert(ms[i as int] == rec@);
        }
        let pos = builder.get_current_position();
        if pos != rec.offset as u64 {
            proof {
                lemma_offsets_ok_iff(ms);
                assert(pos == planned_cursor(ms, i as int));
                assert(ms[i as int].offset == rec.offset);
                assert(ms[i as int].offset != planned_cursor(ms, i as int));
                assert(!offsets_ok(ms, 16));
            }
            return Err(
                GraphError::OffsetMismatch { record: i, expected: rec.offset, actual: pos },
            );
        }
        if rec.targets.len() > u32::MAX as usize {
            proof {
                assert(ms[i as int].targets.len() > u32::MAX);
                assert(!counts_fit(ms));
            }
            return Err(GraphError::TooManyLinks { record: i });
        }
        let ghost ts = rec@.targets;
        builder.write_node_header(rec.targets.len() as u32);
        let ghost base = builder.bytes();
        proof {
            assert(links_bytes(store@, ts.subrange(0, 0)) =~= Seq::<u8>::empty());
            assert(base + links_bytes(store@, ts.subrange(0, 0)) =~= base);
            assert(dangling_in_links(store@, ts.subrange(0, 0)) == 0);
        }
        let tn = rec.targets.len();
        let mut j: usize = 0;
        while j < tn
            invariant
                store.wf(),
                tn == rec.targets@.len(),
                ts == rec@.targets,
                j <= tn,
                builder.version() == version,
                builder.node_count() == n as u32,
                builder.bytes() == base + links_bytes(store@, ts.subrange(0, j as int)),
                pos <= u32::MAX,
                base.len() == pos + 16,
                dangling == dangling_total(store@, ms.subrange(0, i as int)) + dangling_in_links(
                    store@,
                    ts.subrange(0, j as int),
                ),
                4 * dangling <= base.len() + 4 * j,
                tn <= u32::MAX,
            decreases tn - j,
        {
            let off = match store.resolve(rec.targets[j].as_str()) {
                Some(o) => o,
                None => {
                    dangling = dangling + 1;
                    0
                },
            };
            proof {
                assert(ts[j as int] == rec.targets@[j as int]@);
                assert(off == resolve_or_sentinel(store@, ts[j as int]));
            }
            builder.write_value(off);
            proof {
                assert(ts.subrange(0, j as int + 1) =~= ts.subrange(0, j as int).push(
                    ts[j as int],
                ));
                lemma_links_bytes_snoc(store@, ts.subrange(0, j as int), ts[j as int]);
                assert(builder.bytes() =~= base + links_bytes(
                    store@,
                    ts.subrange(0, j as int + 1),
                ));
                lemma_dangling_links_snoc(store@, ts.subrange(0, j as int), ts[j as int]);
                lemma_links_bytes_len(store@, ts.subrange(0, j as int + 1));
            }
            j = j + 1;
        }
        proof {
            assert(ts.subrange(0, tn as int) =~= ts);
            assert(ms.subrange(0, i as int + 1) =~= ms.subrange(0, i as int).push(ms[i as int]));
            lemma_nodes_bytes_snoc(store@, ms.subrange(0, i as int), ms[i as int]);
            assert(builder.bytes() =~= file_header_bytes(version, n as u32) + nodes_bytes(
                store@,
                ms.subrange(0, i as int + 1),
            ));
            lemma_links_bytes_len(store@, ts);
            lemma_dangling_total_snoc(store@, ms.subrange(0, i as int), ms[i as int]);
        }
        i = i + 1;
    }
    proof {
        assert(ms.subrange(0, n as int) =~= ms);
        lemma_offsets_ok_iff(ms);
    }
    Ok((builder.into_bytes(), dangling))
}

} // verus!
