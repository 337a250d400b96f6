//! Pipeline-wide laws tying Pass 1 to Pass 2.

use vstd::prelude::*;

use crate::encoder::{lemma_planned_offset_realized, nodes_bytes};
use crate::graph_builder::file_header_bytes;
use crate::planner::{initial_model, lemma_pass1_offsets_consistent, run_spec};
use crate::models::PageModel;
use crate::store::StoreView;

verus! {

/// For every page stream and every accepted article in the spool Pass 1
/// plans for it, the byte offset recorded in that article's spool record
/// equals the Graph Encoder's write cursor at the moment the article's
/// node is serialized: the file header and all earlier nodes occupy
/// exactly the bytes below the planned offset, whatever store the
/// encoder resolves against.
pub proof fn lemma_spool_offset_is_write_cursor(
    pages: Seq<PageModel>,
    m: StoreView,
    version: u32,
    i: int,
)
    requires
        0 <= i < run_spec(initial_model(), pages).spool.len(),
    ensures
        ({
            let spool = run_spec(initial_model(), pages).spool;
            (file_header_bytes(version, spool.len() as u32) + nodes_bytes(
                m,
                spool.subrange(0, i),
            )).len() == spool[i].offset
        }),
{
    lemma_pass1_offsets_consistent(pages);
    lemma_planned_offset_realized(m, run_spec(initial_model(), pages).spool, version, i);
}

} // verus!
