//! The data model of the pipeline: the transient page record handed in by
//! the page-stream decoder, the two persisted record kinds of the
//! lookup/redirect store, and the spool record bridging the two passes.

use vstd::prelude::*;

verus! {

/// One page of the corpus, as the external page-stream decoder hands it
/// over: consumed once by Pass 1.
pub struct PageRecord {
    pub title: String,
    pub body: String,
    pub is_redirect: bool,
}

/// The mathematical content of a `PageRecord`.
pub ghost struct PageModel {
    pub title: Seq<char>,
    pub body: Seq<char>,
    pub is_redirect: bool,
}

impl View for PageRecord {
    type V = PageModel;

    open spec fn view(&self) -> PageModel {
        PageModel { title: self.title@, body: self.body@, is_redirect: self.is_redirect }
    }
}

/// One accepted article's persisted lookup record, keyed by its sanitized
/// title: the byte offset and length its node occupies in the binary
/// graph file. Created once during Pass 1, never mutated.
pub struct LookupEntry {
    pub title: String,
    pub byte_offset: u32,
    pub length: u32,
}

/// One redirect page's persisted record, keyed by the sanitized source
/// title: the sanitized title it redirects to. Created once during
/// Pass 1, never mutated.
pub struct RedirectEntry {
    pub redirect_from: String,
    pub redirect_to: String,
}

/// One line of the adjacency spool: the planned byte offset of an
/// accepted article's node and its ordered, sanitized link targets.
/// Written once in Pass 1, read once in Pass 2.
pub struct SpoolRecord {
    pub offset: u32,
    pub targets: Vec<String>,
}

/// The mathematical content of a `SpoolRecord`.
pub ghost struct SpoolModel {
    pub offset: u32,
    pub targets: Seq<Seq<char>>,
}

impl View for SpoolRecord {
    type V = SpoolModel;

    open spec fn view(&self) -> SpoolModel {
        SpoolModel { offset: self.offset, targets: self.targets.deep_view() }
    }
}

/// The views of a sequence of spool records.
pub open spec fn spool_models(s: Seq<SpoolRecord>) -> Seq<SpoolModel> {
    Seq::new(s.len(), |i: int| s[i]@)
}

} // verus!
