//! Pass 1: the offset planner. It consumes the page stream once, drops
//! pages the corpus filters exclude, records a redirect entry per
//! redirect page, and assigns each accepted article the byte offset and
//! length its node will occupy in the binary graph file. The running
//! cursor starts at the 16-byte file header and advances by each accepted
//! node's length, so planning is inherently sequential; a duplicate title
//! neither advances the cursor nor writes a spool record.

use vstd::prelude::*;

use crate::encoder::{counts_fit, node_len, offsets_ok, planned_cursor};
use crate::link_handler::{extract_links_str, extract_spec};
use crate::models::{
    spool_models, LookupEntry, PageModel, PageRecord, RedirectEntry, SpoolModel, SpoolRecord,
};
use crate::store::{InsertOutcome, LookupStore, StoreView};
use crate::utils::{chars_of, contains_lit, contains_seq, sanitize_spec, sanitize_string};

verus! {

/// The mathematical state of Pass 1: the store content, the spool so
/// far, and the running cursor (the next free byte offset).
#[verifier::ext_equal]
pub ghost struct PlannerModel {
    pub store: StoreView,
    pub spool: Seq<SpoolModel>,
    pub cursor: u32,
}

/// Whether the title alone excludes a page: empty, a single character,
/// longer than 255 characters, in a non-article namespace, or a
/// disambiguation title.
pub open spec fn title_rejected(title: Seq<char>) -> bool {
    ||| title.len() == 0
    ||| title.len() == 1
    ||| title.len() > 255
    ||| contains_seq(title, "Template:"@)
    ||| contains_seq(title, "Wikipedia:"@)
    ||| contains_seq(title, "File:"@)
    ||| contains_seq(title, "WP:"@)
    ||| contains_seq(title, "User:"@)
    ||| contains_seq(title, "Help:"@)
    ||| contains_seq(title, "Draft:"@)
    ||| contains_seq(title, "MOS:"@)
    ||| contains_seq(title, "Module:"@)
    ||| contains_seq(title, "module:"@)
    ||| contains_seq(title, "MediaWiki:"@)
    ||| contains_seq(title, "mediawiki:"@)
    ||| contains_seq(title, "main page/"@)
    ||| contains_seq(title, "(disambiguation)"@)
}

/// Whether the body alone excludes a page: empty, or a disambiguation
/// marker.
pub open spec fn body_rejected(body: Seq<char>) -> bool {
    ||| body.len() == 0
    ||| contains_seq(body, "{{disambiguation}}"@)
    ||| contains_seq(body, "{{disambig"@)
}

/// Whether the reject filters drop the page (no error: the page is
/// simply not processed further).
pub open spec fn page_rejected(p: PageModel) -> bool {
    title_rejected(p.title) || body_rejected(p.body)
}

/// Whether processing this page would advance the cursor past the 32-bit
/// offset space: the one fatal condition of Pass 1.
pub open spec fn step_overflows(m: PlannerModel, p: PageModel) -> bool {
    &&& !page_rejected(p)
    &&& !p.is_redirect
    &&& extract_spec(p.body).len() > 0
    &&& m.cursor + 16 + 4 * extract_spec(p.body).len() > u32::MAX
}

/// What one page does to the planner state. A rejected page, a page with
/// no extracted links, a duplicate key, and an overflowing page all leave
/// the state unchanged; a redirect page records its first target; an
/// accepted article records its lookup entry, appends its spool record,
/// and advances the cursor by its node length.
pub open spec fn step_spec(m: PlannerModel, p: PageModel) -> PlannerModel {
    if page_rejected(p) {
        m
    } else {
        let links = extract_spec(p.body);
        if p.is_redirect {
            if links.len() == 0 {
                m
            } else {
                let from = sanitize_spec(p.title);
                let to = sanitize_spec(links[0]);
                if m.store.redirects.contains_key(from) {
                    m
                } else {
                    PlannerModel {
                        store: StoreView {
                            lookups: m.store.lookups,
                            redirects: m.store.redirects.insert(from, to),
                        },
                        spool: m.spool,
                        cursor: m.cursor,
                    }
                }
            }
        } else {
            if links.len() == 0 {
                m
            } else if m.cursor + 16 + 4 * links.len() > u32::MAX {
                m
            } else {
                let key = sanitize_spec(p.title);
                let length = (16 + 4 * links.len()) as u32;
                if m.store.lookups.contains_key(key) {
                    m
                } else {
                    PlannerModel {
                        store: StoreView {
                            lookups: m.store.lookups.insert(key, (m.cursor, length)),
                            redirects: m.store.redirects,
                        },
                        spool: m.spool.push(SpoolModel { offset: m.cursor, targets: links }),
                        cursor: (m.cursor + length) as u32,
                    }
                }
            }
        }
    }
}

/// The planner state before any page: empty store, empty spool, cursor
/// at the file-header size.
pub open spec fn initial_model() -> PlannerModel {
    PlannerModel {
        store: StoreView {
            lookups: Map::<Seq<char>, (u32, u32)>::empty(),
            redirects: Map::<Seq<char>, Seq<char>>::empty(),
        },
        spool: Seq::empty(),
        cursor: 16,
    }
}

/// The planner state after consuming the whole page stream, in order.
pub open spec fn run_spec(m: PlannerModel, pages: Seq<PageModel>) -> PlannerModel
    decreases pages.len(),
{
    if pages.len() == 0 {
        m
    } else {
        run_spec(step_spec(m, pages[0]), pages.drop_first())
    }
}

/// Whether the whole run stays inside the 32-bit offset space.
pub open spec fn run_fits(m: PlannerModel, pages: Seq<PageModel>) -> bool
    decreases pages.len(),
{
    if pages.len() == 0 {
        true
    } else {
        !step_overflows(m, pages[0]) && run_fits(step_spec(m, pages[0]), pages.drop_first())
    }
}

/// Validity of a planner state: the spool's planned offsets are
/// consistent from the file header on, the cursor is exactly the end of
/// the planned file, and every planned node length fits the offset
/// space.
pub open spec fn model_wf(m: PlannerModel) -> bool {
    &&& offsets_ok(m.spool, 16)
    &&& m.cursor == planned_cursor(m.spool, m.spool.len() as int)
    &&& counts_fit(m.spool)
}

proof fn lemma_planned_cursor_push(spool: Seq<SpoolModel>, rec: SpoolModel, i: int)
    requires
        0 <= i <= spool.len(),
    ensures
        planned_cursor(spool.push(rec), i) == planned_cursor(spool, i),
    decreases i,
{
    if i > 0 {
        lemma_planned_cursor_push(spool, rec, i - 1);
        assert(spool.push(rec)[i - 1] == spool[i - 1]);
    }
}

/// One step preserves planner validity.
pub proof fn lemma_step_preserves_wf(m: PlannerModel, p: PageModel)
    requires
        model_wf(m),
    ensures
        model_wf(step_spec(m, p)),
{
    let m2 = step_spec(m, p);
    if m2.spool != m.spool {
        let links = extract_spec(p.body);
        let rec = SpoolModel { offset: m.cursor, targets: links };
        let spool2 = m.spool.push(rec);
        let n = m.spool.len() as int;
        crate::encoder::lemma_offsets_ok_iff(m.spool);
        assert forall|i: int| 0 <= i < spool2.len() implies (#[trigger] spool2[i].offset)
            == planned_cursor(spool2, i) by {
            lemma_planned_cursor_push(m.spool, rec, i);
            if i < n {
                assert(spool2[i] == m.spool[i]);
            } else {
                assert(spool2[i] == rec);
            }
        }
        crate::encoder::lemma_offsets_ok_iff(spool2);
        lemma_planned_cursor_push(m.spool, rec, n);
        assert(planned_cursor(spool2, n + 1) == planned_cursor(spool2, n) + node_len(rec));
        assert(m2.cursor == planned_cursor(m2.spool, m2.spool.len() as int));
        assert forall|i: int| 0 <= i < spool2.len() implies (#[trigger] spool2[i].targets.len())
            <= u32::MAX by {
            if i < n {
                assert(spool2[i] == m.spool[i]);
            } else {
                assert(spool2[i] == rec);
            }
        }
    }
}

/// A whole run preserves planner validity.
pub proof fn lemma_run_preserves_wf(m: PlannerModel, pages: Seq<PageModel>)
    requires
        model_wf(m),
    ensures
        model_wf(run_spec(m, pages)),
    decreases pages.len(),
{
    if pages.len() > 0 {
        lemma_step_preserves_wf(m, pages[0]);
        lemma_run_preserves_wf(step_spec(m, pages[0]), pages.drop_first());
    }
}

/// For every page stream, the spool Pass 1 plans is offset-consistent:
/// combined with `lemma_planned_offset_realized`, every accepted
/// article's recorded byte offset equals the encoder's write cursor at
/// the moment its node is emitted.
pub proof fn lemma_pass1_offsets_consistent(pages: Seq<PageModel>)
    ensures
        model_wf(run_spec(initial_model(), pages)),
        offsets_ok(run_spec(initial_model(), pages).spool, 16),
{
    assert(planned_cursor(initial_model().spool, 0) == 16);
    lemma_run_preserves_wf(initial_model(), pages);
}

/// A fresh second run over the same store: the persisted store content
/// is kept, while the spool and the cursor start over (the spool file is
/// recreated on each run).
pub open spec fn restart(m: PlannerModel) -> PlannerModel {
    PlannerModel { store: m.store, spool: Seq::empty(), cursor: 16 }
}

proof fn lemma_step_monotone(m: PlannerModel, p: PageModel)
    ensures
        forall|k: Seq<char>|
            m.store.lookups.contains_key(k) ==> #[trigger] step_spec(
                m,
                p,
            ).store.lookups.contains_key(k),
        forall|k: Seq<char>|
            m.store.redirects.contains_key(k) ==> #[trigger] step_spec(
                m,
                p,
            ).store.redirects.contains_key(k),
{
}

proof fn lemma_run_monotone(m: PlannerModel, pages: Seq<PageModel>)
    ensures
        forall|k: Seq<char>|
            m.store.lookups.contains_key(k) ==> #[trigger] run_spec(
                m,
                pages,
            ).store.lookups.contains_key(k),
        forall|k: Seq<char>|
            m.store.redirects.contains_key(k) ==> #[trigger] run_spec(
                m,
                pages,
            ).store.redirects.contains_key(k),
    decreases pages.len(),
{
    if pages.len() > 0 {
        lemma_step_monotone(m, pages[0]);
        lemma_run_monotone(step_spec(m, pages[0]), pages.drop_first());
        assert(run_spec(m, pages) == run_spec(step_spec(m, pages[0]), pages.drop_first()));
        assert forall|k: Seq<char>| m.store.lookups.contains_key(k) implies #[trigger] run_spec(
            m,
            pages,
        ).store.lookups.contains_key(k) by {
            assert(step_spec(m, pages[0]).store.lookups.contains_key(k));
            assert(run_spec(step_spec(m, pages[0]), pages.drop_first()).store.lookups.contains_key(
                k,
            ));
        }
        assert forall|k: Seq<char>| m.store.redirects.contains_key(k) implies #[trigger] run_spec(
            m,
            pages,
        ).store.redirects.contains_key(k) by {
            assert(step_spec(m, pages[0]).store.redirects.contains_key(k));
            assert(run_spec(
                step_spec(m, pages[0]),
                pages.drop_first(),
            ).store.redirects.contains_key(k));
        }
    }
}

proof fn lemma_rerun_go(m1: PlannerModel, m2: PlannerModel, pages: Seq<PageModel>)
    requires
        run_fits(m1, pages),
        m1.cursor >= 16,
        m2.cursor == 16,
        m2.store == run_spec(m1, pages).store,
    ensures
        run_spec(m2, pages).store == m2.store,
    decreases pages.len(),
{
    if pages.len() > 0 {
        let p = pages[0];
        let rest = pages.drop_first();
        let m1n = step_spec(m1, p);
        lemma_run_monotone(m1n, rest);
        assert(run_spec(m1, pages) == run_spec(m1n, rest));
        if !page_rejected(p) {
            let links = extract_spec(p.body);
            if p.is_redirect {
                if links.len() > 0 {
                    let from = sanitize_spec(p.title);
                    assert(m1n.store.redirects.contains_key(from));
                    assert(run_spec(m1n, rest).store.redirects.contains_key(from));
                    assert(m2.store.redirects.contains_key(from));
                }
            } else {
                if links.len() > 0 {
                    assert(!step_overflows(m1, p));
                    assert(m2.cursor + 16 + 4 * links.len() <= u32::MAX);
                    let key = sanitize_spec(p.title);
                    assert(m1n.store.lookups.contains_key(key));
                    assert(run_spec(m1n, rest).store.lookups.contains_key(key));
                    assert(m2.store.lookups.contains_key(key));
                }
            }
        }
        assert(step_spec(m2, p).store == m2.store);
        assert(step_spec(m2, p).cursor == 16);
        lemma_rerun_go(m1n, PlannerModel { spool: step_spec(m2, p).spool, ..m2 }, rest);
        assert(step_spec(m2, p) =~= PlannerModel { spool: step_spec(m2, p).spool, ..m2 });
    }
}

/// Running Pass 1 twice on an identical page stream yields an identical
/// final lookup/redirect store: on the second run every insert hits a key
/// the first run already persisted and is an idempotent no-op. The spool
/// is recreated from scratch each run and is not part of the claim. The
/// one excluded case is a first run that overran the 32-bit offset
/// space, which aborts rather than completing.
pub proof fn lemma_rerun_fixpoint(pages: Seq<PageModel>)
    requires
        run_fits(initial_model(), pages),
    ensures
        run_spec(restart(run_spec(initial_model(), pages)), pages).store == run_spec(
            initial_model(),
            pages,
        ).store,
{
    let first = run_spec(initial_model(), pages);
    lemma_rerun_go(initial_model(), restart(first), pages);
}

/// The offset planner of Pass 1.
pub struct Planner {
    store: LookupStore,
    spool: Vec<SpoolRecord>,
    cursor: u32,
}

impl View for Planner {
    type V = PlannerModel;

    closed spec fn view(&self) -> PlannerModel {
        PlannerModel {
            store: self.store@,
            spool: spool_models(self.spool@),
            cursor: self.cursor,
        }
    }
}

/// The one fatal condition of Pass 1 itself: the planned file would run
/// past the 32-bit offset space.
#[derive(Clone, Copy, PartialEq, Eq, Structural, Debug)]
pub enum PlannerError {
    OffsetSpaceExhausted,
}

impl Planner {
    /// Validity of the planner: the store is valid and the planned
    /// offsets are consistent.
    pub closed spec fn wf(&self) -> bool {
        &&& self.store.wf()
        &&& model_wf(self@)
    }

    /// A planner before any page.
    pub fn new() -> (r: Planner)
        ensures
            r.wf(),
            r@ == initial_model(),
    {
        let r = Planner { store: LookupStore::new(), spool: Vec::new(), cursor: 16 };
        proof {
            assert(spool_models(r.spool@) =~= Seq::<SpoolModel>::empty());
            assert(r@ =~= initial_model());
        }
        r
    }

    /// The store filled so far; read-only for Pass 2.
    pub fn store(&self) -> (r: &LookupStore)
        ensures
            r@ == self@.store,
            self.wf() ==> r.wf(),
    {
        &self.store
    }

    /// The spool written so far, in encounter order.
    pub fn spool(&self) -> (r: &Vec<SpoolRecord>)
        ensures
            spool_models(r@) == self@.spool,
    {
        &self.spool
    }

    /// The running cursor: the byte offset the next accepted article
    /// would be planned at.
    pub fn cursor(&self) -> (r: u32)
        ensures
            r == self@.cursor,
    {
        self.cursor
    }

    /// Processes one page of the stream, per `step_spec`: filters, the
    /// redirect rule, and offset planning with idempotent inserts. The
    /// only error is an exhausted 32-bit offset space, which is fatal
    /// and leaves the state unchanged.
    pub fn process_page(&mut self, page: &PageRecord) -> (r: Result<(), PlannerError>)
        requires
            old(self).wf(),
        ensures
            final(self).wf(),
            final(self)@ == step_spec(old(self)@, page@),
            r is Err <==> step_overflows(old(self)@, page@),
    {
        proof {
            lemma_step_preserves_wf(old(self)@, page@);
        }
        let title_chars = chars_of(page.title.as_str());
        let tn = title_chars.len();
        let mut rejected = tn == 0 || tn == 1 || tn > 255;
        if !rejected {
            rejected = contains_lit(&title_chars, "Template:") || contains_lit(
                &title_chars,
                "Wikipedia:",
            ) || contains_lit(&title_chars, "File:") || contains_lit(&title_chars, "WP:")
                || contains_lit(&title_chars, "User:") || contains_lit(&title_chars, "Help:")
                || contains_lit(&title_chars, "Draft:") || contains_lit(&title_chars, "MOS:")
                || contains_lit(&title_chars, "Module:") || contains_lit(&title_chars, "module:")
                || contains_lit(&title_chars, "MediaWiki:") || contains_lit(
                &title_chars,
                "mediawiki:",
            ) || contains_lit(&title_chars, "main page/") || contains_lit(
                &title_chars,
                "(disambiguation)",
            );
        }
        proof {
            assert(rejected == title_rejected(page@.title));
        }
        let body_chars = chars_of(page.body.as_str());
        if !rejected {
            rejected = body_chars.len() == 0 || contains_lit(&body_chars, "{{disambiguation}}")
                || contains_lit(&body_chars, "{{disambig");
        }
        if rejected {
            proof {
                assert(page_rejected(page@));
                assert(step_spec(old(self)@, page@) == old(self)@);
            }
            return Ok(());
        }
        proof {
            assert(!page_rejected(page@));
        }
        let links = extract_links_str(page.body.as_str());
        let ghost links_model = extract_spec(page@.body);
        if page.is_redirect {
            if links.len() == 0 {
                return Ok(());
            }
            let from = sanitize_string(page.title.as_str());
            let to = sanitize_string(links[0].as_str());
            proof {
                assert(links@[0]@ == links_model[0]);
            }
            let entry = RedirectEntry { redirect_from: from, redirect_to: to };
            let _ = self.store.add_redirect_entry(entry);
            proof {
                assert(spool_models(self.spool@) == spool_models(old(self).spool@));
                assert(self@ =~= step_spec(old(self)@, page@));
            }
            Ok(())
        } else {
            if links.len() == 0 {
                return Ok(());
            }
            if links.len() > ((u32::MAX - 16) / 4) as usize {
                proof {
                    assert(step_overflows(old(self)@, page@));
                }
                return Err(PlannerError::OffsetSpaceExhausted);
            }
            let length: u32 = 16 + 4 * (links.len() as u32);
            if self.cursor > u32::MAX - length {
                proof {
                    assert(step_overflows(old(self)@, page@));
                }
                return Err(PlannerError::OffsetSpaceExhausted);
            }
            let key = sanitize_string(page.title.as_str());
            let offset = self.cursor;
            let entry = LookupEntry { title: key, byte_offset: offset, length };
            match self.store.add_lookup_entry(entry) {
                InsertOutcome::DuplicateKey => {
                    proof {
                        assert(self@ =~= step_spec(old(self)@, page@));
                    }
                    Ok(())
                },
                InsertOutcome::Inserted => {
                    let ghost spool0 = spool_models(self.spool@);
                    let rec = SpoolRecord { offset, targets: links };
                    proof {
                        assert(rec@.targets =~= links_model);
                    }
                    self.spool.push(rec);
                    self.cursor = offset + length;
                    proof {
                        assert(spool_models(self.spool@) =~= spool0.push(
                            SpoolModel { offset, targets: links_model },
                        ));
                        assert(self@ =~= step_spec(old(self)@, page@));
                    }
                    Ok(())
                },
            }
        }
    }
}

} // verus!
