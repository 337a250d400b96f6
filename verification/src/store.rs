//! The lookup/redirect store: an in-memory associative store with
//! idempotent keyed insert (a duplicate key is reported distinctly and
//! treated as a no-op) and exact-key lookup, over two independent
//! keyspaces. Pass 1 writes it; Pass 2 and the title resolver read it.

use vstd::prelude::*;

use crate::models::{LookupEntry, RedirectEntry};
use crate::utils::{sanitize_spec, sanitize_string, str_eq};

verus! {

/// The abstract content of the store: sanitized title to (byte offset,
/// length), and sanitized redirect source to sanitized redirect target.
pub ghost struct StoreView {
    pub lookups: Map<Seq<char>, (u32, u32)>,
    pub redirects: Map<Seq<char>, Seq<char>>,
}

/// The result of a keyed insert: a duplicate key is distinguished from a
/// fresh insert and treated by every caller as a successful no-op.
#[derive(Clone, Copy, PartialEq, Eq, Structural, Debug)]
pub enum InsertOutcome {
    Inserted,
    DuplicateKey,
}

/// The lookup map that a sequence of lookup entries denotes.
pub open spec fn lookups_map(s: Seq<LookupEntry>) -> Map<Seq<char>, (u32, u32)>
    decreases s.len(),
{
    if s.len() == 0 {
        Map::empty()
    } else {
        lookups_map(s.drop_last()).insert(
            s.last().title@,
            (s.last().byte_offset, s.last().length),
        )
    }
}

/// The redirect map that a sequence of redirect entries denotes.
pub open spec fn redirects_map(s: Seq<RedirectEntry>) -> Map<Seq<char>, Seq<char>>
    decreases s.len(),
{
    if s.len() == 0 {
        Map::empty()
    } else {
        redirects_map(s.drop_last()).insert(s.last().redirect_from@, s.last().redirect_to@)
    }
}

proof fn lemma_lookups_map_contains(s: Seq<LookupEntry>, k: Seq<char>)
    ensures
        lookups_map(s).contains_key(k) <==> exists|i: int|
            0 <= i < s.len() && #[trigger] s[i].title@ == k,
    decreases s.len(),
{
    if s.len() > 0 {
        lemma_lookups_map_contains(s.drop_last(), k);
        if s.last().title@ == k {
            assert(s[s.len() - 1].title@ == k);
        } else if exists|i: int| 0 <= i < s.len() && #[trigger] s[i].title@ == k {
            let i = choose|i: int| 0 <= i < s.len() && #[trigger] s[i].title@ == k;
            assert(s.drop_last()[i].title@ == k);
        }
    }
}

proof fn lemma_lookups_map_at(s: Seq<LookupEntry>, i: int)
    requires
        0 <= i < s.len(),
        forall|a: int, b: int|
            0 <= a < b < s.len() ==> #[trigger] s[a].title@ != #[trigger] s[b].title@,
    ensures
        lookups_map(s).contains_key(s[i].title@),
        lookups_map(s)[s[i].title@] == (s[i].byte_offset, s[i].length),
    decreases s.len(),
{
    if i == s.len() - 1 {
        lemma_lookups_map_contains(s.drop_last(), s[i].title@);
    } else {
        lemma_lookups_map_at(s.drop_last(), i);
        assert(s.drop_last()[i] == s[i]);
        assert(s[i].title@ != s[s.len() - 1].title@);
    }
}

proof fn lemma_redirects_map_contains(s: Seq<RedirectEntry>, k: Seq<char>)
    ensures
        redirects_map(s).contains_key(k) <==> exists|i: int|
            0 <= i < s.len() && #[trigger] s[i].redirect_from@ == k,
    decreases s.len(),
{
    if s.len() > 0 {
        lemma_redirects_map_contains(s.drop_last(), k);
        if s.last().redirect_from@ == k {
            assert(s[s.len() - 1].redirect_from@ == k);
        } else if exists|i: int| 0 <= i < s.len() && #[trigger] s[i].redirect_from@ == k {
            let i = choose|i: int| 0 <= i < s.len() && #[trigger] s[i].redirect_from@ == k;
            assert(s.drop_last()[i].redirect_from@ == k);
        }
    }
}

proof fn lemma_redirects_map_at(s: Seq<RedirectEntry>, i: int)
    requires
        0 <= i < s.len(),
        forall|a: int, b: int|
            0 <= a < b < s.len() ==> #[trigger] s[a].redirect_from@ != #[trigger] s[
                b
            ].redirect_from@,
    ensures
        redirects_map(s).contains_key(s[i].redirect_from@),
        redirects_map(s)[s[i].redirect_from@] == s[i].redirect_to@,
    decreases s.len(),
{
    if i == s.len() - 1 {
        lemma_redirects_map_contains(s.drop_last(), s[i].redirect_from@);
    } else {
        lemma_redirects_map_at(s.drop_last(), i);
        assert(s.drop_last()[i] == s[i]);
        assert(s[i].redirect_from@ != s[s.len() - 1].redirect_from@);
    }
}

/// What a lookup through redirects returns: a redirect entry for the key
/// is consulted first, and then the redirect's target must itself have a
/// lookup entry; only a key with no redirect entry is looked up directly.
pub open spec fn lookup_with_redirects_spec(m: StoreView, key: Seq<char>) -> Option<(u32, u32)> {
    if m.redirects.contains_key(key) {
        let target = m.redirects[key];
        if m.lookups.contains_key(target) {
            Some(m.lookups[target])
        } else {
            None
        }
    } else if m.lookups.contains_key(key) {
        Some(m.lookups[key])
    } else {
        None
    }
}

/// The byte offset a raw title currently resolves to: sanitize, then look
/// up through redirects. `None` is a dangling reference.
pub open spec fn resolve_spec(m: StoreView, raw_title: Seq<char>) -> Option<u32> {
    match lookup_with_redirects_spec(m, sanitize_spec(raw_title)) {
        Some(v) => Some(v.0),
        None => None,
    }
}

/// The in-memory lookup/redirect store.
pub struct LookupStore {
    lookups: Vec<LookupEntry>,
    redirects: Vec<RedirectEntry>,
}

impl View for LookupStore {
    type V = StoreView;

    closed spec fn view(&self) -> StoreView {
        StoreView { lookups: lookups_map(self.lookups@), redirects: redirects_map(self.redirects@) }
    }
}

impl LookupStore {
    /// Validity of the store: each keyspace holds at most one entry per
    /// key. Constructors establish it and every method preserves it.
    pub closed spec fn wf(&self) -> bool {
        &&& forall|a: int, b: int|
            0 <= a < b < self.lookups@.len() ==> #[trigger] self.lookups@[a].title@
                != #[trigger] self.lookups@[b].title@
        &&& forall|a: int, b: int|
            0 <= a < b < self.redirects@.len() ==> #[trigger] self.redirects@[a].redirect_from@
                != #[trigger] self.redirects@[b].redirect_from@
    }

    /// An empty store.
    pub fn new() -> (r: LookupStore)
        ensures
            r.wf(),
            r@.lookups == Map::<Seq<char>, (u32, u32)>::empty(),
            r@.redirects == Map::<Seq<char>, Seq<char>>::empty(),
    {
        LookupStore { lookups: Vec::new(), redirects: Vec::new() }
    }

    /// Inserts a lookup entry under its sanitized title; the first insert
    /// for a key wins, and a later insert for the same key is a reported
    /// no-op.
    pub fn add_lookup_entry(&mut self, entry: LookupEntry) -> (r: InsertOutcome)
        requires
            old(self).wf(),
        ensures
            final(self).wf(),
            final(self)@.redirects == old(self)@.redirects,
            (r == InsertOutcome::DuplicateKey) == old(self)@.lookups.contains_key(entry.title@),
            old(self)@.lookups.contains_key(entry.title@) ==> final(self)@ == old(self)@,
            !old(self)@.lookups.contains_key(entry.title@) ==> final(self)@.lookups == old(
                self,
            )@.lookups.insert(entry.title@, (entry.byte_offset, entry.length)),
    {
        proof {
            lemma_lookups_map_contains(self.lookups@, entry.title@);
        }
        let n = self.lookups.len();
        let mut i: usize = 0;
        while i < n
            invariant
                self.wf(),
                n == self.lookups@.len(),
                i <= n,
                forall|j: int| 0 <= j < i ==> #[trigger] self.lookups@[j].title@ != entry.title@,
            decreases n - i,
        {
            if str_eq(self.lookups[i].title.as_str(), entry.title.as_str()) {
                proof {
                    lemma_lookups_map_contains(self.lookups@, entry.title@);
                    assert(self.lookups@[i as int].title@ == entry.title@);
                }
                return InsertOutcome::DuplicateKey;
            }
            i = i + 1;
        }
        let ghost s0 = self.lookups@;
        self.lookups.push(entry);
        proof {
            assert(self.lookups@.drop_last() =~= s0);
            assert(forall|a: int, b: int|
                0 <= a < b < self.lookups@.len() ==> #[trigger] self.lookups@[a].title@
                    != #[trigger] self.lookups@[b].title@);
        }
        InsertOutcome::Inserted
    }

    /// Inserts a redirect entry under its sanitized source title; the
    /// first insert for a key wins, and a later insert for the same key
    /// is a reported no-op.
    pub fn add_redirect_entry(&mut self, entry: RedirectEntry) -> (r: InsertOutcome)
        requires
            old(self).wf(),
        ensures
            final(self).wf(),
            final(self)@.lookups == old(self)@.lookups,
            (r == InsertOutcome::DuplicateKey) == old(self)@.redirects.contains_key(
                entry.redirect_from@,
            ),
            old(self)@.redirects.contains_key(entry.redirect_from@) ==> final(self)@ == old(
                self,
            )@,
            !old(self)@.redirects.contains_key(entry.redirect_from@) ==> final(self)@.redirects
                == old(self)@.redirects.insert(entry.redirect_from@, entry.redirect_to@),
    {
        proof {
            lemma_redirects_map_contains(self.redirects@, entry.redirect_from@);
        }
        let n = self.redirects.len();
        let mut i: usize = 0;
        while i < n
            invariant
                self.wf(),
                n == self.redirects@.len(),
                i <= n,
                forall|j: int|
                    0 <= j < i ==> #[trigger] self.redirects@[j].redirect_from@
                        != entry.redirect_from@,
            decreases n - i,
        {
            if str_eq(self.redirects[i].redirect_from.as_str(), entry.redirect_from.as_str()) {
                proof {
                    lemma_redirects_map_contains(self.redirects@, entry.redirect_from@);
                    assert(self.redirects@[i as int].redirect_from@ == entry.redirect_from@);
                }
                return InsertOutcome::DuplicateKey;
            }
            i = i + 1;
        }
        let ghost s0 = self.redirects@;
        self.redirects.push(entry);
        proof {
            assert(self.redirects@.drop_last() =~= s0);
            assert(forall|a: int, b: int|
                0 <= a < b < self.redirects@.len() ==> #[trigger] self.redirects@[
                    a
                ].redirect_from@ != #[trigger] self.redirects@[b].redirect_from@);
        }
        InsertOutcome::Inserted
    }

    /// The lookup entry persisted under exactly this key, if any.
    pub fn look_up_lookup_entry(&self, input_title: &str) -> (r: Option<LookupEntry>)
        requires
            self.wf(),
        ensures
            match r {
                Some(e) => {
                    &&& self@.lookups.contains_key(input_title@)
                    &&& e.title@ == input_title@
                    &&& (e.byte_offset, e.length) == self@.lookups[input_title@]
                },
                None => !self@.lookups.contains_key(input_title@),
            },
    {
        proof {
            lemma_lookups_map_contains(self.lookups@, input_title@);
        }
        let n = self.lookups.len();
        let mut i: usize = 0;
        while i < n
            invariant
                self.wf(),
                n == self.lookups@.len(),
                i <= n,
                forall|j: int| 0 <= j < i ==> #[trigger] self.lookups@[j].title@ != input_title@,
            decreases n - i,
        {
            if str_eq(self.lookups[i].title.as_str(), input_title) {
                proof {
                    lemma_lookups_map_at(self.lookups@, i as int);
                }
                let e = &self.lookups[i];
                return Some(
                    LookupEntry {
                        title: e.title.clone(),
                        byte_offset: e.byte_offset,
                        length: e.length,
                    },
                );
            }
            i = i + 1;
        }
        None
    }

    /// The redirect entry persisted under exactly this key, if any.
    fn look_up_redirect_entry(&self, input_title: &str) -> (r: Option<RedirectEntry>)
        requires
            self.wf(),
        ensures
            match r {
                Some(e) => {
                    &&& self@.redirects.contains_key(input_title@)
                    &&& e.redirect_from@ == input_title@
                    &&& e.redirect_to@ == self@.redirects[input_title@]
                },
                None => !self@.redirects.contains_key(input_title@),
            },
    {
        proof {
            lemma_redirects_map_contains(self.redirects@, input_title@);
        }
        let n = self.redirects.len();
        let mut i: usize = 0;
        while i < n
            invariant
                self.wf(),
                n == self.redirects@.len(),
                i <= n,
                forall|j: int|
                    0 <= j < i ==> #[trigger] self.redirects@[j].redirect_from@ != input_title@,
            decreases n - i,
        {
            if str_eq(self.redirects[i].redirect_from.as_str(), input_title) {
                proof {
                    lemma_redirects_map_at(self.redirects@, i as int);
                }
                let e = &self.redirects[i];
                return Some(
                    RedirectEntry {
                        redirect_from: e.redirect_from.clone(),
                        redirect_to: e.redirect_to.clone(),
                    },
                );
            }
            i = i + 1;
        }
        None
    }

    /// The lookup entry an already-sanitized key reaches: a redirect entry
    /// for the key is consulted first, and then the redirect's target must
    /// itself have a lookup entry; only a key with no redirect entry is
    /// looked up directly.
    pub fn lookup_with_redirects(&self, input_title: &str) -> (r: Option<LookupEntry>)
        requires
            self.wf(),
        ensures
            match r {
                Some(e) => {
                    &&& lookup_with_redirects_spec(self@, input_title@) == Some(
                        (e.byte_offset, e.length),
                    )
                },
                None => lookup_with_redirects_spec(self@, input_title@) is None,
            },
    {
        match self.look_up_redirect_entry(input_title) {
            Some(redir) => self.look_up_lookup_entry(redir.redirect_to.as_str()),
            None => self.look_up_lookup_entry(input_title),
        }
    }

    /// The byte offset a raw title currently resolves to, consulting
    /// redirects first; `None` is a dangling reference.
    pub fn resolve(&self, raw_title: &str) -> (r: Option<u32>)
        requires
            self.wf(),
        ensures
            r == resolve_spec(self@, raw_title@),
    {
        let key = sanitize_string(raw_title);
        match self.lookup_with_redirects(key.as_str()) {
            Some(e) => Some(e.byte_offset),
            None => None,
        }
    }

    /// Every persisted (title, byte offset) pair, for a one-shot bulk
    /// load before Pass 2.
    pub fn read_offsets_into_memory(&self) -> (r: Vec<(String, u32)>)
        requires
            self.wf(),
        ensures
            forall|j: int|
                0 <= j < r@.len() ==> self@.lookups.contains_key(#[trigger] r@[j].0@)
                    && self@.lookups[r@[j].0@].0 == r@[j].1,
            forall|k: Seq<char>|
                self@.lookups.contains_key(k) ==> exists|j: int|
                    0 <= j < r@.len() && #[trigger] r@[j].0@ == k,
    {
        let n = self.lookups.len();
        let mut r: Vec<(String, u32)> = Vec::new();
        let mut i: usize = 0;
        while i < n
            invariant
                n == self.lookups@.len(),
                i <= n,
                r@.len() == i,
                forall|a: int, b: int|
                    0 <= a < b < self.lookups@.len() ==> #[trigger] self.lookups@[a].title@
                        != #[trigger] self.lookups@[b].title@,
                forall|j: int|
                    0 <= j < i ==> #[trigger] r@[j].0@ == self.lookups@[j].title@ && r@[j].1
                        == self.lookups@[j].byte_offset,
            decreases n - i,
        {
            let e = &self.lookups[i];
            r.push((e.title.clone(), e.byte_offset));
            i = i + 1;
        }
        proof {
            assert forall|j: int| 0 <= j < r@.len() implies self@.lookups.contains_key(
                #[trigger] r@[j].0@,
            ) && self@.lookups[r@[j].0@].0 == r@[j].1 by {
                lemma_lookups_map_at(self.lookups@, j);
            }
            assert forall|k: Seq<char>| self@.lookups.contains_key(k) implies exists|j: int|
                0 <= j < r@.len() && #[trigger] r@[j].0@ == k by {
                lemma_lookups_map_contains(self.lookups@, k);
                let j = choose|j: int| 0 <= j < self.lookups@.len() && #[trigger] self.lookups@[
                    j
                ].title@ == k;
                assert(r@[j].0@ == k);
            }
        }
        r
    }
}

} // verus!
