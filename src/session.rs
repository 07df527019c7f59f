//! The top-level alternation: show a batch, prefetch the next, swap on
//! confirmation.
use vstd::prelude::*;
use crate::cache::{AssetCache, completed_entry};
use crate::catalog::{Catalog, picks_keys};
use crate::pipeline::{Batch, Poll, PrefetchPipeline, all_settled, keys_below, lemma_picks_keys_below, lemma_settled_stays, warm_step};

verus! {

/// The catalog, the process-wide cache, the batch on display (none before
/// the first confirmation) and the one pending prefetch.
pub struct Session<A> {
    catalog: Catalog,
    cache: AssetCache<A>,
    current: Option<Batch>,
    pending: PrefetchPipeline,
}

impl<A> Session<A> {
    pub closed spec fn spec_catalog(&self) -> Catalog {
        self.catalog
    }

    pub closed spec fn spec_cache(&self) -> AssetCache<A> {
        self.cache
    }

    pub closed spec fn spec_current(&self) -> Option<Seq<usize>> {
        match self.current {
            Some(b) => Some(b@),
            None => None,
        }
    }

    pub closed spec fn spec_pending(&self) -> PrefetchPipeline {
        self.pending
    }

    /// The cache has one entry per key of the catalog; the pending prefetch
    /// and the batch on display pick recipes of the catalog; a ready
    /// prefetch and the batch on display have every key settled.
    pub open spec fn wf(&self) -> bool {
        &&& self.spec_catalog().wf()
        &&& self.spec_cache().wf()
        &&& self.spec_cache()@.len() == self.spec_catalog().names().len()
        &&& self.spec_pending().wf_for(&self.spec_catalog())
        &&& self.spec_pending().is_ready() ==> all_settled(self.spec_cache()@, self.spec_pending().keys())
        &&& match self.spec_current() {
            Some(picks) => {
                &&& keys_below(picks, self.spec_catalog().recipes().len())
                &&& all_settled(self.spec_cache()@, picks_keys(self.spec_catalog().recipes(), picks))
            },
            None => true,
        }
    }

    /// A session over `catalog` whose first prefetch prepares `first`;
    /// nothing is on display and no asset is requested yet.
    pub fn new(catalog: Catalog, first: Vec<usize>) -> (s: Self)
        requires
            catalog.wf(),
            keys_below(first@, catalog.recipes().len()),
        ensures
            s.wf(),
            s.spec_catalog() == catalog,
            s.spec_current() is None,
            s.spec_pending().picks() == first@,
            !s.spec_pending().is_ready(),
            s.spec_cache().fetches() == Seq::<usize>::empty(),
            forall|k: int| 0 <= k < catalog.names().len() ==> s.spec_cache()@[k] is Unloaded,
    {
        let cache = AssetCache::new(catalog.n_assets());
        let pending = PrefetchPipeline::start(&catalog, first);
        Session { catalog, cache, current: None, pending }
    }

    /// One step of the pending prefetch against the shared cache.
    pub fn poll(&mut self) -> (p: Poll)
        requires
            old(self).wf(),
        ensures
            final(self).wf(),
            final(self).spec_catalog() == old(self).spec_catalog(),
            final(self).spec_current() == old(self).spec_current(),
            final(self).spec_cache().extends(&old(self).spec_cache()),
            final(self).spec_pending().picks() == old(self).spec_pending().picks(),
            final(self).spec_pending().is_ready() == (p == Poll::Ready),
            old(self).spec_pending().is_ready() ==> {
                &&& p == Poll::Ready
                &&& final(self).spec_cache()@ == old(self).spec_cache()@
                &&& final(self).spec_cache().fetches() == old(self).spec_cache().fetches()
            },
            !old(self).spec_pending().is_ready() ==> warm_step(
                old(self).spec_pending().keys(),
                old(self).spec_cache(),
                final(self).spec_cache(),
                p,
            ),
    {
        proof {
            lemma_picks_keys_below(&self.catalog, self.pending.picks());
        }
        let ghost before = self.cache;
        let p = self.pending.poll(&mut self.cache);
        proof {
            if self.spec_current() is Some {
                lemma_settled_stays(picks_keys(self.catalog.recipes(), self.spec_current().unwrap()), before, self.cache);
            }
        }
        p
    }

    /// Reports how the load of `key`, handed out by `poll`, came back.
    pub fn complete(&mut self, key: usize, result: Option<A>)
        requires
            old(self).wf(),
            key < old(self).spec_cache()@.len(),
            old(self).spec_cache()@[key as int] is Loading,
        ensures
            final(self).wf(),
            final(self).spec_catalog() == old(self).spec_catalog(),
            final(self).spec_current() == old(self).spec_current(),
            final(self).spec_pending() == old(self).spec_pending(),
            final(self).spec_cache()@ == old(self).spec_cache()@.update(key as int, completed_entry(result)),
            final(self).spec_cache().fetches() == old(self).spec_cache().fetches(),
    {
        let ghost before = self.cache;
        self.cache.complete(key, result);
        proof {
            if self.pending.is_ready() {
                lemma_settled_stays(self.pending.keys(), before, self.cache);
            }
            if self.spec_current() is Some {
                lemma_settled_stays(picks_keys(self.catalog.recipes(), self.spec_current().unwrap()), before, self.cache);
            }
        }
    }

    /// On confirmation: the ready prefetch becomes the batch on display, and
    /// a new prefetch of `next` starts.
    pub fn confirm(&mut self, next: Vec<usize>)
        requires
            old(self).wf(),
            old(self).spec_pending().is_ready(),
            keys_below(next@, old(self).spec_catalog().recipes().len()),
        ensures
            final(self).wf(),
            final(self).spec_catalog() == old(self).spec_catalog(),
            final(self).spec_cache() == old(self).spec_cache(),
            final(self).spec_current() == Some(old(self).spec_pending().picks()),
            final(self).spec_pending().picks() == next@,
            !final(self).spec_pending().is_ready(),
    {
        let mut fresh = PrefetchPipeline::start(&self.catalog, next);
        std::mem::swap(&mut self.pending, &mut fresh);
        self.current = Some(fresh.take());
    }

    /// Whether the pending prefetch is ready to be confirmed.
    pub fn pending_ready(&self) -> (r: bool)
        ensures
            r == self.spec_pending().is_ready(),
    {
        self.pending.ready()
    }

    /// The batch on display, if any.
    pub fn current_batch(&self) -> (b: Option<&Batch>)
        ensures
            match b {
                Some(b) => self.spec_current() == Some(b@),
                None => self.spec_current() is None,
            },
    {
        match &self.current {
            Some(b) => Some(b),
            None => None,
        }
    }

    /// The catalog.
    pub fn catalog(&self) -> (c: &Catalog)
        ensures
            *c == self.spec_catalog(),
    {
        &self.catalog
    }

    /// The shared cache.
    pub fn cache(&self) -> (c: &AssetCache<A>)
        ensures
            *c == self.spec_cache(),
    {
        &self.cache
    }
}

/// The batch on display has every asset key it references Loaded or Failed
/// in the shared cache.
pub proof fn lemma_displayed_batch_is_warm<A>(s: &Session<A>)
    requires
        s.wf(),
        s.spec_current() is Some,
    ensures
        all_settled(s.spec_cache()@, picks_keys(s.spec_catalog().recipes(), s.spec_current().unwrap())),
{
}

/// However many batches are prepared and confirmed, no asset key has its
/// load handed out more than once: every operation keeps the session
/// well-formed and only appends to the record of loads.
pub proof fn lemma_no_key_loaded_twice<A>(s: &Session<A>)
    requires
        s.wf(),
    ensures
        s.spec_cache().fetches().no_duplicates(),
{
}

} // verus!
