//! Warming the assets of a batch, and the prefetch of the next batch.
use vstd::prelude::*;
use crate::cache::{AssetCache, CacheEntry, LoadStep, is_settled};
use crate::catalog::{Catalog, Item, Recipe, picks_keys, recipe_keys, recipe_in};

verus! {

/// What one step of warming a list of keys tells the caller.
#[derive(Clone, Copy, Debug, PartialEq, Eq, Structural)]
pub enum Poll {
    /// The load of this key is handed to the caller, who reports its outcome
    /// with `complete` and polls again.
    Fetch(usize),
    /// A load that was handed out earlier has not come back yet.
    Running,
    /// Every key is Loaded or Failed.
    Ready,
}

/// Every key is a key of the cache and is Loaded or Failed there.
pub open spec fn all_settled<A>(entries: Seq<CacheEntry<A>>, keys: Seq<usize>) -> bool {
    forall|i: int|
        #![trigger keys[i]]
        0 <= i < keys.len() ==> (keys[i] as int) < entries.len() && is_settled(entries[keys[i] as int])
}

/// Every key is a key of a cache of `n` keys.
pub open spec fn keys_below(keys: Seq<usize>, n: nat) -> bool {
    forall|i: int| 0 <= i < keys.len() ==> (#[trigger] keys[i] as nat) < n
}

/// The outcome of one warming step over `keys` from the cache `before` to
/// the cache `after`: the first key that is not settled decides. Unloaded,
/// its load is handed out; Loading, the step waits; with none, it is done.
pub open spec fn warm_step<A>(keys: Seq<usize>, before: AssetCache<A>, after: AssetCache<A>, p: Poll) -> bool {
    match p {
        Poll::Ready => {
            &&& all_settled(before@, keys)
            &&& after@ == before@
            &&& after.fetches() == before.fetches()
        },
        Poll::Fetch(k) => exists|i: int|
            0 <= i < keys.len() && keys[i] == k && all_settled(before@, keys.take(i)) && {
                &&& before@[k as int] is Unloaded
                &&& after@ == before@.update(k as int, CacheEntry::Loading)
                &&& after.fetches() == before.fetches().push(k)
            },
        Poll::Running => exists|i: int|
            0 <= i < keys.len() && all_settled(before@, keys.take(i)) && {
                &&& before@[keys[i] as int] is Loading
                &&& after@ == before@
                &&& after.fetches() == before.fetches()
            },
    }
}

/// Settled keys stay settled in every later state of the cache.
pub proof fn lemma_settled_stays<A>(keys: Seq<usize>, earlier: AssetCache<A>, later: AssetCache<A>)
    requires
        all_settled(earlier@, keys),
        later.extends(&earlier),
    ensures
        all_settled(later@, keys),
{
    assert forall|i: int| 0 <= i < keys.len() implies (keys[i] as int) < later@.len() && is_settled(
        #[trigger] later@[keys[i] as int],
    ) by {
        let k = keys[i] as int;
        assert(is_settled(earlier@[k]));
        assert(later@[k] == earlier@[k]);
    }
}

/// Whatever each load's outcome, a step that reports Ready leaves every key
/// Loaded or Failed in the cache.
pub proof fn lemma_ready_is_warm<A>(keys: Seq<usize>, before: AssetCache<A>, after: AssetCache<A>)
    requires
        warm_step(keys, before, after, Poll::Ready),
    ensures
        all_settled(after@, keys),
{
}

/// One warming step over `keys`: requests them in order and stops at the
/// first that is not Loaded or Failed.
pub fn warm_keys<A>(keys: &Vec<usize>, cache: &mut AssetCache<A>) -> (p: Poll)
    requires
        old(cache).wf(),
        keys_below(keys@, old(cache)@.len()),
    ensures
        final(cache).wf(),
        final(cache).extends(old(cache)),
        warm_step(keys@, *old(cache), *final(cache), p),
{
    let mut i: usize = 0;
    while i < keys.len()
        invariant
            0 <= i <= keys@.len(),
            cache.wf(),
            keys_below(keys@, old(cache)@.len()),
            cache@ == old(cache)@,
            cache.fetches() == old(cache).fetches(),
            all_settled(old(cache)@, keys@.take(i as int)),
        decreases keys@.len() - i,
    {
        let k = keys[i];
        assert((keys@[i as int] as nat) < old(cache)@.len());
        let step = cache.ensure_loaded(k);
        match step {
            LoadStep::Fetch => {
                assert(keys@[i as int] == k);
                return Poll::Fetch(k);
            },
            LoadStep::InFlight => {
                assert(cache@ =~= old(cache)@);
                return Poll::Running;
            },
            _ => {},
        }
        assert(cache@ =~= old(cache)@);
        assert forall|j: int| 0 <= j < i + 1 implies (keys@.take(i + 1)[j] as int) < old(cache)@.len()
            && is_settled(#[trigger] old(cache)@[keys@.take(i + 1)[j] as int]) by {
            if j < i {
                assert(keys@.take(i + 1)[j] == keys@.take(i as int)[j]);
            }
        }
        i = i + 1;
    }
    assert(keys@.take(keys@.len() as int) =~= keys@);
    Poll::Ready
}

impl Item {
    /// Requests this item's asset from the cache.
    pub fn load<A>(&self, cache: &mut AssetCache<A>) -> (step: LoadStep)
        requires
            old(cache).wf(),
            self.key < old(cache)@.len(),
        ensures
            final(cache).wf(),
            final(cache).extends(old(cache)),
            step == crate::cache::request_outcome(old(cache)@[self.key as int]),
            final(cache)@ == old(cache)@.update(
                self.key as int,
                crate::cache::request_entry(old(cache)@[self.key as int]),
            ),
    {
        cache.ensure_loaded(self.key)
    }
}

impl Recipe {
    /// One warming step over this recipe's assets, product first.
    pub fn load<A>(&self, cache: &mut AssetCache<A>) -> (p: Poll)
        requires
            old(cache).wf(),
            keys_below(recipe_keys(*self), old(cache)@.len()),
        ensures
            final(cache).wf(),
            final(cache).extends(old(cache)),
            warm_step(recipe_keys(*self), *old(cache), *final(cache), p),
    {
        let keys = self.asset_keys();
        warm_keys(&keys, cache)
    }
}

/// The keys of a recipe of the catalog are keys of the catalog.
proof fn lemma_recipe_keys_below(r: Recipe, names: Seq<Seq<char>>)
    requires
        recipe_in(r, names),
    ensures
        keys_below(recipe_keys(r), names.len()),
{
    let keys = recipe_keys(r);
    assert forall|i: int| 0 <= i < keys.len() implies (#[trigger] keys[i] as nat) < names.len() by {
        if i > 0 {
            assert(keys[i] == r.input@[i - 1].name.key);
        }
    }
}

/// The keys of recipes picked from a well-formed catalog are keys of it.
pub proof fn lemma_picks_keys_below(c: &Catalog, picks: Seq<usize>)
    requires
        c.wf(),
        keys_below(picks, c.recipes().len()),
    ensures
        keys_below(picks_keys(c.recipes(), picks), c.names().len()),
    decreases picks.len(),
{
    if picks.len() > 0 {
        let init = picks.drop_last();
        assert(keys_below(init, c.recipes().len())) by {
            assert forall|i: int| 0 <= i < init.len() implies (#[trigger] init[i] as nat) < c.recipes().len() by {
                assert(init[i] == picks[i]);
            }
        }
        lemma_picks_keys_below(c, init);
        assert((picks[picks.len() - 1] as nat) < c.recipes().len());
        let r = c.recipes()[picks.last() as int];
        lemma_recipe_keys_below(r, c.names());
        let a = picks_keys(c.recipes(), init);
        let b = recipe_keys(r);
        assert forall|i: int| 0 <= i < (a + b).len() implies (#[trigger] (a + b)[i] as nat) < c.names().len() by {
            if i < a.len() {
                assert((a + b)[i] == a[i]);
            } else {
                assert((a + b)[i] == b[i - a.len()]);
            }
        }
    }
}

/// A batch: the catalog indices of its recipes, in display order.
pub struct Batch {
    picks: Vec<usize>,
}

impl View for Batch {
    type V = Seq<usize>;

    closed spec fn view(&self) -> Seq<usize> {
        self.picks@
    }
}

impl Batch {
    /// The catalog indices of the batch, in display order.
    pub fn picks(&self) -> (r: &Vec<usize>)
        ensures
            r@ == self@,
    {
        &self.picks
    }
}

/// The background preparation of the next batch: the picked recipes, the
/// keys they need, and whether every key was seen settled.
pub struct PrefetchPipeline {
    picks: Vec<usize>,
    keys: Vec<usize>,
    ready: bool,
}

impl PrefetchPipeline {
    /// The catalog indices being prepared.
    pub closed spec fn picks(&self) -> Seq<usize> {
        self.picks@
    }

    /// The asset keys being warmed, in request order.
    pub closed spec fn keys(&self) -> Seq<usize> {
        self.keys@
    }

    /// Every key was seen Loaded or Failed.
    pub closed spec fn is_ready(&self) -> bool {
        self.ready
    }

    /// The pipeline prepares recipes of `c`, and warms exactly their keys.
    pub open spec fn wf_for(&self, c: &Catalog) -> bool {
        &&& keys_below(self.picks(), c.recipes().len())
        &&& self.keys() == picks_keys(c.recipes(), self.picks())
    }

    /// Starts preparing the recipes at `picks`; nothing is requested yet.
    pub fn start(catalog: &Catalog, picks: Vec<usize>) -> (p: Self)
        requires
            catalog.wf(),
            keys_below(picks@, catalog.recipes().len()),
        ensures
            p.wf_for(catalog),
            p.picks() == picks@,
            !p.is_ready(),
    {
        let mut keys: Vec<usize> = Vec::new();
        let mut i: usize = 0;
        while i < picks.len()
            invariant
                0 <= i <= picks@.len(),
                catalog.wf(),
                keys_below(picks@, catalog.recipes().len()),
                keys@ == picks_keys(catalog.recipes(), picks@.take(i as int)),
            decreases picks@.len() - i,
        {
            assert((picks@[i as int] as nat) < catalog.recipes().len());
            let mut rk = catalog.recipe(picks[i]).asset_keys();
            keys.append(&mut rk);
            assert(picks@.take(i + 1).drop_last() =~= picks@.take(i as int));
            i = i + 1;
        }
        assert(picks@.take(picks@.len() as int) =~= picks@);
        PrefetchPipeline { picks, keys, ready: false }
    }

    /// Non-blocking check, one warming step: a ready pipeline stays ready
    /// and touches nothing; otherwise the step over its keys decides, and
    /// the pipeline becomes ready when every key is settled.
    pub fn poll<A>(&mut self, cache: &mut AssetCache<A>) -> (p: Poll)
        requires
            old(cache).wf(),
            keys_below(old(self).keys(), old(cache)@.len()),
        ensures
            final(cache).wf(),
            final(cache).extends(old(cache)),
            final(self).picks() == old(self).picks(),
            final(self).keys() == old(self).keys(),
            final(self).is_ready() == (p == Poll::Ready),
            old(self).is_ready() ==> {
                &&& p == Poll::Ready
                &&& final(cache)@ == old(cache)@
                &&& final(cache).fetches() == old(cache).fetches()
            },
            !old(self).is_ready() ==> warm_step(old(self).keys(), *old(cache), *final(cache), p),
    {
        if self.ready {
            return Poll::Ready;
        }
        let p = warm_keys(&self.keys, cache);
        if let Poll::Ready = p {
            self.ready = true;
        }
        p
    }

    /// Whether every key was seen settled.
    pub fn ready(&self) -> (r: bool)
        ensures
            r == self.is_ready(),
    {
        self.ready
    }

    /// Hands over the prepared batch; only a ready pipeline can be taken.
    pub fn take(self) -> (b: Batch)
        requires
            self.is_ready(),
        ensures
            b@ == self.picks(),
    {
        Batch { picks: self.picks }
    }
}

} // verus!
