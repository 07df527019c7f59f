//! A load-once asset store keyed by dense asset keys.
use vstd::prelude::*;

verus! {

/// The state of one asset key.
pub enum CacheEntry<A> {
    /// Never requested.
    Unloaded,
    /// A load was handed out and has not come back yet.
    Loading,
    /// Loaded; the asset is held.
    Loaded(A),
    /// The load failed; it is not tried again.
    Failed,
}

/// What a request for a key tells the caller.
#[derive(Clone, Copy, Debug, PartialEq, Eq, Structural)]
pub enum LoadStep {
    /// The key was never requested: the caller now owns its one load and
    /// must report the outcome with `AssetCache::complete`.
    Fetch,
    /// Another load of the key is under way.
    InFlight,
    /// The asset is loaded.
    Loaded,
    /// The load failed earlier.
    Failed,
}

/// Loaded or Failed: an entry that no request or completion changes again.
pub open spec fn is_settled<A>(e: CacheEntry<A>) -> bool {
    e is Loaded || e is Failed
}

/// The answer to a request for a key in the given state.
pub open spec fn request_outcome<A>(e: CacheEntry<A>) -> LoadStep {
    match e {
        CacheEntry::Unloaded => LoadStep::Fetch,
        CacheEntry::Loading => LoadStep::InFlight,
        CacheEntry::Loaded(_) => LoadStep::Loaded,
        CacheEntry::Failed => LoadStep::Failed,
    }
}

/// The state of a key after a request for it.
pub open spec fn request_entry<A>(e: CacheEntry<A>) -> CacheEntry<A> {
    match e {
        CacheEntry::Unloaded => CacheEntry::Loading,
        _ => e,
    }
}

/// The state of a key whose load came back with `result`.
pub open spec fn completed_entry<A>(result: Option<A>) -> CacheEntry<A> {
    match result {
        Some(a) => CacheEntry::Loaded(a),
        None => CacheEntry::Failed,
    }
}

/// The asset a non-loading read sees in a given state.
pub open spec fn visible_asset<A>(e: CacheEntry<A>) -> Option<A> {
    match e {
        CacheEntry::Loaded(a) => Some(a),
        _ => None,
    }
}

/// Requesting a key twice hands out at most one load: only a request of an
/// Unloaded key is a fetch, the second request finds the key no longer
/// Unloaded and changes nothing, and once the first load came back, a later
/// request reports its outcome.
pub proof fn lemma_request_twice<A>(e: CacheEntry<A>, result: Option<A>)
    ensures
        (request_outcome(e) is Fetch) == (e is Unloaded),
        !(request_outcome(request_entry(e)) is Fetch),
        request_entry(request_entry(e)) == request_entry(e),
        is_settled(e) ==> request_outcome(request_entry(e)) == request_outcome(e),
        request_outcome(request_entry(completed_entry(result))) == (if result is Some {
            LoadStep::Loaded
        } else {
            LoadStep::Failed
        }),
{
}

/// A non-loading read sees nothing before a key is requested and while its
/// load is under way, the asset once it loaded, and nothing once it failed.
pub proof fn lemma_read_follows_load<A>(result: Option<A>)
    ensures
        visible_asset(CacheEntry::<A>::Unloaded) is None,
        visible_asset(request_entry(CacheEntry::<A>::Unloaded)) is None,
        visible_asset(completed_entry(result)) == result,
{
}

/// One entry per asset key `0..len`, and a record of every load handed out.
pub struct AssetCache<A> {
    entries: Vec<CacheEntry<A>>,
    fetched: Ghost<Seq<usize>>,
}

impl<A> View for AssetCache<A> {
    type V = Seq<CacheEntry<A>>;

    closed spec fn view(&self) -> Seq<CacheEntry<A>> {
        self.entries@
    }
}

impl<A> AssetCache<A> {
    /// The keys whose load was handed out, in the order the loads were issued.
    pub closed spec fn fetches(&self) -> Seq<usize> {
        self.fetched@
    }

    /// Every key is fetched at most once, and exactly the keys that were
    /// fetched have left `Unloaded`.
    pub open spec fn wf(&self) -> bool {
        &&& self.fetches().no_duplicates()
        &&& forall|i: int| 0 <= i < self.fetches().len() ==> (self.fetches()[i] as int) < self@.len()
        &&& forall|k: usize|
            (k as int) < self@.len() ==> ((self@[k as int] is Unloaded) <==> !self.fetches().contains(k))
    }

    /// `self` is a later state of `earlier`: the same keys, the loads of
    /// `earlier` followed by perhaps more, no key back to `Unloaded`, and every
    /// settled entry unchanged.
    pub open spec fn extends(&self, earlier: &Self) -> bool {
        &&& self@.len() == earlier@.len()
        &&& earlier.fetches().is_prefix_of(self.fetches())
        &&& forall|k: int| 0 <= k < self@.len() && !(earlier@[k] is Unloaded) ==> !(self@[k] is Unloaded)
        &&& forall|k: int| 0 <= k < self@.len() && is_settled(earlier@[k]) ==> self@[k] == earlier@[k]
    }

    /// A cache of `n_keys` keys, none requested yet.
    pub fn new(n_keys: usize) -> (c: Self)
        ensures
            c.wf(),
            c@.len() == n_keys,
            c.fetches() == Seq::<usize>::empty(),
            forall|k: int| 0 <= k < n_keys ==> c@[k] is Unloaded,
    {
        let mut entries: Vec<CacheEntry<A>> = Vec::new();
        let mut i: usize = 0;
        while i < n_keys
            invariant
                0 <= i <= n_keys,
                entries@.len() == i,
                forall|k: int| 0 <= k < i ==> entries@[k] is Unloaded,
            decreases n_keys - i,
        {
            entries.push(CacheEntry::Unloaded);
            i = i + 1;
        }
        AssetCache { entries, fetched: Ghost(Seq::empty()) }
    }

    /// The number of asset keys.
    pub fn len(&self) -> (n: usize)
        ensures
            n == self@.len(),
    {
        self.entries.len()
    }

    /// The state of one key.
    pub fn entry(&self, key: usize) -> (e: &CacheEntry<A>)
        requires
            key < self@.len(),
        ensures
            *e == self@[key as int],
    {
        &self.entries[key]
    }

    /// Requests a key: the first request of a key hands its one load to the
    /// caller (`Fetch`) and marks it `Loading`; any later request reports the
    /// state and changes nothing.
    pub fn ensure_loaded(&mut self, key: usize) -> (step: LoadStep)
        requires
            old(self).wf(),
            key < old(self)@.len(),
        ensures
            final(self).wf(),
            final(self).extends(old(self)),
            step == request_outcome(old(self)@[key as int]),
            final(self)@ == old(self)@.update(key as int, request_entry(old(self)@[key as int])),
            final(self).fetches() == if old(self)@[key as int] is Unloaded {
                old(self).fetches().push(key)
            } else {
                old(self).fetches()
            },
    {
        match &self.entries[key] {
            CacheEntry::Unloaded => {},
            CacheEntry::Loading => {
                return LoadStep::InFlight;
            },
            CacheEntry::Loaded(_) => {
                return LoadStep::Loaded;
            },
            CacheEntry::Failed => {
                return LoadStep::Failed;
            },
        }
        let ghost before = self.fetched@;
        assert(!before.contains(key));
        self.entries.set(key, CacheEntry::Loading);
        self.fetched = Ghost(self.fetched@.push(key));
        proof {
            assert forall|k: usize| (k as int) < self@.len() implies ((self@[k as int] is Unloaded)
                <==> !self.fetches().contains(k)) by {
                assert(self.fetches()[before.len() as int] == key);
                if k != key {
                    if self.fetches().contains(k) {
                        let i = choose|i: int| 0 <= i < self.fetches().len() && self.fetches()[i] == k;
                        assert(i < before.len());
                        assert(before.contains(k));
                    }
                    if before.contains(k) {
                        let i = choose|i: int| 0 <= i < before.len() && before[i] == k;
                        assert(self.fetches()[i] == k);
                    }
                } else {
                    assert(self.fetches()[before.len() as int] == key);
                }
            }
            assert forall|i: int, j: int| 0 <= i < j < self.fetches().len() implies
                self.fetches()[i] != self.fetches()[j] by {
                if j == before.len() {
                    assert(before[i] == self.fetches()[i]);
                    if before[i] == key {
                        assert(before.contains(key));
                    }
                }
            }
            assert(before.is_prefix_of(self.fetches()));
        }
        LoadStep::Fetch
    }

    /// Records how the load of a key came back: `Some(asset)` when it
    /// loaded, `None` when it failed. Only a key whose load was handed out
    /// and is still under way can be completed.
    pub fn complete(&mut self, key: usize, result: Option<A>)
        requires
            old(self).wf(),
            key < old(self)@.len(),
            old(self)@[key as int] is Loading,
        ensures
            final(self).wf(),
            final(self).extends(old(self)),
            final(self)@ == old(self)@.update(key as int, completed_entry(result)),
            final(self).fetches() == old(self).fetches(),
    {
        let e = match result {
            Some(a) => CacheEntry::Loaded(a),
            None => CacheEntry::Failed,
        };
        self.entries.set(key, e);
    }

    /// Non-loading read: the asset of a loaded key, nothing otherwise.
    pub fn get(&self, key: usize) -> (r: Option<&A>)
        requires
            key < self@.len(),
        ensures
            match r {
                Some(a) => visible_asset(self@[key as int]) == Some(*a),
                None => visible_asset(self@[key as int]) is None,
            },
    {
        match &self.entries[key] {
            CacheEntry::Loaded(a) => Some(a),
            _ => None,
        }
    }
}

} // verus!
