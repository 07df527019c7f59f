//! The fixed universe of recipes and of the asset keys they name.
use vstd::prelude::*;

verus! {

/// A reference to one visual asset: its display name and its dense key.
pub struct Item {
    pub name: String,
    pub key: usize,
}

/// One input of a recipe: the item and its quantity in thousandths.
pub struct Ingredients {
    pub name: Item,
    pub nb_milli: u64,
}

/// One reward: a name, the product, the inputs in order, and the production
/// rate per minute in thousandths.
pub struct Recipe {
    pub name: String,
    pub product: Item,
    pub input: Vec<Ingredients>,
    pub rate_milli: u64,
}

/// The asset keys of a recipe, in load order: the product, then each input.
pub open spec fn recipe_keys(r: Recipe) -> Seq<usize> {
    seq![r.product.key] + r.input@.map_values(|i: Ingredients| i.name.key)
}

/// The asset keys of the recipes at `picks`, one recipe after the other.
pub open spec fn picks_keys(recipes: Seq<Recipe>, picks: Seq<usize>) -> Seq<usize>
    decreases picks.len(),
{
    if picks.len() == 0 {
        Seq::empty()
    } else {
        picks_keys(recipes, picks.drop_last()) + recipe_keys(recipes[picks.last() as int])
    }
}

impl Recipe {
    /// The keys this recipe needs, product first, then the inputs in order.
    pub fn asset_keys(&self) -> (keys: Vec<usize>)
        ensures
            keys@ == recipe_keys(*self),
    {
        let mut keys: Vec<usize> = Vec::new();
        keys.push(self.product.key);
        let mut i: usize = 0;
        while i < self.input.len()
            invariant
                0 <= i <= self.input@.len(),
                keys@ == seq![self.product.key] + self.input@.subrange(0, i as int).map_values(
                    |g: Ingredients| g.name.key,
                ),
            decreases self.input@.len() - i,
        {
            keys.push(self.input[i].name.key);
            i = i + 1;
            assert(keys@ =~= seq![self.product.key] + self.input@.subrange(0, i as int).map_values(
                |g: Ingredients| g.name.key,
            ));
        }
        assert(self.input@.subrange(0, self.input@.len() as int) =~= self.input@);
        keys
    }
}

/// The names of all asset keys, where each key may have a locator, and the
/// recipes, which name their assets by key.
pub struct Catalog {
    names: Vec<String>,
    locators: Vec<Option<String>>,
    recipes: Vec<Recipe>,
}

/// An item names key `it.key` of a catalog whose key names are `names`.
pub open spec fn item_in(it: Item, names: Seq<Seq<char>>) -> bool {
    &&& (it.key as int) < names.len()
    &&& names[it.key as int] == it.name@
}

/// Every item of the recipe is a key of `names`, under its own name.
pub open spec fn recipe_in(r: Recipe, names: Seq<Seq<char>>) -> bool {
    &&& item_in(r.product, names)
    &&& forall|i: int| 0 <= i < r.input@.len() ==> item_in(#[trigger] r.input@[i].name, names)
}

/// A recipe that names keys of `names` still does when more keys are added.
proof fn lemma_recipe_in_grows(r: Recipe, names: Seq<Seq<char>>, more: Seq<Seq<char>>)
    requires
        recipe_in(r, names),
        names.is_prefix_of(more),
    ensures
        recipe_in(r, more),
{
    assert forall|i: int| 0 <= i < r.input@.len() implies item_in(#[trigger] r.input@[i].name, more) by {
        assert(item_in(r.input@[i].name, names));
    }
}

impl Catalog {
    /// The name of each asset key.
    pub closed spec fn names(&self) -> Seq<Seq<char>> {
        self.names@.map_values(|s: String| s@)
    }

    /// The locator of each asset key, where it has one.
    pub closed spec fn locators(&self) -> Seq<Option<Seq<char>>> {
        self.locators@.map_values(|l: Option<String>| match l {
            Some(s) => Some(s@),
            None => None,
        })
    }

    /// The recipes, in catalog order.
    pub closed spec fn recipes(&self) -> Seq<Recipe> {
        self.recipes@
    }

    /// Names are unique, each key has a locator slot, and each recipe names
    /// keys of the catalog.
    pub open spec fn wf(&self) -> bool {
        &&& self.names().no_duplicates()
        &&& self.locators().len() == self.names().len()
        &&& forall|i: int| 0 <= i < self.recipes().len() ==> recipe_in(#[trigger] self.recipes()[i], self.names())
    }

    /// An empty catalog.
    pub fn new() -> (c: Self)
        ensures
            c.wf(),
            c.names().len() == 0,
            c.recipes().len() == 0,
    {
        let c = Catalog { names: Vec::new(), locators: Vec::new(), recipes: Vec::new() };
        assert(c.names() =~= Seq::empty());
        assert(c.locators() =~= Seq::empty());
        c
    }

    /// The number of asset keys.
    pub fn n_assets(&self) -> (n: usize)
        ensures
            n == self.names().len(),
    {
        self.names.len()
    }

    /// The number of recipes.
    pub fn n_recipes(&self) -> (n: usize)
        ensures
            n == self.recipes().len(),
    {
        self.recipes.len()
    }

    /// The recipe at catalog index `i`.
    pub fn recipe(&self, i: usize) -> (r: &Recipe)
        requires
            i < self.recipes().len(),
        ensures
            *r == self.recipes()[i as int],
    {
        &self.recipes[i]
    }

    /// The name of an asset key.
    pub fn asset_name(&self, key: usize) -> (s: &String)
        requires
            key < self.names().len(),
        ensures
            s@ == self.names()[key as int],
    {
        &self.names[key]
    }

    /// The locator of an asset key, if it has one.
    pub fn locator(&self, key: usize) -> (l: Option<&String>)
        requires
            self.wf(),
            key < self.names().len(),
        ensures
            match l {
                Some(s) => self.locators()[key as int] == Some(s@),
                None => self.locators()[key as int] is None,
            },
    {
        match &self.locators[key] {
            Some(s) => Some(s),
            None => None,
        }
    }

    /// The key named `name`, if there is one.
    pub fn key_of(&self, name: &String) -> (r: Option<usize>)
        ensures
            match r {
                Some(k) => (k as int) < self.names().len() && self.names()[k as int] == name@,
                None => !self.names().contains(name@),
            },
    {
        let mut i: usize = 0;
        while i < self.names.len()
            invariant
                0 <= i <= self.names@.len(),
                forall|j: int| 0 <= j < i ==> self.names()[j] != name@,
            decreases self.names@.len() - i,
        {
            if self.names[i] == *name {
                return Some(i);
            }
            i = i + 1;
        }
        proof {
            if self.names().contains(name@) {
                let j = choose|j: int| 0 <= j < self.names().len() && self.names()[j] == name@;
                assert(self.names()[j] != name@);
            }
        }
        None
    }

    /// The key named `name`; a name not yet known becomes a new key, without
    /// a locator.
    pub fn intern(&mut self, name: String) -> (key: usize)
        requires
            old(self).wf(),
        ensures
            final(self).wf(),
            final(self).recipes() == old(self).recipes(),
            if old(self).names().contains(name@) {
                &&& final(self).names() == old(self).names()
                &&& final(self).locators() == old(self).locators()
                &&& (key as int) < old(self).names().len()
                &&& old(self).names()[key as int] == name@
            } else {
                &&& final(self).names() == old(self).names().push(name@)
                &&& final(self).locators() == old(self).locators().push(None)
                &&& key == old(self).names().len()
            },
    {
        match self.key_of(&name) {
            Some(k) => k,
            None => {
                let key = self.names.len();
                let ghost before = self.names();
                self.names.push(name);
                self.locators.push(None);
                proof {
                    assert(self.names() =~= before.push(name@));
                    assert(self.locators() =~= old(self).locators().push(None));
                    assert forall|i: int, j: int| 0 <= i < j < self.names().len() implies
                        self.names()[i] != self.names()[j] by {
                        if j == before.len() {
                            assert(before[i] == self.names()[i]);
                            if before[i] == name@ {
                                assert(before.contains(name@));
                            }
                        }
                    }
                    assert forall|i: int| 0 <= i < self.recipes().len() implies recipe_in(
                        #[trigger] self.recipes()[i],
                        self.names(),
                    ) by {
                        assert(self.recipes()[i] == old(self).recipes()[i]);
                        assert(recipe_in(old(self).recipes()[i], before));
                        lemma_recipe_in_grows(self.recipes()[i], before, self.names());
                    }
                }
                key
            },
        }
    }

    /// Gives the asset `name` the locator `locator`; a name not yet known
    /// becomes a new key. A later registration of a name replaces the
    /// locator of an earlier one.
    pub fn register_asset(&mut self, name: String, locator: String) -> (key: usize)
        requires
            old(self).wf(),
        ensures
            final(self).wf(),
            final(self).recipes() == old(self).recipes(),
            (key as int) < final(self).names().len(),
            final(self).names()[key as int] == name@,
            if old(self).names().contains(name@) {
                &&& final(self).names() == old(self).names()
                &&& final(self).locators() == old(self).locators().update(key as int, Some(locator@))
            } else {
                &&& final(self).names() == old(self).names().push(name@)
                &&& final(self).locators() == old(self).locators().push(Some(locator@))
                &&& key == old(self).names().len()
            },
    {
        let key = self.intern(name);
        let ghost mid = self.locators();
        self.locators.set(key, Some(locator));
        assert(self.locators() =~= mid.update(key as int, Some(locator@)));
        key
    }

    /// Adds a recipe whose product and inputs are given by name; each name
    /// is interned as a key. Returns the catalog index of the new recipe.
    pub fn add_recipe(
        &mut self,
        name: String,
        product: String,
        input: &Vec<(String, u64)>,
        rate_milli: u64,
    ) -> (index: usize)
        requires
            old(self).wf(),
        ensures
            final(self).wf(),
            index == old(self).recipes().len(),
            final(self).recipes().len() == old(self).recipes().len() + 1,
            final(self).recipes().drop_last() == old(self).recipes(),
            old(self).names().is_prefix_of(final(self).names()),
            old(self).locators().is_prefix_of(final(self).locators()),
            ({
                let r = final(self).recipes()[index as int];
                &&& r.name@ == name@
                &&& r.product.name@ == product@
                &&& r.rate_milli == rate_milli
                &&& r.input@.len() == input@.len()
                &&& forall|i: int|
                    0 <= i < input@.len() ==> (#[trigger] r.input@[i]).name.name@ == input@[i].0@
                        && r.input@[i].nb_milli == input@[i].1
            }),
    {
        let ghost names0 = self.names();
        let ghost locs0 = self.locators();
        let pname = product.clone();
        let pkey = self.intern(product);
        let mut items: Vec<Ingredients> = Vec::new();
        let mut i: usize = 0;
        while i < input.len()
            invariant
                0 <= i <= input@.len(),
                self.wf(),
                self.recipes() == old(self).recipes(),
                names0.is_prefix_of(self.names()),
                locs0.is_prefix_of(self.locators()),
                item_in(Item { name: pname, key: pkey }, self.names()),
                pname@ == product@,
                items@.len() == i,
                forall|j: int| 0 <= j < i ==> item_in(#[trigger] items@[j].name, self.names()),
                forall|j: int|
                    0 <= j < i ==> (#[trigger] items@[j]).name.name@ == input@[j].0@
                        && items@[j].nb_milli == input@[j].1,
            decreases input@.len() - i,
        {
            let iname = input[i].0.clone();
            let kname = input[i].0.clone();
            let ghost before = self.names();
            let key = self.intern(kname);
            proof {
                assert(before.is_prefix_of(self.names()));
                assert(names0.is_prefix_of(self.names()));
                assert(locs0.is_prefix_of(self.locators()));
                assert forall|j: int| 0 <= j < i implies item_in(#[trigger] items@[j].name, self.names()) by {
                    assert(item_in(items@[j].name, before));
                }
            }
            items.push(Ingredients { name: Item { name: iname, key }, nb_milli: input[i].1 });
            i = i + 1;
        }
        let r = Recipe {
            name,
            product: Item { name: pname, key: pkey },
            input: items,
            rate_milli,
        };
        let index = self.recipes.len();
        self.recipes.push(r);
        proof {
            assert(self.recipes().drop_last() =~= old(self).recipes());
            assert(recipe_in(self.recipes()[index as int], self.names()));
        }
        index
    }
}

} // verus!
