use vstd::prelude::*;

use crate::codec::{json_of, spec_parse};
use crate::decode::parse_recipes;
use crate::encode::recipes_to_json;
use crate::recipe::{Recipe, RecipeView};
use crate::roundtrip::lemma_round_trip;

verus! {

/// No two records of the sequence carry the same identifier.
pub open spec fn ids_distinct(s: Seq<RecipeView>) -> bool {
    forall|i: int, j: int| 0 <= i < j < s.len() ==> s[i].id != s[j].id
}

/// Every identifier of the sequence lies strictly below `bound`.
pub open spec fn ids_below(s: Seq<RecipeView>, bound: u32) -> bool {
    forall|i: int| 0 <= i < s.len() ==> s[i].id < bound
}

/// The largest identifier of the sequence, or 0 when it is empty.
pub open spec fn max_id(s: Seq<RecipeView>) -> u32
    decreases s.len(),
{
    if s.len() == 0 {
        0
    } else if s[0].id >= max_id(s.skip(1)) {
        s[0].id
    } else {
        max_id(s.skip(1))
    }
}

/// The errors that persistence can report: the file could not be read or
/// written, or its content does not parse as a collection of recipes.
#[derive(Debug, Clone, PartialEq, Eq)]
pub enum PersistError {
    Io,
    Format,
}

/// The owning collection of recipes. It is the only writer of identifiers:
/// records are created through `add_recipe`, which assigns `next_id` and
/// increments it, so identifiers are unique and strictly increasing.
pub struct RecipeManager {
    recipes: Vec<Recipe>,
    next_id: u32,
}

impl RecipeManager {
    /// The records currently held, in storage order, as plain values.
    pub closed spec fn views(&self) -> Seq<RecipeView> {
        self.recipes.deep_view()
    }

    /// The identifier the next `add_recipe` will assign.
    pub closed spec fn next_id(&self) -> u32 {
        self.next_id
    }

    /// Store invariant: identifiers are pairwise distinct and all lie below
    /// `next_id`, which starts at 1.
    pub open spec fn wf(&self) -> bool {
        &&& ids_distinct(self.views())
        &&& ids_below(self.views(), self.next_id())
        &&& self.next_id() >= 1
    }

    pub fn new() -> (m: RecipeManager)
        ensures
            m.wf(),
            m.views() == Seq::<RecipeView>::empty(),
            m.next_id() == 1,
    {
        let m = RecipeManager { recipes: Vec::new(), next_id: 1 };
        proof {
            assert(m.views() =~= Seq::<RecipeView>::empty());
        }
        m
    }

    /// Appends a new record built from the given fields, under a fresh
    /// identifier, and returns that identifier.
    pub fn add_recipe(
        &mut self,
        name: String,
        ingredients: Vec<String>,
        instructions: Vec<String>,
        servings: u32,
    ) -> (id: u32)
        requires
            old(self).wf(),
            old(self).next_id() < u32::MAX,
        ensures
            final(self).wf(),
            id == old(self).next_id(),
            final(self).next_id() == id + 1,
            final(self).views() == old(self).views().push((RecipeView {
                id,
                name: name@,
                ingredients: ingredients.deep_view(),
                instructions: instructions.deep_view(),
                servings,
            })),
    {
        let id = self.next_id;
        let recipe = Recipe::new(id, name, ingredients, instructions, servings);
        let ghost r = recipe@;
        self.recipes.push(recipe);
        self.next_id = self.next_id + 1;
        proof {
            assert(self.views() =~= old(self).views().push(r));
        }
        id
    }

    /// The identifier the next added record will receive.
    pub fn peek_next_id(&self) -> (n: u32)
        ensures
            n == self.next_id(),
    {
        self.next_id
    }

    /// All records in storage order, as a read-only view.
    pub fn get_all_recipes(&self) -> (r: &Vec<Recipe>)
        ensures
            r.deep_view() == self.views(),
    {
        &self.recipes
    }

    /// The index of the first record carrying `id`, if any.
    fn index_of(&self, id: u32) -> (r: Option<usize>)
        ensures
            match r {
                Some(i) => {
                    &&& i < self.views().len()
                    &&& self.views()[i as int].id == id
                    &&& forall|k: int| 0 <= k < i ==> self.views()[k].id != id
                },
                None => forall|k: int| 0 <= k < self.views().len() ==> self.views()[k].id != id,
            },
    {
        let n = self.recipes.len();
        let mut i: usize = 0;
        while i < n
            invariant
                n == self.views().len(),
                i <= n,
                forall|k: int| 0 <= k < i ==> self.views()[k].id != id,
            decreases n - i,
        {
            if self.recipes[i].id == id {
                return Some(i);
            }
            i = i + 1;
        }
        None
    }

    /// The record carrying `id`, or `None` when no record does; absence is
    /// the normal "not found" signal, not an error.
    pub fn get_recipe(&self, id: u32) -> (r: Option<&Recipe>)
        ensures
            match r {
                Some(rec) => {
                    &&& rec@.id == id
                    &&& exists|k: int|
                        0 <= k < self.views().len() && self.views()[k] == rec@
                },
                None => forall|k: int| 0 <= k < self.views().len() ==> self.views()[k].id != id,
            },
    {
        match self.index_of(id) {
            Some(i) => Some(&self.recipes[i]),
            None => None,
        }
    }

    /// Replaces the four mutable fields of the record carrying `id` and
    /// reports success; when no record carries `id`, leaves the collection
    /// unchanged and reports failure. The identifier itself never changes.
    pub fn update_recipe(
        &mut self,
        id: u32,
        name: String,
        ingredients: Vec<String>,
        instructions: Vec<String>,
        servings: u32,
    ) -> (ok: bool)
        requires
            old(self).wf(),
        ensures
            final(self).wf(),
            final(self).next_id() == old(self).next_id(),
            ok == (exists|k: int|
                0 <= k < old(self).views().len() && old(self).views()[k].id == id),
            final(self).views().len() == old(self).views().len(),
            forall|k: int|
                0 <= k < old(self).views().len() && old(self).views()[k].id != id
                    ==> final(self).views()[k] == old(self).views()[k],
            forall|k: int|
                0 <= k < old(self).views().len() && old(self).views()[k].id == id
                    ==> final(self).views()[k] == (RecipeView {
                        id,
                        name: name@,
                        ingredients: ingredients.deep_view(),
                        instructions: instructions.deep_view(),
                        servings,
                    }),
            !ok ==> final(self).views() == old(self).views(),
    {
        match self.index_of(id) {
            Some(i) => {
                self.recipes[i] = Recipe::new(id, name, ingredients, instructions, servings);
                proof {
                    assert(forall|k: int|
                        0 <= k < old(self).views().len() && k != i
                            ==> self.views()[k] == old(self).views()[k]);
                }
                true
            },
            None => {
                proof {
                    assert(self.views() =~= old(self).views());
                }
                false
            },
        }
    }

    /// Removes the record carrying `id`, keeping the relative order of the
    /// remaining records, and reports whether a record was removed.
    pub fn delete_recipe(&mut self, id: u32) -> (ok: bool)
        requires
            old(self).wf(),
        ensures
            final(self).wf(),
            final(self).next_id() == old(self).next_id(),
            ok == (exists|k: int|
                0 <= k < old(self).views().len() && old(self).views()[k].id == id),
            ok ==> exists|k: int|
                0 <= k < old(self).views().len() && old(self).views()[k].id == id
                    && final(self).views() == old(self).views().remove(k),
            ok ==> final(self).views().len() == old(self).views().len() - 1,
            forall|k: int|
                0 <= k < final(self).views().len() ==> final(self).views()[k].id != id,
            !ok ==> final(self).views() == old(self).views(),
    {
        match self.index_of(id) {
            Some(i) => {
                self.recipes.remove(i);
                proof {
                    assert(self.views() =~= old(self).views().remove(i as int));
                    assert(forall|k: int|
                        0 <= k < self.views().len() ==> self.views()[k].id != id) by {
                        assert(forall|k: int| 0 <= k < i ==> self.views()[k] == old(self).views()[k]);
                        assert(forall|k: int|
                            i <= k < self.views().len()
                                ==> self.views()[k] == old(self).views()[k + 1]);
                    }
                }
                true
            },
            None => {
                proof {
                    assert(self.views() =~= old(self).views());
                }
                false
            },
        }
    }
}

impl RecipeManager {
    /// The whole collection in its textual persisted form. Writing this text
    /// to a file and loading it back restores the collection exactly (see
    /// `lemma_save_load_round_trip`).
    pub fn to_json(&self) -> (out: String)
        ensures
            out@ == json_of(self.views()),
    {
        recipes_to_json(&self.recipes)
    }

    /// Replaces the whole collection with the records parsed from `s` — a
    /// full overwrite, never a merge — and recomputes the next identifier as
    /// one past the largest identifier loaded (1 when the collection is
    /// empty). When `s` does not parse, or its records would break the store
    /// invariant (a duplicate identifier, or one so large that no further
    /// identifier could be assigned), reports a format error and leaves the
    /// store untouched.
    pub fn load_from_json(&mut self, s: &str) -> (r: Result<(), PersistError>)
        requires
            old(self).wf(),
        ensures
            final(self).wf(),
            match spec_parse(s@) {
                Some(rs) => {
                    if ids_distinct(rs) && max_id(rs) < u32::MAX {
                        &&& r == Ok::<(), PersistError>(())
                        &&& final(self).views() == rs
                        &&& final(self).next_id() == max_id(rs) + 1
                    } else {
                        &&& r == Err::<(), PersistError>(PersistError::Format)
                        &&& final(self).views() == old(self).views()
                        &&& final(self).next_id() == old(self).next_id()
                    }
                },
                None => {
                    &&& r == Err::<(), PersistError>(PersistError::Format)
                    &&& final(self).views() == old(self).views()
                    &&& final(self).next_id() == old(self).next_id()
                },
            },
    {
        match parse_recipes(s) {
            None => Err(PersistError::Format),
            Some(loaded) => {
                if !all_ids_distinct(&loaded) {
                    return Err(PersistError::Format);
                }
                let m = max_recipe_id(&loaded);
                if m == u32::MAX {
                    return Err(PersistError::Format);
                }
                proof {
                    lemma_max_id_bound(loaded.deep_view());
                }
                self.recipes = loaded;
                self.next_id = m + 1;
                Ok(())
            },
        }
    }
}

/// Whether the identifiers of the given records are pairwise distinct.
fn all_ids_distinct(v: &Vec<Recipe>) -> (b: bool)
    ensures
        b == ids_distinct(v.deep_view()),
{
    let n = v.len();
    let mut i: usize = 0;
    while i < n
        invariant
            i <= n,
            n == v.deep_view().len(),
            forall|p: int, q: int| 0 <= p < q < n && p < i ==> v.deep_view()[p].id != v.deep_view()[q].id,
        decreases n - i,
    {
        let mut j: usize = i + 1;
        while j < n
            invariant
                i < j <= n,
                i < n,
                n == v.deep_view().len(),
                forall|q: int| i < q < j ==> v.deep_view()[i as int].id != v.deep_view()[q].id,
            decreases n - j,
        {
            if v[i].id == v[j].id {
                proof {
                    assert(v.deep_view()[i as int].id == v@[i as int]@.id);
                    assert(v.deep_view()[j as int].id == v@[j as int]@.id);
                    assert(!ids_distinct(v.deep_view()));
                }
                return false;
            }
            j = j + 1;
        }
        i = i + 1;
    }
    true
}

/// The largest identifier among the given records, or 0 when there are none.
fn max_recipe_id(v: &Vec<Recipe>) -> (m: u32)
    ensures
        m == max_id(v.deep_view()),
{
    let n = v.len();
    let mut m: u32 = 0;
    let mut i: usize = n;
    proof {
        assert(v.deep_view().skip(n as int) =~= Seq::<RecipeView>::empty());
    }
    while i > 0
        invariant
            i <= n,
            n == v.deep_view().len(),
            m == max_id(v.deep_view().skip(i as int)),
        decreases i,
    {
        i = i - 1;
        let id = v[i].id;
        proof {
            assert(v.deep_view().skip(i as int)[0] == v.deep_view()[i as int]);
            assert(v.deep_view().skip(i as int).skip(1) =~= v.deep_view().skip(i + 1));
        }
        if id > m {
            m = id;
        }
    }
    proof {
        assert(v.deep_view().skip(0) =~= v.deep_view());
    }
    m
}

/// Every identifier in the sequence is at most `max_id` of the sequence.
pub proof fn lemma_max_id_bound(s: Seq<RecipeView>)
    ensures
        forall|k: int| 0 <= k < s.len() ==> s[k].id <= max_id(s),
    decreases s.len(),
{
    if s.len() > 0 {
        lemma_max_id_bound(s.skip(1));
        assert(forall|k: int| 1 <= k < s.len() ==> s[k] == s.skip(1)[k - 1]);
    }
}

/// Identifiers of a well-formed store lie strictly below the next identifier
/// to be assigned, so every future `add_recipe` returns an identifier larger
/// than, and hence distinct from, every identifier already present: over any
/// sequence of additions the returned identifiers are strictly increasing.
pub proof fn lemma_ids_below_next(m: &RecipeManager)
    requires
        m.wf(),
    ensures
        forall|k: int| 0 <= k < m.views().len() ==> m.views()[k].id < m.next_id(),
{
}

/// The largest identifier of a nonempty sequence is carried by one of its
/// records; for an empty sequence it is 0.
pub proof fn lemma_max_id_is_an_id(s: Seq<RecipeView>)
    ensures
        s.len() == 0 ==> max_id(s) == 0,
        s.len() > 0 ==> exists|k: int| 0 <= k < s.len() && s[k].id == max_id(s),
    decreases s.len(),
{
    if s.len() > 0 {
        let rest = s.skip(1);
        lemma_max_id_is_an_id(rest);
        if s[0].id >= max_id(rest) {
            assert(s[0].id == max_id(s));
        } else {
            let k = choose|k: int| 0 <= k < rest.len() && rest[k].id == max_id(rest);
            assert(s[k + 1] == rest[k]);
        }
    }
}

/// The round-trip law of persistence at the store level: serializing a
/// well-formed store and parsing the text back yields exactly the stored
/// records, and those records pass every check that loading performs, so a
/// load of the saved text always succeeds and restores the collection with
/// the next identifier recomputed as one past the largest loaded one.
pub proof fn lemma_save_load_round_trip(m: &RecipeManager)
    requires
        m.wf(),
    ensures
        spec_parse(json_of(m.views())) == Some(m.views()),
        ids_distinct(m.views()),
        max_id(m.views()) < u32::MAX,
{
    lemma_round_trip(m.views());
    lemma_max_id_is_an_id(m.views());
    if m.views().len() > 0 {
        let k = choose|k: int| 0 <= k < m.views().len() && m.views()[k].id == max_id(m.views());
        assert(m.views()[k].id < m.next_id());
    }
}

/// A record just appended under a fresh identifier is the only record carrying
/// that identifier: a lookup of that identifier finds exactly the fields that
/// were appended.
pub proof fn lemma_get_after_add(s: Seq<RecipeView>, r: RecipeView, v: RecipeView)
    requires
        forall|k: int| 0 <= k < s.len() ==> s[k].id != r.id,
        exists|k: int| 0 <= k < s.push(r).len() && s.push(r)[k] == v,
        v.id == r.id,
    ensures
        v == r,
{
    let k = choose|k: int| 0 <= k < s.push(r).len() && s.push(r)[k] == v;
    if k < s.len() {
        assert(s[k] == v);
    }
}

} // verus!
