use bevy::ecs::entity::Entity;
use vstd::prelude::*;

verus! {

/// Simple crafting recipe that requires a set of items to be present.
///
/// It consumes the items required and nothing else.
pub struct SimpleCraft {
    /// Unique id of the craft.
    pub id: String,
    /// Items required to craft: the item id and the count, each id once.
    pub items: Vec<(String, usize)>,
}

/// No two entries of the recipe name the same item id.
pub open spec fn recipe_wf(recipe: Seq<(String, usize)>) -> bool {
    forall|i: int, j: int|
        0 <= i < j < recipe.len() ==> (#[trigger] recipe[i]).0@ != (#[trigger] recipe[j]).0@
}

/// The count the recipe requires of the item id `id`; zero for an id it does not name.
pub open spec fn required_of(recipe: Seq<(String, usize)>, id: Seq<char>) -> int
    decreases recipe.len(),
{
    if recipe.len() == 0 {
        0
    } else if recipe.last().0@ == id {
        recipe.last().1 as int
    } else {
        required_of(recipe.drop_last(), id)
    }
}

/// How many of `items` have the id `id`.
pub open spec fn count_of(items: Seq<(Entity, String)>, id: Seq<char>) -> nat
    decreases items.len(),
{
    if items.len() == 0 {
        0
    } else {
        count_of(items.drop_last(), id) + if items.last().1@ == id {
            1nat
        } else {
            0nat
        }
    }
}

/// The items a craft consumes, in input order: of each id, the first items up to the count
/// the recipe requires of it.
pub open spec fn consumed_items(recipe: Seq<(String, usize)>, items: Seq<(Entity, String)>) -> Seq<
    Entity,
>
    decreases items.len(),
{
    if items.len() == 0 {
        Seq::empty()
    } else if count_of(items.drop_last(), items.last().1@) < required_of(recipe, items.last().1@) {
        consumed_items(recipe, items.drop_last()).push(items.last().0)
    } else {
        consumed_items(recipe, items.drop_last())
    }
}

/// Every id the recipe names is present, at least once and at least as often as required.
pub open spec fn recipe_met(recipe: Seq<(String, usize)>, items: Seq<(Entity, String)>) -> bool {
    forall|j: int|
        0 <= j < recipe.len() ==> count_of(items, (#[trigger] recipe[j]).0@) >= 1 && count_of(
            items,
            recipe[j].0@,
        ) >= recipe[j].1
}

/// Of each id the recipe names, the consumed items are exactly as many as it requires, once
/// the recipe is met; items of other ids are never consumed.
pub proof fn lemma_consumed_counts(recipe: Seq<(String, usize)>, items: Seq<(Entity, String)>, id: Seq<char>)
    ensures
        consumed_count(recipe, items, id) == min_int(count_of(items, id) as int, required_of(recipe, id)),
    decreases items.len(),
{
    lemma_required_nonnegative(recipe, id);
    if items.len() > 0 {
        lemma_consumed_counts(recipe, items.drop_last(), id);
        lemma_required_nonnegative(recipe, items.last().1@);
    }
}

/// A required count is never negative.
proof fn lemma_required_nonnegative(recipe: Seq<(String, usize)>, id: Seq<char>)
    ensures
        required_of(recipe, id) >= 0,
    decreases recipe.len(),
{
    if recipe.len() > 0 {
        lemma_required_nonnegative(recipe.drop_last(), id);
    }
}

/// `a` or `b`, whichever is smaller.
pub open spec fn min_int(a: int, b: int) -> int {
    if a <= b {
        a
    } else {
        b
    }
}

/// How many of the consumed items have the id `id`.
pub open spec fn consumed_count(recipe: Seq<(String, usize)>, items: Seq<(Entity, String)>, id: Seq<char>) -> int
    decreases items.len(),
{
    if items.len() == 0 {
        0
    } else {
        let rest = items.drop_last();
        let last = items.last().1@;
        consumed_count(recipe, rest, id) + if last == id && count_of(rest, last) < required_of(
            recipe,
            last,
        ) {
            1int
        } else {
            0int
        }
    }
}

/// The required count of an id the recipe names is that entry's count.
pub proof fn lemma_required_of_entry(recipe: Seq<(String, usize)>, j: int)
    requires
        recipe_wf(recipe),
        0 <= j < recipe.len(),
    ensures
        required_of(recipe, recipe[j].0@) == recipe[j].1,
    decreases recipe.len(),
{
    if j < recipe.len() - 1 {
        assert(recipe.last() == recipe[recipe.len() - 1]);
        assert(recipe.drop_last()[j] == recipe[j]);
        assert(recipe_wf(recipe.drop_last())) by {
            assert forall|a: int, b: int| 0 <= a < b < recipe.drop_last().len() implies (
            #[trigger] recipe.drop_last()[a]).0@ != (#[trigger] recipe.drop_last()[b]).0@ by {
                assert(recipe.drop_last()[a] == recipe[a]);
                assert(recipe.drop_last()[b] == recipe[b]);
            }
        }
        lemma_required_of_entry(recipe.drop_last(), j);
    }
}

impl SimpleCraft {
    /// The count the recipe requires of the item id `id`.
    fn required_count(&self, id: &String) -> (r: usize)
        ensures
            r == required_of(self.items@, id@),
    {
        let mut req: usize = 0;
        let mut j: usize = 0;
        while j < self.items.len()
            invariant
                j <= self.items@.len(),
                req == required_of(self.items@.take(j as int), id@),
            decreases self.items@.len() - j,
        {
            proof {
                assert(self.items@.take(j + 1).drop_last() =~= self.items@.take(j as int));
            }
            if self.items[j].0 == *id {
                req = self.items[j].1;
            }
            j += 1;
        }
        proof {
            assert(self.items@.take(self.items@.len() as int) =~= self.items@);
        }
        req
    }

    /// Checks the items at hand against the recipe.
    ///
    /// Returns the items to consume, in order, when every id the recipe names is present at
    /// least once and at least as often as required: of each id, the first items up to the
    /// required count. Returns `None` otherwise.
    pub fn check_internal(&self, items: &[(Entity, String)]) -> (r: Option<Vec<Entity>>)
        requires
            recipe_wf(self.items@),
        ensures
            match r {
                Some(v) => recipe_met(self.items@, items@) && v@ == consumed_items(self.items@, items@),
                None => !recipe_met(self.items@, items@),
            },
    {
        let mut result: Vec<Entity> = Vec::new();
        let mut i: usize = 0;
        while i < items.len()
            invariant
                i <= items@.len(),
                result@ == consumed_items(self.items@, items@.take(i as int)),
            decreases items@.len() - i,
        {
            proof {
                assert(items@.take(i + 1).drop_last() =~= items@.take(i as int));
            }
            let required = self.required_count(&items[i].1);
            let before = Self::count_items(items, i, &items[i].1);
            if before < required {
                result.push(items[i].0);
            }
            i += 1;
        }
        proof {
            assert(items@.take(items@.len() as int) =~= items@);
        }
        let mut j: usize = 0;
        while j < self.items.len()
            invariant
                j <= self.items@.len(),
                forall|k: int|
                    0 <= k < j ==> count_of(items@, (#[trigger] self.items@[k]).0@) >= 1 && count_of(
                        items@,
                        self.items@[k].0@,
                    ) >= self.items@[k].1,
            decreases self.items@.len() - j,
        {
            let presented = Self::count_items(items, items.len(), &self.items[j].0);
            proof {
                assert(items@.take(items@.len() as int) =~= items@);
            }
            if presented == 0 || presented < self.items[j].1 {
                return None;
            }
            j += 1;
        }
        Some(result)
    }

    /// How many of the first `n` items have the id `id`.
    fn count_items(items: &[(Entity, String)], n: usize, id: &String) -> (r: usize)
        requires
            n <= items@.len(),
        ensures
            r == count_of(items@.take(n as int), id@),
    {
        let mut count: usize = 0;
        let mut i: usize = 0;
        while i < n
            invariant
                n <= items@.len(),
                i <= n,
                count == count_of(items@.take(i as int), id@),
                count <= i,
            decreases n - i,
        {
            proof {
                assert(items@.take(i + 1).drop_last() =~= items@.take(i as int));
            }
            if items[i].1 == *id {
                count += 1;
            }
            i += 1;
        }
        count
    }
}

} // verus!
