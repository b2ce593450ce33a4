use bevy::ecs::entity::Entity;
use vstd::prelude::*;

verus! {

/// Number of branches a fire takes.
pub const BRANCHES_COUNT: usize = 5;

/// The entities of the items with the id `branch_id`, in order.
pub open spec fn branches_of(items: Seq<(String, Entity)>, branch_id: Seq<char>) -> Seq<Entity>
    decreases items.len(),
{
    if items.len() == 0 {
        Seq::empty()
    } else if items.last().0@ == branch_id {
        branches_of(items.drop_last(), branch_id).push(items.last().1)
    } else {
        branches_of(items.drop_last(), branch_id)
    }
}

/// The branches that lighting a fire consumes: the first `BRANCHES_COUNT` items with the id
/// `branch_id`, or `None` when there are fewer.
pub fn fire_branches(items: &[(String, Entity)], branch_id: &String) -> (r: Option<Vec<Entity>>)
    ensures
        match r {
            Some(v) => branches_of(items@, branch_id@).len() >= 5 && v@ == branches_of(
                items@,
                branch_id@,
            ).take(5),
            None => branches_of(items@, branch_id@).len() < 5,
        },
{
    let mut branches: Vec<Entity> = Vec::new();
    let mut i: usize = 0;
    while i < items.len()
        invariant
            i <= items@.len(),
            branches@ == branches_of(items@.take(i as int), branch_id@),
        decreases items@.len() - i,
    {
        proof {
            assert(items@.take(i + 1).drop_last() =~= items@.take(i as int));
        }
        if items[i].0 == *branch_id {
            branches.push(items[i].1);
        }
        i += 1;
    }
    proof {
        assert(items@.take(items@.len() as int) =~= items@);
    }
    if branches.len() < BRANCHES_COUNT {
        return None;
    }
    let mut consumed: Vec<Entity> = Vec::new();
    let mut j: usize = 0;
    while j < BRANCHES_COUNT
        invariant
            j <= 5,
            branches@.len() >= 5,
            consumed@ == branches@.take(j as int),
        decreases 5 - j,
    {
        consumed.push(branches[j]);
        proof {
            assert(consumed@ =~= branches@.take(j + 1));
        }
        j += 1;
    }
    Some(consumed)
}

} // verus!
