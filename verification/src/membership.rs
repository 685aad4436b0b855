//! How stored entities are put together from their rows: the rows (labels
//! of polygons and tilings, points of polygons) that belong to each entity,
//! and the lookup of each such row's label or point by id.

use vstd::prelude::*;
use crate::atlas_store::{index_map, is_not_found, lookup, last_index_of, lemma_last_index_of_bounds, NOT_FOUND_MSG};
use crate::error::Error;
use crate::strings::string_from;

verus! {

/// The indices of the items of `idx` equal to `i`, in order.
pub open spec fn indices_with(idx: Seq<usize>, i: usize) -> Seq<usize>
    decreases idx.len(),
{
    if idx.len() == 0 {
        Seq::empty()
    } else {
        let prev = indices_with(idx.drop_last(), i);
        if idx.last() == i {
            prev.push((idx.len() - 1) as usize)
        } else {
            prev
        }
    }
}

pub proof fn lemma_indices_with_bounds(idx: Seq<usize>, i: usize)
    ensures
        forall|t: int| 0 <= t < indices_with(idx, i).len() ==> #[trigger] indices_with(idx, i)[t] < idx.len(),
    decreases idx.len(),
{
    if idx.len() > 0 {
        lemma_indices_with_bounds(idx.drop_last(), i);
        let prev = indices_with(idx.drop_last(), i);
        assert forall|t: int| 0 <= t < indices_with(idx, i).len() implies #[trigger] indices_with(idx, i)[t] < idx.len() by {
            if t < prev.len() {
                assert(indices_with(idx, i)[t] == prev[t]);
            }
        }
    }
}

/// Where each child row goes: the index of its parent, the last parent with
/// that id (what a map from id to index, collected in order, keeps).
pub open spec fn parent_indices(parent_ids: Seq<i32>, child_parent_ids: Seq<i32>) -> Seq<usize> {
    child_parent_ids.map_values(|p: i32| last_index_of(parent_ids, p).unwrap() as usize)
}

/// Whether every child row belongs to one of the parents.
pub open spec fn all_children_placed(parent_ids: Seq<i32>, child_parent_ids: Seq<i32>) -> bool {
    forall|c: int| 0 <= c < child_parent_ids.len() ==> parent_ids.contains(#[trigger] child_parent_ids[c])
}

/// Groups child rows by parent, as diesel's `grouped_by` does: one list per
/// parent, in the parents' order, holding the indices of the child rows whose
/// parent id maps to it, in the children's order. A child whose parent is
/// not among `parent_ids` has nowhere to go (`grouped_by` panics there).
pub fn grouped_by(parent_ids: &Vec<i32>, child_parent_ids: &Vec<i32>) -> (groups: Vec<Vec<usize>>)
    requires
        all_children_placed(parent_ids@, child_parent_ids@),
    ensures
        groups@.len() == parent_ids@.len(),
        forall|i: int| 0 <= i < groups@.len() ==>
            (#[trigger] groups@[i])@ == indices_with(parent_indices(parent_ids@, child_parent_ids@), i as usize),
{
    let ghost target = parent_indices(parent_ids@, child_parent_ids@);
    let index_by_id = index_map(parent_ids);
    let mut idx: Vec<usize> = Vec::new();
    let mut c: usize = 0;
    while c < child_parent_ids.len()
        invariant
            c <= child_parent_ids.len(),
            forall|k: i32| #[trigger] index_by_id@.contains_key(k) == last_index_of(parent_ids@, k) is Some,
            forall|k: i32| index_by_id@.contains_key(k) ==> last_index_of(parent_ids@, k) == Some(#[trigger] index_by_id@[k] as int),
            all_children_placed(parent_ids@, child_parent_ids@),
            target == parent_indices(parent_ids@, child_parent_ids@),
            idx@ == target.take(c as int),
        decreases child_parent_ids.len() - c,
    {
        let p = child_parent_ids[c];
        proof {
            assert(parent_ids@.contains(child_parent_ids@[c as int]));
            let j = choose|j: int| 0 <= j < parent_ids@.len() && parent_ids@[j] == p;
            lemma_last_index_of_bounds(parent_ids@, p);
        }
        let i = match lookup(&index_by_id, p) {
            Some(i) => i,
            None => 0,
        };
        idx.push(i);
        c = c + 1;
        assert(idx@ =~= target.take(c as int));
    }
    assert(target.take(c as int) =~= target);
    let mut groups: Vec<Vec<usize>> = Vec::new();
    let mut i: usize = 0;
    while i < parent_ids.len()
        invariant
            i <= parent_ids.len(),
            idx@ == target,
            groups@.len() == i,
            forall|t: int| 0 <= t < i ==> (#[trigger] groups@[t])@ == indices_with(target, t as usize),
        decreases parent_ids.len() - i,
    {
        let mut cur: Vec<usize> = Vec::new();
        let mut c: usize = 0;
        assert(idx@.take(0) =~= Seq::<usize>::empty());
        while c < idx.len()
            invariant
                c <= idx.len(),
                cur@ == indices_with(idx@.take(c as int), i),
            decreases idx.len() - c,
        {
            assert(idx@.take(c + 1).drop_last() =~= idx@.take(c as int));
            if idx[c] == i {
                cur.push(c);
            }
            c = c + 1;
        }
        assert(idx@.take(c as int) =~= idx@);
        groups.push(cur);
        i = i + 1;
    }
    groups
}

/// Whether every key is found among the ids of the table.
pub open spec fn all_keys_found(keys: Seq<i32>, table_ids: Seq<i32>) -> bool {
    forall|j: int| 0 <= j < keys.len() ==> (#[trigger] last_index_of(table_ids, keys[j])) is Some
}

/// Finds the row of the table for each key, the last row with that id;
/// fails with "not found" where a key is not among the table's ids.
pub fn find_rows(keys: &Vec<i32>, table_ids: &Vec<i32>) -> (r: Result<Vec<usize>, Error>)
    ensures
        r is Ok <==> all_keys_found(keys@, table_ids@),
        r matches Ok(rows) ==> rows@.len() == keys@.len()
            && forall|j: int| 0 <= j < keys@.len() ==> last_index_of(table_ids@, keys@[j]) == Some(#[trigger] rows@[j] as int),
        r matches Err(e) ==> is_not_found(e),
{
    let index_by_id = index_map(table_ids);
    let mut rows: Vec<usize> = Vec::new();
    let mut j: usize = 0;
    while j < keys.len()
        invariant
            j <= keys.len(),
            forall|k: i32| #[trigger] index_by_id@.contains_key(k) == last_index_of(table_ids@, k) is Some,
            forall|k: i32| index_by_id@.contains_key(k) ==> last_index_of(table_ids@, k) == Some(#[trigger] index_by_id@[k] as int),
            rows@.len() == j,
            forall|t: int| 0 <= t < j ==> last_index_of(table_ids@, keys@[t]) == Some(#[trigger] rows@[t] as int),
        decreases keys.len() - j,
    {
        match lookup(&index_by_id, keys[j]) {
            Some(i) => rows.push(i),
            None => {
                assert(last_index_of(table_ids@, keys@[j as int]) is None);
                return Err(Error::Diesel(string_from(NOT_FOUND_MSG)));
            },
        }
        j = j + 1;
    }
    assert forall|t: int| 0 <= t < keys@.len() implies (#[trigger] last_index_of(table_ids@, keys@[t])) is Some by {
        assert(last_index_of(table_ids@, keys@[t]) == Some(rows@[t] as int));
    }
    Ok(rows)
}

/// The child rows of each parent, as `grouped_by` lists them.
pub open spec fn member_groups(parent_ids: Seq<i32>, child_parent_ids: Seq<i32>) -> Seq<Seq<usize>> {
    Seq::new(parent_ids.len(), |i: int| indices_with(parent_indices(parent_ids, child_parent_ids), i as usize))
}

/// The key of each child row of a group.
pub open spec fn group_keys(group: Seq<usize>, child_keys: Seq<i32>) -> Seq<i32> {
    group.map_values(|c: usize| child_keys[c as int])
}

/// Puts the members of stored entities together: the child rows (the label
/// rows of polygons or tilings, the point rows of polygons) are grouped by
/// parent, and each child's label or point is found among the fetched rows
/// by its key. Fails with "not found"
/// where a key is not among the fetched rows.
pub fn members_by_parent(
    parent_ids: &Vec<i32>,
    child_parent_ids: &Vec<i32>,
    child_keys: &Vec<i32>,
    table_ids: &Vec<i32>,
) -> (r: Result<Vec<Vec<usize>>, Error>)
    requires
        all_children_placed(parent_ids@, child_parent_ids@),
        child_keys@.len() == child_parent_ids@.len(),
    ensures
        ({
            let groups = member_groups(parent_ids@, child_parent_ids@);
            let found = forall|i: int| #![trigger groups[i]] 0 <= i < groups.len() ==> all_keys_found(group_keys(groups[i], child_keys@), table_ids@);
            &&& r is Ok <==> found
            &&& r matches Ok(members) ==> members@.len() == groups.len()
                && (forall|i: int| 0 <= i < groups.len() ==> (#[trigger] members@[i]@).len() == groups[i].len())
                && forall|i: int, j: int| 0 <= i < groups.len() && 0 <= j < groups[i].len() ==>
                    last_index_of(table_ids@, child_keys@[groups[i][j] as int]) == Some(#[trigger] members@[i]@[j] as int)
            &&& r matches Err(e) ==> is_not_found(e)
        }),
{
    let groups = grouped_by(parent_ids, child_parent_ids);
    let ghost spec_groups = member_groups(parent_ids@, child_parent_ids@);
    assert forall|i: int| 0 <= i < groups@.len() implies #[trigger] groups@[i]@ == spec_groups[i] by {}
    assert forall|t: int, c: int| 0 <= t < spec_groups.len() && 0 <= c < spec_groups[t].len() implies #[trigger] spec_groups[t][c] < child_keys@.len() by {
        lemma_indices_with_bounds(parent_indices(parent_ids@, child_parent_ids@), t as usize);
    }
    let mut members: Vec<Vec<usize>> = Vec::new();
    let mut i: usize = 0;
    while i < groups.len()
        invariant
            i <= groups.len(),
            spec_groups == member_groups(parent_ids@, child_parent_ids@),
            groups@.len() == spec_groups.len(),
            forall|t: int| 0 <= t < groups@.len() ==> #[trigger] groups@[t]@ == spec_groups[t],
            forall|t: int, c: int| 0 <= t < spec_groups.len() && 0 <= c < spec_groups[t].len() ==> #[trigger] spec_groups[t][c] < child_keys@.len(),
            members@.len() == i,
            forall|t: int| #![trigger spec_groups[t]] 0 <= t < i ==> all_keys_found(group_keys(spec_groups[t], child_keys@), table_ids@),
            forall|t: int| 0 <= t < i ==> (#[trigger] members@[t]@).len() == spec_groups[t].len(),
            forall|t: int, j: int| 0 <= t < i && 0 <= j < spec_groups[t].len() ==>
                last_index_of(table_ids@, child_keys@[spec_groups[t][j] as int]) == Some(#[trigger] members@[t]@[j] as int),
        decreases groups.len() - i,
    {
        let group = &groups[i];
        let mut keys: Vec<i32> = Vec::new();
        let mut c: usize = 0;
        while c < group.len()
            invariant
                c <= group.len(),
                group@ == spec_groups[i as int],
                forall|t: int| 0 <= t < group@.len() ==> group@[t] < child_keys@.len(),
                keys@ == group_keys(group@, child_keys@).take(c as int),
            decreases group.len() - c,
        {
            keys.push(child_keys[group[c]]);
            c = c + 1;
            assert(keys@ =~= group_keys(group@, child_keys@).take(c as int));
        }
        assert(keys@ =~= group_keys(group@, child_keys@));
        match find_rows(&keys, table_ids) {
            Ok(rows) => members.push(rows),
            Err(e) => {
                assert(!all_keys_found(group_keys(spec_groups[i as int], child_keys@), table_ids@));
                return Err(e);
            },
        }
        i = i + 1;
    }
    Ok(members)
}

/// Pairs the point rows of a polygon with its points; fails with "not found"
/// where their numbers differ.
pub fn check_point_counts(polygon_points: usize, points: usize) -> (r: Result<(), Error>)
    ensures
        r is Ok <==> polygon_points == points,
        r matches Err(e) ==> is_not_found(e),
{
    if polygon_points != points {
        return Err(Error::Diesel(string_from(NOT_FOUND_MSG)));
    }
    Ok(())
}

/// A new row joining a polygon to one of its points, at its place.
#[derive(Debug, Clone, Copy, PartialEq, Eq, Structural)]
pub struct PolygonPointPost {
    pub sequence: i32,
    pub polygon_id: i32,
    pub point_id: i32,
    pub is_locked: bool,
}

/// The rows joining a polygon to its newly stored points, one per point in
/// order, each at its index and unlocked.
pub fn polygon_point_posts(polygon_id: i32, point_ids: &Vec<i32>) -> (posts: Vec<PolygonPointPost>)
    ensures
        posts@.len() == point_ids@.len(),
        forall|i: int| 0 <= i < posts@.len() ==> #[trigger] posts@[i] == (PolygonPointPost {
            sequence: i as i32,
            polygon_id,
            point_id: point_ids@[i],
            is_locked: false,
        }),
{
    let mut posts: Vec<PolygonPointPost> = Vec::new();
    let mut i: usize = 0;
    while i < point_ids.len()
        invariant
            i <= point_ids.len(),
            posts@.len() == i,
            forall|t: int| 0 <= t < i ==> #[trigger] posts@[t] == (PolygonPointPost {
                sequence: t as i32,
                polygon_id,
                point_id: point_ids@[t],
                is_locked: false,
            }),
        decreases point_ids.len() - i,
    {
        posts.push(PolygonPointPost { sequence: i as i32, polygon_id, point_id: point_ids[i], is_locked: false });
        i = i + 1;
    }
    posts
}

} // verus!
