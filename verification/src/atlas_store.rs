//! How an atlas is read back from its stored rows and how a posted atlas is
//! turned into rows: the lookups by id, the ordering of edges by their source
//! vertex, and the index checks that reject a malformed post.

use vstd::prelude::*;
use itertools::Itertools;
use crate::atlas::{FullAtlasEdge, FullAtlasVertex};
use crate::error::Error;
use std::collections::HashMap;

verus! {

/// The message of the database error for a row that is not there.
pub const NOT_FOUND_MSG: &'static str = "Record not found";

/// A stored atlas edge: the polygon point it starts at, the vertices it
/// leaves and reaches, its place among the edges of its vertex and the edge
/// it is glued to.
#[derive(Debug, Clone, Copy, PartialEq, Eq, Structural)]
pub struct AtlasEdge {
    pub id: i32,
    pub atlas_id: i32,
    pub polygon_point_id: i32,
    pub source_id: i32,
    pub sink_id: i32,
    pub parity: bool,
    pub sequence: i32,
    pub neighbor_edge_id: Option<i32>,
}

/// The index of the last occurrence of `k` in `keys`: what a map collected
/// from `(key, index)` pairs in order keeps for `k`.
pub open spec fn last_index_of(keys: Seq<i32>, k: i32) -> Option<int>
    decreases keys.len(),
{
    if keys.len() == 0 {
        None
    } else if keys.last() == k {
        Some(keys.len() - 1)
    } else {
        last_index_of(keys.drop_last(), k)
    }
}

pub proof fn lemma_last_index_of_bounds(keys: Seq<i32>, k: i32)
    ensures
        last_index_of(keys, k) matches Some(i) ==> 0 <= i < keys.len() && keys[i] == k,
        last_index_of(keys, k) is None ==> forall|j: int| 0 <= j < keys.len() ==> keys[j] != k,
    decreases keys.len(),
{
    if keys.len() > 0 && keys.last() != k {
        lemma_last_index_of_bounds(keys.drop_last(), k);
        assert forall|j: int| 0 <= j < keys.len() - 1 implies keys[j] == keys.drop_last()[j] by {}
    }
}

/// The ids of the edges.
pub open spec fn edge_ids(rows: Seq<AtlasEdge>) -> Seq<i32> {
    rows.map_values(|r: AtlasEdge| r.id)
}

/// The polygon point ids of a list of positions.
pub open spec fn position_keys(positions: Seq<(i32, (usize, usize))>) -> Seq<i32> {
    positions.map_values(|p: (i32, (usize, usize))| p.0)
}

/// Collects `(key, index)` pairs in order into a `HashMap`: each key maps
/// to the index of its last occurrence.
pub fn index_map(keys: &Vec<i32>) -> (m: HashMap<i32, usize>)
    ensures
        forall|k: i32| #[trigger] m@.contains_key(k) == last_index_of(keys@, k) is Some,
        forall|k: i32| m@.contains_key(k) ==> last_index_of(keys@, k) == Some(#[trigger] m@[k] as int),
{
    broadcast use vstd::std_specs::hash::group_hash_axioms;
    let mut m: HashMap<i32, usize> = HashMap::new();
    let mut i: usize = 0;
    while i < keys.len()
        invariant
            i <= keys.len(),
            forall|k: i32| #[trigger] m@.contains_key(k) == last_index_of(keys@.take(i as int), k) is Some,
            forall|k: i32| m@.contains_key(k) ==> last_index_of(keys@.take(i as int), k) == Some(#[trigger] m@[k] as int),
        decreases keys.len() - i,
    {
        assert(keys@.take(i + 1).drop_last() =~= keys@.take(i as int));
        assert(keys@.take(i + 1).last() == keys@[i as int]);
        m.insert(keys[i], i);
        i = i + 1;
    }
    assert(keys@.take(i as int) =~= keys@);
    m
}

/// Looks a key up in a map made by `index_map`.
pub fn lookup(m: &HashMap<i32, usize>, k: i32) -> (r: Option<usize>)
    ensures
        r matches Some(i) ==> m@.contains_key(k) && m@[k] == i,
        r is None ==> !m@.contains_key(k),
{
    broadcast use vstd::std_specs::hash::group_hash_axioms;
    match m.get(&k) {
        Some(i) => Some(*i),
        None => None,
    }
}

/// The ids of the stored edges, in order.
fn ids_of_edges(rows: &Vec<AtlasEdge>) -> (ids: Vec<i32>)
    ensures
        ids@ == edge_ids(rows@),
{
    let mut ids: Vec<i32> = Vec::new();
    let mut i: usize = 0;
    while i < rows.len()
        invariant
            i <= rows.len(),
            ids@ == edge_ids(rows@.take(i as int)),
        decreases rows.len() - i,
    {
        ids.push(rows[i].id);
        i = i + 1;
        assert(ids@ =~= edge_ids(rows@.take(i as int)));
    }
    assert(rows@.take(i as int) =~= rows@);
    ids
}

/// The polygon point ids of the positions, in order.
fn keys_of_positions(positions: &Vec<(i32, (usize, usize))>) -> (keys: Vec<i32>)
    ensures
        keys@ == position_keys(positions@),
{
    let mut keys: Vec<i32> = Vec::new();
    let mut i: usize = 0;
    while i < positions.len()
        invariant
            i <= positions.len(),
            keys@ == position_keys(positions@.take(i as int)),
        decreases positions.len() - i,
    {
        keys.push(positions[i].0);
        i = i + 1;
        assert(keys@ =~= position_keys(positions@.take(i as int)));
    }
    assert(positions@.take(i as int) =~= positions@);
    keys
}

/// The edge that a stored row is read back as, with the id of the vertex it
/// leaves: its polygon and point are found by the polygon point's position,
/// its neighbor by the index of its sink among the vertices and its
/// neighboring edge by that edge's place in its vertex. `None` where the row
/// has no neighboring edge or one of the lookups finds nothing.
pub open spec fn spec_full_edge(
    row: AtlasEdge,
    vertex_ids: Seq<i32>,
    rows: Seq<AtlasEdge>,
    positions: Seq<(i32, (usize, usize))>,
) -> Option<(i32, FullAtlasEdge)> {
    match row.neighbor_edge_id {
        None => None,
        Some(neighbor_edge_id) => match (
            last_index_of(position_keys(positions), row.polygon_point_id),
            last_index_of(vertex_ids, row.sink_id),
            last_index_of(edge_ids(rows), neighbor_edge_id),
        ) {
            (Some(p), Some(v), Some(e)) => Some((
                row.source_id,
                FullAtlasEdge {
                    id: row.id,
                    polygon_index: positions[p].1.0,
                    point_index: positions[p].1.1,
                    neighbor_index: ((v as i32) as usize),
                    neighbor_edge_index: (rows[e].sequence as usize),
                    parity: row.parity,
                },
            )),
            _ => None,
        },
    }
}

/// Whether `read` is what stored row `row` says, read back: the edge leaves
/// the row's source vertex and keeps the row's id and mirroring; its
/// neighbor is the vertex stored under the row's sink id (where the vertex
/// index fits an `i32`); its neighboring edge is a stored edge with the row's
/// neighbor edge id, given by its sequence; its polygon and point are those
/// of a position stored under the row's polygon point id.
pub open spec fn edge_reads_row(
    read: (i32, FullAtlasEdge),
    row: AtlasEdge,
    vertex_ids: Seq<i32>,
    rows: Seq<AtlasEdge>,
    positions: Seq<(i32, (usize, usize))>,
) -> bool {
    &&& read.0 == row.source_id
    &&& read.1.id == row.id
    &&& read.1.parity == row.parity
    &&& vertex_ids.len() <= i32::MAX ==> read.1.neighbor_index < vertex_ids.len()
        && vertex_ids[read.1.neighbor_index as int] == row.sink_id
    &&& row.neighbor_edge_id is Some
    &&& exists|e: int|
        0 <= e < rows.len() && #[trigger] rows[e].id == row.neighbor_edge_id.unwrap()
            && read.1.neighbor_edge_index == rows[e].sequence as usize
    &&& exists|q: int|
        0 <= q < positions.len() && #[trigger] positions[q].0 == row.polygon_point_id
            && read.1.polygon_index == positions[q].1.0 && read.1.point_index == positions[q].1.1
}

/// A row that is read back is read as what it says (`edge_reads_row`).
pub proof fn lemma_full_edge_reads_row(
    row: AtlasEdge,
    vertex_ids: Seq<i32>,
    rows: Seq<AtlasEdge>,
    positions: Seq<(i32, (usize, usize))>,
)
    ensures
        spec_full_edge(row, vertex_ids, rows, positions) matches Some(read) ==> edge_reads_row(
            read,
            row,
            vertex_ids,
            rows,
            positions,
        ),
{
    if let Some(read) = spec_full_edge(row, vertex_ids, rows, positions) {
        let nid = row.neighbor_edge_id.unwrap();
        lemma_last_index_of_bounds(position_keys(positions), row.polygon_point_id);
        lemma_last_index_of_bounds(vertex_ids, row.sink_id);
        lemma_last_index_of_bounds(edge_ids(rows), nid);
        let q = last_index_of(position_keys(positions), row.polygon_point_id).unwrap();
        let v = last_index_of(vertex_ids, row.sink_id).unwrap();
        let e = last_index_of(edge_ids(rows), nid).unwrap();
        assert(positions[q].0 == row.polygon_point_id);
        assert(rows[e].id == nid);
        if vertex_ids.len() <= i32::MAX {
            assert((v as i32) as int == v);
            assert(((v as i32) as usize) as int == v);
        }
    }
}

/// Whether everything stored row `row` refers to is there: it has a
/// neighboring edge, and its polygon point, its sink vertex and that edge
/// are among the stored positions, vertices and edges.
pub open spec fn row_refs_found(
    row: AtlasEdge,
    vertex_ids: Seq<i32>,
    rows: Seq<AtlasEdge>,
    positions: Seq<(i32, (usize, usize))>,
) -> bool {
    &&& row.neighbor_edge_id is Some
    &&& exists|q: int| 0 <= q < positions.len() && #[trigger] positions[q].0 == row.polygon_point_id
    &&& exists|v: int| 0 <= v < vertex_ids.len() && #[trigger] vertex_ids[v] == row.sink_id
    &&& exists|e: int| 0 <= e < rows.len() && #[trigger] rows[e].id == row.neighbor_edge_id.unwrap()
}

/// A row is read back exactly when everything it refers to is there.
pub proof fn lemma_full_edge_found_iff(
    row: AtlasEdge,
    vertex_ids: Seq<i32>,
    rows: Seq<AtlasEdge>,
    positions: Seq<(i32, (usize, usize))>,
)
    ensures
        spec_full_edge(row, vertex_ids, rows, positions) is Some <==> row_refs_found(row, vertex_ids, rows, positions),
{
    lemma_last_index_of_bounds(position_keys(positions), row.polygon_point_id);
    lemma_last_index_of_bounds(vertex_ids, row.sink_id);
    if let Some(nid) = row.neighbor_edge_id {
        lemma_last_index_of_bounds(edge_ids(rows), nid);
        if row_refs_found(row, vertex_ids, rows, positions) {
            let q = choose|q: int| 0 <= q < positions.len() && #[trigger] positions[q].0 == row.polygon_point_id;
            let v = choose|v: int| 0 <= v < vertex_ids.len() && #[trigger] vertex_ids[v] == row.sink_id;
            let e = choose|e: int| 0 <= e < rows.len() && #[trigger] rows[e].id == nid;
            assert(position_keys(positions)[q] == row.polygon_point_id);
            assert(edge_ids(rows)[e] == nid);
        }
        if spec_full_edge(row, vertex_ids, rows, positions) is Some {
            let q = last_index_of(position_keys(positions), row.polygon_point_id).unwrap();
            let e = last_index_of(edge_ids(rows), nid).unwrap();
            assert(positions[q].0 == row.polygon_point_id);
            assert(rows[e].id == nid);
        }
    }
}

/// Whether every row is read back.
pub open spec fn all_edges_found(
    vertex_ids: Seq<i32>,
    rows: Seq<AtlasEdge>,
    positions: Seq<(i32, (usize, usize))>,
) -> bool {
    forall|i: int| 0 <= i < rows.len() ==> (#[trigger] spec_full_edge(rows[i], vertex_ids, rows, positions)) is Some
}

/// The rows read back, in their order.
pub open spec fn spec_full_edges(
    vertex_ids: Seq<i32>,
    rows: Seq<AtlasEdge>,
    positions: Seq<(i32, (usize, usize))>,
) -> Seq<(i32, FullAtlasEdge)> {
    rows.map_values(|row: AtlasEdge| spec_full_edge(row, vertex_ids, rows, positions).unwrap())
}

/// The error of a row that is not there.
pub open spec fn is_not_found(e: Error) -> bool {
    e matches Error::Diesel(m) && m@ == NOT_FOUND_MSG@
}

fn not_found() -> (e: Error)
    ensures
        is_not_found(e),
{
    Error::Diesel(crate::strings::string_from(NOT_FOUND_MSG))
}

/// Reads back each stored edge with the id of the vertex it leaves; fails
/// with "not found" where a row has no neighboring edge or refers to a
/// polygon point, vertex or edge that is not there.
pub fn full_atlas_edges(
    vertex_ids: &Vec<i32>,
    rows: &Vec<AtlasEdge>,
    positions: &Vec<(i32, (usize, usize))>,
) -> (r: Result<Vec<(i32, FullAtlasEdge)>, Error>)
    ensures
        r is Ok <==> all_edges_found(vertex_ids@, rows@, positions@),
        r matches Ok(v) ==> v@ == spec_full_edges(vertex_ids@, rows@, positions@),
        r matches Err(e) ==> is_not_found(e),
        r is Ok <==> forall|i: int| 0 <= i < rows@.len() ==> row_refs_found(#[trigger] rows@[i], vertex_ids@, rows@, positions@),
        r matches Ok(v) ==> v@.len() == rows@.len() && forall|i: int|
            0 <= i < rows@.len() ==> edge_reads_row(#[trigger] v@[i], rows@[i], vertex_ids@, rows@, positions@),
{
    proof {
        assert forall|i: int| 0 <= i < rows@.len() implies (spec_full_edge(rows@[i], vertex_ids@, rows@, positions@) is Some
            <==> row_refs_found(#[trigger] rows@[i], vertex_ids@, rows@, positions@)) by {
            lemma_full_edge_found_iff(rows@[i], vertex_ids@, rows@, positions@);
        }
    }
    let vertex_index_by_id = index_map(vertex_ids);
    let edge_index_by_id = index_map(&ids_of_edges(rows));
    let position_by_id = index_map(&keys_of_positions(positions));
    let mut out: Vec<(i32, FullAtlasEdge)> = Vec::new();
    let mut i: usize = 0;
    while i < rows.len()
        invariant
            i <= rows.len(),
            out@.len() == i,
            forall|k: i32| #[trigger] vertex_index_by_id@.contains_key(k) == last_index_of(vertex_ids@, k) is Some,
            forall|k: i32| vertex_index_by_id@.contains_key(k)
                ==> last_index_of(vertex_ids@, k) == Some(#[trigger] vertex_index_by_id@[k] as int),
            forall|k: i32| #[trigger] edge_index_by_id@.contains_key(k) == last_index_of(edge_ids(rows@), k) is Some,
            forall|k: i32| edge_index_by_id@.contains_key(k)
                ==> last_index_of(edge_ids(rows@), k) == Some(#[trigger] edge_index_by_id@[k] as int),
            forall|k: i32| #[trigger] position_by_id@.contains_key(k) == last_index_of(position_keys(positions@), k) is Some,
            forall|k: i32| position_by_id@.contains_key(k)
                ==> last_index_of(position_keys(positions@), k) == Some(#[trigger] position_by_id@[k] as int),
            forall|j: int| 0 <= j < rows@.len() ==> (spec_full_edge(rows@[j], vertex_ids@, rows@, positions@) is Some
                <==> row_refs_found(#[trigger] rows@[j], vertex_ids@, rows@, positions@)),
            forall|j: int| 0 <= j < i ==> (#[trigger] spec_full_edge(rows@[j], vertex_ids@, rows@, positions@)) is Some,
            forall|j: int| 0 <= j < i ==> out@[j] == (#[trigger] spec_full_edge(rows@[j], vertex_ids@, rows@, positions@)).unwrap(),
        decreases rows.len() - i,
    {
        let row = rows[i];
        proof {
            lemma_last_index_of_bounds(position_keys(positions@), row.polygon_point_id);
            lemma_last_index_of_bounds(vertex_ids@, row.sink_id);
        }
        let neighbor_edge_id = match row.neighbor_edge_id {
            Some(id) => id,
            None => {
                assert(spec_full_edge(rows@[i as int], vertex_ids@, rows@, positions@) is None);
                return Err(not_found());
            },
        };
        proof {
            lemma_last_index_of_bounds(edge_ids(rows@), neighbor_edge_id);
        }
        let p = match lookup(&position_by_id, row.polygon_point_id) {
            Some(p) => p,
            None => {
                assert(spec_full_edge(rows@[i as int], vertex_ids@, rows@, positions@) is None);
                return Err(not_found());
            },
        };
        let v = match lookup(&vertex_index_by_id, row.sink_id) {
            Some(v) => v,
            None => {
                assert(spec_full_edge(rows@[i as int], vertex_ids@, rows@, positions@) is None);
                return Err(not_found());
            },
        };
        let e = match lookup(&edge_index_by_id, neighbor_edge_id) {
            Some(e) => e,
            None => {
                assert(spec_full_edge(rows@[i as int], vertex_ids@, rows@, positions@) is None);
                return Err(not_found());
            },
        };
        let (polygon_index, point_index) = positions[p].1;
        let vertex_index: i32 = v as i32;
        let edge = FullAtlasEdge {
            id: row.id,
            polygon_index,
            point_index,
            neighbor_index: vertex_index as usize,
            neighbor_edge_index: rows[e].sequence as usize,
            parity: row.parity,
        };
        out.push((row.source_id, edge));
        i = i + 1;
    }
    assert(out@ =~= spec_full_edges(vertex_ids@, rows@, positions@));
    proof {
        assert forall|i: int| 0 <= i < rows@.len() implies edge_reads_row(
            #[trigger] out@[i],
            rows@[i],
            vertex_ids@,
            rows@,
            positions@,
        ) by {
            lemma_full_edge_reads_row(rows@[i], vertex_ids@, rows@, positions@);
        }
    }
    Ok(out)
}

/// The items whose key is `k`.
pub open spec fn key_is(k: i32) -> spec_fn((i32, FullAtlasEdge)) -> bool {
    |x: (i32, FullAtlasEdge)| x.0 == k
}

/// `sorted` is `items` sorted by key, items of equal key in their order.
pub open spec fn is_stable_sort_by_key(items: Seq<(i32, FullAtlasEdge)>, sorted: Seq<(i32, FullAtlasEdge)>) -> bool {
    &&& sorted.len() == items.len()
    &&& forall|i: int, j: int| 0 <= i <= j < sorted.len() ==> sorted[i].0 <= sorted[j].0
    &&& forall|k: i32| #[trigger] sorted.filter(key_is(k)) == items.filter(key_is(k))
}

/// Two sequences sorted by key with the same items of each key are equal.
pub proof fn lemma_sorted_by_key_unique(s: Seq<(i32, FullAtlasEdge)>, t: Seq<(i32, FullAtlasEdge)>)
    requires
        forall|i: int, j: int| 0 <= i <= j < s.len() ==> s[i].0 <= s[j].0,
        forall|i: int, j: int| 0 <= i <= j < t.len() ==> t[i].0 <= t[j].0,
        forall|k: i32| #[trigger] s.filter(key_is(k)) == t.filter(key_is(k)),
    ensures
        s == t,
    decreases s.len() + t.len(),
{
    if s.len() == 0 && t.len() == 0 {
        assert(s =~= t);
        return;
    }
    if s.len() == 0 || t.len() == 0 {
        let (u, v) = if s.len() == 0 { (t, s) } else { (s, t) };
        let k = u[0].0;
        u.lemma_filter_contains(key_is(k), 0);
        reveal(Seq::filter);
        assert(v.filter(key_is(k)) =~= v);
        assert(s.filter(key_is(k)) == t.filter(key_is(k)));
        assert(false);
    }
    let a = s[0].0;
    let b = t[0].0;
    s.lemma_filter_contains(key_is(a), 0);
    t.lemma_filter_contains(key_is(b), 0);
    assert(s.filter(key_is(a)) == t.filter(key_is(a)));
    assert(s.filter(key_is(b)) == t.filter(key_is(b)));
    t.lemma_filter_contains_rev(key_is(a), s[0]);
    s.lemma_filter_contains_rev(key_is(b), t[0]);
    broadcast use vstd::seq_lib::group_filter_ensures;
    assert(a == b);
    let k = a;
    let s1 = s.drop_first();
    let t1 = t.drop_first();
    assert(s =~= seq![s[0]] + s1);
    assert(t =~= seq![t[0]] + t1);
    s1.lemma_filter_prepend(s[0], key_is(k));
    t1.lemma_filter_prepend(t[0], key_is(k));
    assert(s.filter(key_is(k)) == seq![s[0]] + s1.filter(key_is(k)));
    assert(t.filter(key_is(k)) == seq![t[0]] + t1.filter(key_is(k)));
    assert(s.filter(key_is(k)) == t.filter(key_is(k)));
    assert((seq![s[0]] + s1.filter(key_is(k)))[0] == s[0]);
    assert((seq![t[0]] + t1.filter(key_is(k)))[0] == t[0]);
    assert(s[0] == t[0]);
    assert(s1.filter(key_is(k)) =~= (seq![s[0]] + s1.filter(key_is(k))).drop_first());
    assert(t1.filter(key_is(k)) =~= (seq![t[0]] + t1.filter(key_is(k))).drop_first());
    assert forall|k2: i32| #[trigger] s1.filter(key_is(k2)) == t1.filter(key_is(k2)) by {
        if k2 != k {
            s1.lemma_filter_prepend(s[0], key_is(k2));
            t1.lemma_filter_prepend(t[0], key_is(k2));
            assert(s.filter(key_is(k2)) == t.filter(key_is(k2)));
            assert(Seq::<(i32, FullAtlasEdge)>::empty() + s1.filter(key_is(k2)) =~= s1.filter(key_is(k2)));
            assert(Seq::<(i32, FullAtlasEdge)>::empty() + t1.filter(key_is(k2)) =~= t1.filter(key_is(k2)));
        }
    }
    lemma_sorted_by_key_unique(s1, t1);
    assert(s =~= t);
}

/// `items` sorted by key, items of equal key in their order (there is one
/// such sequence: see `lemma_sorted_by_key_unique`).
pub open spec fn stable_sort_by_key(items: Seq<(i32, FullAtlasEdge)>) -> Seq<(i32, FullAtlasEdge)> {
    choose|sorted: Seq<(i32, FullAtlasEdge)>| is_stable_sort_by_key(items, sorted)
}

/// Sorts by key with `Itertools::sorted_by_key`, which collects the items and
/// calls `slice::sort_by_key`, a stable sort.
#[verifier::external_body]
fn sorted_by_source(items: Vec<(i32, FullAtlasEdge)>) -> (sorted: Vec<(i32, FullAtlasEdge)>)
    ensures
        is_stable_sort_by_key(items@, sorted@),
{
    items.into_iter().sorted_by_key(|x| x.0).collect()
}

/// The values of `s` cut into runs of equal keys: each item joins the run of
/// the item before it where their keys are equal, and starts a run otherwise.
pub open spec fn spec_runs(s: Seq<(i32, FullAtlasEdge)>) -> Seq<Seq<FullAtlasEdge>>
    decreases s.len(),
{
    if s.len() == 0 {
        Seq::empty()
    } else {
        let prev = spec_runs(s.drop_last());
        if s.len() >= 2 && s[s.len() - 2].0 == s.last().0 {
            prev.update(prev.len() - 1, prev.last().push(s.last().1))
        } else {
            prev.push(seq![s.last().1])
        }
    }
}

/// The views of a list of lists.
pub open spec fn edge_lists(v: Seq<Vec<FullAtlasEdge>>) -> Seq<Seq<FullAtlasEdge>> {
    v.map_values(|e: Vec<FullAtlasEdge>| e@)
}

/// Cuts the values of `s` into runs of equal keys, as `Itertools::group_by`
/// on the key does.
pub fn group_runs(s: &Vec<(i32, FullAtlasEdge)>) -> (groups: Vec<Vec<FullAtlasEdge>>)
    ensures
        edge_lists(groups@) == spec_runs(s@),
{
    let mut groups: Vec<Vec<FullAtlasEdge>> = Vec::new();
    if s.len() == 0 {
        assert(edge_lists(groups@) =~= spec_runs(s@));
        return groups;
    }
    let mut cur: Vec<FullAtlasEdge> = Vec::new();
    cur.push(s[0].1);
    let mut cur_key: i32 = s[0].0;
    let mut i: usize = 1;
    assert(s@.take(1).drop_last() =~= Seq::<(i32, FullAtlasEdge)>::empty());
    assert(spec_runs(s@.take(1).drop_last()) == Seq::<Seq<FullAtlasEdge>>::empty());
    assert(s@.take(1).last() == s@[0]);
    assert(edge_lists(groups@) =~= Seq::<Seq<FullAtlasEdge>>::empty());
    assert(edge_lists(groups@).push(cur@) =~= spec_runs(s@.take(1)));
    while i < s.len()
        invariant
            1 <= i <= s.len(),
            cur_key == s@[i - 1].0,
            edge_lists(groups@).push(cur@) == spec_runs(s@.take(i as int)),
        decreases s.len() - i,
    {
        let (k, e) = s[i];
        let ghost prev = spec_runs(s@.take(i as int));
        assert(s@.take(i + 1).drop_last() =~= s@.take(i as int));
        if k == cur_key {
            cur.push(e);
            assert(edge_lists(groups@).push(cur@) =~= prev.update(prev.len() - 1, prev.last().push(e)));
        } else {
            groups.push(cur);
            cur = Vec::new();
            cur.push(e);
            assert(edge_lists(groups@) =~= prev);
            assert(edge_lists(groups@).push(cur@) =~= prev.push(seq![e]));
        }
        cur_key = k;
        i = i + 1;
    }
    assert(s@.take(i as int) =~= s@);
    let ghost before = edge_lists(groups@);
    groups.push(cur);
    assert(edge_lists(groups@) =~= before.push(cur@));
    groups
}

/// The vertices read back: each stored vertex, in its order, with the edges
/// of the run of the same place.
pub open spec fn vertices_match(
    vertices: Seq<FullAtlasVertex>,
    vertex_ids: Seq<i32>,
    runs: Seq<Seq<FullAtlasEdge>>,
) -> bool {
    &&& vertices.len() == (if vertex_ids.len() <= runs.len() { vertex_ids.len() } else { runs.len() })
    &&& forall|j: int| 0 <= j < vertices.len() ==> (#[trigger] vertices[j]).id == vertex_ids[j] && vertices[j].edges@ == runs[j]
}

/// Reads back the vertices of an atlas from the ids of its stored vertices,
/// its stored edges (ordered by their place in their vertex) and the
/// positions of the polygon points: the edges read back are sorted by the
/// vertex they leave and cut into runs of one vertex each, and the `j`-th
/// stored vertex gets the `j`-th run.
pub fn assemble_vertices(
    vertex_ids: &Vec<i32>,
    rows: &Vec<AtlasEdge>,
    positions: &Vec<(i32, (usize, usize))>,
) -> (r: Result<Vec<FullAtlasVertex>, Error>)
    ensures
        r is Ok <==> all_edges_found(vertex_ids@, rows@, positions@),
        r matches Ok(vs) ==> vertices_match(
            vs@,
            vertex_ids@,
            spec_runs(stable_sort_by_key(spec_full_edges(vertex_ids@, rows@, positions@))),
        ),
        r matches Err(e) ==> is_not_found(e),
{
    let edges = match full_atlas_edges(vertex_ids, rows, positions) {
        Ok(edges) => edges,
        Err(e) => return Err(e),
    };
    let ghost items = edges@;
    let sorted = sorted_by_source(edges);
    let mut runs = group_runs(&sorted);
    assert forall|t: int| 0 <= t < runs.len() implies (#[trigger] runs@[t])@ == spec_runs(sorted@)[t] by {
        assert(edge_lists(runs@)[t] == runs@[t]@);
    }
    let mut out: Vec<FullAtlasVertex> = Vec::new();
    let n: usize = if vertex_ids.len() <= runs.len() { vertex_ids.len() } else { runs.len() };
    let ghost all_runs = spec_runs(sorted@);
    let mut j: usize = 0;
    while j < n
        invariant
            n == if vertex_ids.len() <= all_runs.len() { vertex_ids@.len() } else { all_runs.len() },
            j <= n,
            runs.len() + j == all_runs.len(),
            forall|t: int| 0 <= t < runs.len() ==> (#[trigger] runs@[t])@ == all_runs[t + j],
            out@.len() == j,
            forall|t: int| 0 <= t < j ==> (#[trigger] out@[t]).id == vertex_ids@[t] && out@[t].edges@ == all_runs[t],
        decreases n - j,
    {
        let edges_j = runs.remove(0);
        out.push(FullAtlasVertex { id: vertex_ids[j], edges: edges_j });
        j = j + 1;
    }
    proof {
        let chosen = stable_sort_by_key(items);
        assert(is_stable_sort_by_key(items, chosen));
        assert forall|k: i32| #[trigger] chosen.filter(key_is(k)) == sorted@.filter(key_is(k)) by {
            assert(chosen.filter(key_is(k)) == items.filter(key_is(k)));
            assert(sorted@.filter(key_is(k)) == items.filter(key_is(k)));
        }
        lemma_sorted_by_key_unique(chosen, sorted@);
    }
    assert(vertices_match(out@, vertex_ids@, all_runs));
    Ok(out)
}

/// What `itertools::kmerge` yields for the given lists.
pub uninterp spec fn spec_kmerge(lists: Seq<Seq<(i32, (usize, usize))>>) -> Seq<(i32, (usize, usize))>;

/// The views of a list of lists of positions.
pub open spec fn position_lists(v: Seq<Vec<(i32, (usize, usize))>>) -> Seq<Seq<(i32, (usize, usize))>> {
    v.map_values(|l: Vec<(i32, (usize, usize))>| l@)
}

/// Merges the lists with `itertools::kmerge`, which repeatedly takes the
/// least head among the lists (a heap of the lists' heads). Its order is
/// named, not stated; the merge holds each item of the lists once.
#[verifier::external_body]
fn kmerge_positions(lists: Vec<Vec<(i32, (usize, usize))>>) -> (merged: Vec<(i32, (usize, usize))>)
    ensures
        merged@ == spec_kmerge(position_lists(lists@)),
        merged@.to_multiset() == position_lists(lists@).flatten().to_multiset(),
{
    itertools::kmerge(lists).collect()
}

/// The views of a list of id lists.
pub open spec fn id_lists(v: Seq<Vec<i32>>) -> Seq<Seq<i32>> {
    v.map_values(|l: Vec<i32>| l@)
}

/// For each polygon, the ids of its points with the polygon's index and the
/// point's index.
pub open spec fn spec_position_lists(ids: Seq<Seq<i32>>) -> Seq<Seq<(i32, (usize, usize))>> {
    Seq::new(ids.len(), |p: int| Seq::new(ids[p].len(), |q: int| (ids[p][q], (p as usize, q as usize))))
}

/// The position (polygon index, point index) of every polygon point, from
/// the point ids of each polygon, merged into one list.
pub fn polygon_point_positions(polygon_point_ids: &Vec<Vec<i32>>) -> (positions: Vec<(i32, (usize, usize))>)
    ensures
        positions@ == spec_kmerge(spec_position_lists(id_lists(polygon_point_ids@))),
        positions@.to_multiset() == spec_position_lists(id_lists(polygon_point_ids@)).flatten().to_multiset(),
{
    let ghost ids = id_lists(polygon_point_ids@);
    let mut lists: Vec<Vec<(i32, (usize, usize))>> = Vec::new();
    let mut p: usize = 0;
    while p < polygon_point_ids.len()
        invariant
            p <= polygon_point_ids.len(),
            ids == id_lists(polygon_point_ids@),
            position_lists(lists@) == spec_position_lists(ids).take(p as int),
        decreases polygon_point_ids.len() - p,
    {
        let points = &polygon_point_ids[p];
        let mut list: Vec<(i32, (usize, usize))> = Vec::new();
        let mut q: usize = 0;
        while q < points.len()
            invariant
                q <= points.len(),
                points@ == ids[p as int],
                p < ids.len(),
                list@ == spec_position_lists(ids)[p as int].take(q as int),
            decreases points.len() - q,
        {
            list.push((points[q], (p, q)));
            q = q + 1;
            assert(list@ =~= spec_position_lists(ids)[p as int].take(q as int));
        }
        assert(list@ =~= spec_position_lists(ids)[p as int]);
        let ghost old_lists = lists@;
        lists.push(list);
        assert(lists@ == old_lists.push(list));
        assert(position_lists(lists@) =~= position_lists(old_lists).push(list@));
        p = p + 1;
        assert(spec_position_lists(ids).take(p as int) =~= spec_position_lists(ids).take(p - 1).push(spec_position_lists(ids)[p - 1]));
        assert(position_lists(lists@) =~= spec_position_lists(ids).take(p as int));
    }
    assert(spec_position_lists(ids).take(p as int) =~= spec_position_lists(ids));
    kmerge_positions(lists)
}

/// The items of `s` at their first occurrence, in order.
pub open spec fn spec_unique(s: Seq<i32>) -> Seq<i32>
    decreases s.len(),
{
    if s.len() == 0 {
        Seq::empty()
    } else {
        let prev = spec_unique(s.drop_last());
        if prev.contains(s.last()) {
            prev
        } else {
            prev.push(s.last())
        }
    }
}

/// Drops repeated ids with `Itertools::unique`, which yields each item the
/// first time it comes.
#[verifier::external_body]
fn unique_ids(ids: Vec<i32>) -> (u: Vec<i32>)
    ensures
        u@ == spec_unique(ids@),
{
    ids.into_iter().unique().collect()
}

/// The polygons to fetch for an atlas: the polygons of its edges' polygon
/// points, each once, in the order they first come.
pub fn polygon_ids_to_fetch(point_polygon_ids: Vec<i32>) -> (ids: Vec<i32>)
    ensures
        ids@ == spec_unique(point_polygon_ids@),
{
    unique_ids(point_polygon_ids)
}

/// A posted edge of an atlas vertex: indices into the posted polygons, their
/// points, the posted vertices and the edges of the neighboring vertex.
#[derive(Debug, Clone, Copy, PartialEq, Eq, Structural)]
pub struct FullAtlasEdgePost {
    pub polygon_index: usize,
    pub point_index: usize,
    pub neighbor_index: usize,
    pub neighbor_edge_index: usize,
    pub parity: bool,
}

/// A posted atlas vertex: its edges in order.
#[derive(Debug, Clone, PartialEq, Eq)]
pub struct FullAtlasVertexPost {
    pub edges: Vec<FullAtlasEdgePost>,
}

/// A new row of the atlas edge table.
#[derive(Debug, Clone, Copy, PartialEq, Eq, Structural)]
pub struct AtlasEdgePost {
    pub atlas_id: i32,
    pub polygon_point_id: i32,
    pub source_id: i32,
    pub sink_id: i32,
    pub parity: bool,
    pub sequence: i32,
    pub neighbor_edge_id: Option<i32>,
}

/// The items before the first `None`, and whether there is no `None`.
pub open spec fn prefix_until_none<T>(opts: Seq<Option<T>>) -> (Seq<T>, bool)
    decreases opts.len(),
{
    if opts.len() == 0 {
        (Seq::empty(), true)
    } else {
        let (prev, ok) = prefix_until_none(opts.drop_last());
        if !ok {
            (prev, false)
        } else {
            match opts.last() {
                Some(x) => (prev.push(x), true),
                None => (prev, false),
            }
        }
    }
}

/// Once a `None` is met, what follows changes nothing.
pub proof fn lemma_prefix_until_none_stops<T>(opts: Seq<Option<T>>, j: int)
    requires
        0 <= j <= opts.len(),
        !prefix_until_none(opts.take(j)).1,
    ensures
        prefix_until_none(opts) == prefix_until_none(opts.take(j)),
    decreases opts.len() - j,
{
    if j < opts.len() {
        assert(opts.take(j + 1).drop_last() =~= opts.take(j));
        lemma_prefix_until_none_stops(opts, j + 1);
    } else {
        assert(opts.take(j) =~= opts);
    }
}

/// The row of a posted edge, the `sequence`-th of the vertex stored as
/// `source_id`: `None` where an index points past the posted polygons, their
/// points or the stored vertices.
pub open spec fn spec_edge_post(
    atlas_id: i32,
    polygon_point_ids: Seq<Seq<i32>>,
    vertex_ids: Seq<i32>,
    source_id: i32,
    sequence: int,
    e: FullAtlasEdgePost,
) -> Option<AtlasEdgePost> {
    if e.polygon_index < polygon_point_ids.len()
        && e.point_index < polygon_point_ids[e.polygon_index as int].len()
        && e.neighbor_index < vertex_ids.len() {
        Some(AtlasEdgePost {
            atlas_id,
            polygon_point_id: polygon_point_ids[e.polygon_index as int][e.point_index as int],
            source_id,
            sink_id: vertex_ids[e.neighbor_index as int],
            parity: e.parity,
            sequence: sequence as i32,
            neighbor_edge_id: None,
        })
    } else {
        None
    }
}

/// The rows of the edges of the `a`-th posted vertex.
pub open spec fn vertex_edge_posts(
    atlas_id: i32,
    polygon_point_ids: Seq<Seq<i32>>,
    vertex_ids: Seq<i32>,
    vertices: Seq<FullAtlasVertexPost>,
    a: int,
) -> Seq<Option<AtlasEdgePost>> {
    vertices[a].edges@.map(|i: int, e: FullAtlasEdgePost| spec_edge_post(atlas_id, polygon_point_ids, vertex_ids, vertex_ids[a], i, e))
}

/// The rows made for the first `k` vertices, vertex by vertex and edge by
/// edge, up to the first edge that cannot be made; and whether all were made.
pub open spec fn spec_plan_edges(
    atlas_id: i32,
    polygon_point_ids: Seq<Seq<i32>>,
    vertex_ids: Seq<i32>,
    vertices: Seq<FullAtlasVertexPost>,
    k: nat,
) -> (Seq<Seq<AtlasEdgePost>>, bool)
    decreases k,
{
    if k == 0 {
        (Seq::empty(), true)
    } else {
        let (prev, ok) = spec_plan_edges(atlas_id, polygon_point_ids, vertex_ids, vertices, (k - 1) as nat);
        if !ok {
            (prev, false)
        } else {
            let (posts, all) = prefix_until_none(vertex_edge_posts(atlas_id, polygon_point_ids, vertex_ids, vertices, k - 1));
            (prev.push(posts), all)
        }
    }
}

pub proof fn lemma_plan_edges_stops(
    atlas_id: i32,
    polygon_point_ids: Seq<Seq<i32>>,
    vertex_ids: Seq<i32>,
    vertices: Seq<FullAtlasVertexPost>,
    j: nat,
    k: nat,
)
    requires
        j <= k,
        !spec_plan_edges(atlas_id, polygon_point_ids, vertex_ids, vertices, j).1,
    ensures
        spec_plan_edges(atlas_id, polygon_point_ids, vertex_ids, vertices, k)
            == spec_plan_edges(atlas_id, polygon_point_ids, vertex_ids, vertices, j),
    decreases k - j,
{
    if j < k {
        lemma_plan_edges_stops(atlas_id, polygon_point_ids, vertex_ids, vertices, j, (k - 1) as nat);
    }
}

/// Whether `post` is the row made for `edges[i]`, the `i`-th posted edge of
/// the `a`-th vertex: it belongs to the atlas, leaves the vertex stored for
/// the `a`-th vertex and enters the one stored for the edge's neighbor, sits
/// at the polygon point the edge names, keeps the edge's mirroring, carries
/// its place `i` as its sequence, and is not glued to an edge yet.
pub open spec fn row_of_posted_edge(
    post: AtlasEdgePost,
    atlas_id: i32,
    polygon_point_ids: Seq<Seq<i32>>,
    vertex_ids: Seq<i32>,
    a: int,
    i: int,
    edges: Seq<FullAtlasEdgePost>,
) -> bool {
    let e = edges[i];
    &&& 0 <= i < edges.len()
    &&& post.atlas_id == atlas_id
    &&& post.source_id == vertex_ids[a]
    &&& e.neighbor_index < vertex_ids.len()
    &&& post.sink_id == vertex_ids[e.neighbor_index as int]
    &&& e.polygon_index < polygon_point_ids.len()
    &&& e.point_index < polygon_point_ids[e.polygon_index as int].len()
    &&& post.polygon_point_id == polygon_point_ids[e.polygon_index as int][e.point_index as int]
    &&& post.parity == e.parity
    &&& post.sequence == i as i32
    &&& post.neighbor_edge_id is None
}

/// Whether every row of `plan` (vertex by vertex, edge by edge) is the row of
/// the posted edge at the same place.
pub open spec fn rows_of_posted_vertices(
    plan: Seq<Seq<AtlasEdgePost>>,
    atlas_id: i32,
    polygon_point_ids: Seq<Seq<i32>>,
    vertex_ids: Seq<i32>,
    vertices: Seq<FullAtlasVertexPost>,
) -> bool {
    &&& plan.len() <= vertices.len()
    &&& forall|a: int, i: int|
        0 <= a < plan.len() && 0 <= i < plan[a].len() ==> row_of_posted_edge(
            #[trigger] plan[a][i],
            atlas_id,
            polygon_point_ids,
            vertex_ids,
            a,
            i,
            vertices[a].edges@,
        )
}

/// The items before the first `None` are the items at the same places.
pub proof fn lemma_prefix_until_none_items<T>(opts: Seq<Option<T>>)
    ensures
        prefix_until_none(opts).0.len() <= opts.len(),
        prefix_until_none(opts).1 ==> prefix_until_none(opts).0.len() == opts.len(),
        prefix_until_none(opts).1 <==> forall|i: int| 0 <= i < opts.len() ==> (#[trigger] opts[i]) is Some,
        forall|i: int|
            0 <= i < prefix_until_none(opts).0.len() ==> opts[i] == Some(#[trigger] prefix_until_none(opts).0[i]),
    decreases opts.len(),
{
    if opts.len() > 0 {
        lemma_prefix_until_none_items(opts.drop_last());
        let prev = prefix_until_none(opts.drop_last()).0;
        assert forall|i: int| 0 <= i < prev.len() implies opts[i] == opts.drop_last()[i] by {}
        if !prefix_until_none(opts.drop_last()).1 {
            let j = choose|j: int| 0 <= j < opts.drop_last().len() && !((#[trigger] opts.drop_last()[j]) is Some);
            assert(opts[j] == opts.drop_last()[j]);
        } else {
            assert forall|i: int| 0 <= i < opts.len() - 1 implies opts[i] == opts.drop_last()[i] by {}
        }
    }
}

/// Whether a posted edge can be made into a row: its polygon, its point in
/// that polygon and its neighbor vertex are among those posted and stored.
pub open spec fn posted_edge_fits(e: FullAtlasEdgePost, polygon_point_ids: Seq<Seq<i32>>, vertex_ids: Seq<i32>) -> bool {
    &&& e.polygon_index < polygon_point_ids.len()
    &&& e.point_index < polygon_point_ids[e.polygon_index as int].len()
    &&& e.neighbor_index < vertex_ids.len()
}

/// The plan of the first `k` vertices succeeds exactly when every edge of
/// them fits, and then holds one row per posted edge of each.
pub proof fn lemma_plan_edges_complete(
    atlas_id: i32,
    polygon_point_ids: Seq<Seq<i32>>,
    vertex_ids: Seq<i32>,
    vertices: Seq<FullAtlasVertexPost>,
    k: nat,
)
    requires
        k <= vertex_ids.len(),
        k <= vertices.len(),
    ensures
        spec_plan_edges(atlas_id, polygon_point_ids, vertex_ids, vertices, k).1 <==> forall|a: int, i: int|
            0 <= a < k && 0 <= i < vertices[a].edges@.len() ==> posted_edge_fits(
                #[trigger] vertices[a].edges@[i],
                polygon_point_ids,
                vertex_ids,
            ),
        spec_plan_edges(atlas_id, polygon_point_ids, vertex_ids, vertices, k).1 ==> forall|a: int|
            0 <= a < k ==> (#[trigger] spec_plan_edges(atlas_id, polygon_point_ids, vertex_ids, vertices, k).0[a]).len()
                == vertices[a].edges@.len(),
    decreases k,
{
    lemma_plan_edges_rows(atlas_id, polygon_point_ids, vertex_ids, vertices, k);
    if k > 0 {
        let a = k - 1;
        lemma_plan_edges_complete(atlas_id, polygon_point_ids, vertex_ids, vertices, (k - 1) as nat);
        lemma_plan_edges_rows(atlas_id, polygon_point_ids, vertex_ids, vertices, (k - 1) as nat);
        let (prev, ok) = spec_plan_edges(atlas_id, polygon_point_ids, vertex_ids, vertices, (k - 1) as nat);
        let opts = vertex_edge_posts(atlas_id, polygon_point_ids, vertex_ids, vertices, a);
        lemma_prefix_until_none_items(opts);
        assert forall|i: int| 0 <= i < opts.len() implies ((#[trigger] opts[i]) is Some <==> posted_edge_fits(
            vertices[a].edges@[i],
            polygon_point_ids,
            vertex_ids,
        )) by {}
        if ok {
            let plan = spec_plan_edges(atlas_id, polygon_point_ids, vertex_ids, vertices, k).0;
            assert(plan == prev.push(prefix_until_none(opts).0));
            if spec_plan_edges(atlas_id, polygon_point_ids, vertex_ids, vertices, k).1 {
                assert forall|b: int, i: int| 0 <= b < k && 0 <= i < vertices[b].edges@.len() implies posted_edge_fits(
                    #[trigger] vertices[b].edges@[i],
                    polygon_point_ids,
                    vertex_ids,
                ) by {
                    if b == a {
                        assert(opts[i] is Some);
                    }
                }
                assert forall|b: int| 0 <= b < k implies (#[trigger] plan[b]).len() == vertices[b].edges@.len() by {
                    if b < a {
                        assert(plan[b] == prev[b]);
                    }
                }
            } else {
                let i = choose|i: int| 0 <= i < opts.len() && !((#[trigger] opts[i]) is Some);
                assert(!posted_edge_fits(vertices[a].edges@[i], polygon_point_ids, vertex_ids));
            }
        } else {
            let (b, i) = choose|b: int, i: int| 0 <= b < k - 1 && 0 <= i < vertices[b].edges@.len() && !posted_edge_fits(
                #[trigger] vertices[b].edges@[i],
                polygon_point_ids,
                vertex_ids,
            );
            assert(!posted_edge_fits(vertices[b].edges@[i], polygon_point_ids, vertex_ids));
        }
    }
}

/// Every row planned for a posted atlas is the row of the posted edge at its
/// place: it keeps that edge's mirroring, polygon point, neighbor vertex and
/// place, and leaves the vertex it was planned for.
pub proof fn lemma_plan_edges_rows(
    atlas_id: i32,
    polygon_point_ids: Seq<Seq<i32>>,
    vertex_ids: Seq<i32>,
    vertices: Seq<FullAtlasVertexPost>,
    k: nat,
)
    requires
        k <= vertex_ids.len(),
        k <= vertices.len(),
    ensures
        spec_plan_edges(atlas_id, polygon_point_ids, vertex_ids, vertices, k).0.len() <= k,
        spec_plan_edges(atlas_id, polygon_point_ids, vertex_ids, vertices, k).1
            ==> spec_plan_edges(atlas_id, polygon_point_ids, vertex_ids, vertices, k).0.len() == k,
        rows_of_posted_vertices(
            spec_plan_edges(atlas_id, polygon_point_ids, vertex_ids, vertices, k).0,
            atlas_id,
            polygon_point_ids,
            vertex_ids,
            vertices,
        ),
    decreases k,
{
    if k > 0 {
        lemma_plan_edges_rows(atlas_id, polygon_point_ids, vertex_ids, vertices, (k - 1) as nat);
        let (prev, ok) = spec_plan_edges(atlas_id, polygon_point_ids, vertex_ids, vertices, (k - 1) as nat);
        if ok {
            let a = k - 1;
            let opts = vertex_edge_posts(atlas_id, polygon_point_ids, vertex_ids, vertices, a);
            lemma_prefix_until_none_items(opts);
            let posts = prefix_until_none(opts).0;
            let plan = prev.push(posts);
            assert(spec_plan_edges(atlas_id, polygon_point_ids, vertex_ids, vertices, k).0 == plan);
            assert forall|b: int, i: int| 0 <= b < plan.len() && 0 <= i < plan[b].len() implies row_of_posted_edge(
                #[trigger] plan[b][i],
                atlas_id,
                polygon_point_ids,
                vertex_ids,
                b,
                i,
                vertices[b].edges@,
            ) by {
                if b < prev.len() {
                    assert(plan[b] == prev[b]);
                    assert(plan[b][i] == prev[b][i]);
                } else {
                    assert(b == a);
                    assert(plan[b] == posts);
                    assert(opts.len() == vertices[a].edges@.len());
                    assert(i < opts.len());
                    assert(opts[i] == Some(posts[i]));
                    assert(opts[i] == spec_edge_post(
                        atlas_id,
                        polygon_point_ids,
                        vertex_ids,
                        vertex_ids[a],
                        i,
                        vertices[a].edges@[i],
                    ));
                }
            }
            assert(plan.len() == k);
            assert(rows_of_posted_vertices(plan, atlas_id, polygon_point_ids, vertex_ids, vertices));
        } else {
            assert(spec_plan_edges(atlas_id, polygon_point_ids, vertex_ids, vertices, k).0 == prev);
        }
    }
}

/// The views of a list of row lists.
pub open spec fn post_lists(v: Seq<Vec<AtlasEdgePost>>) -> Seq<Seq<AtlasEdgePost>> {
    v.map_values(|l: Vec<AtlasEdgePost>| l@)
}

/// The smaller of two lengths.
pub open spec fn min_len(a: nat, b: nat) -> nat {
    if a <= b { a } else { b }
}

/// The rows of the edges of a posted atlas whose vertices were stored as
/// `vertex_ids`, vertex by vertex: `Ok` with all of them, or, where an edge
/// points past the posted polygons, their points or the stored vertices,
/// a bad request together with the rows made before that edge.
pub fn plan_atlas_edges(
    atlas_id: i32,
    polygon_point_ids: &Vec<Vec<i32>>,
    vertex_ids: &Vec<i32>,
    vertices: &Vec<FullAtlasVertexPost>,
) -> (r: Result<Vec<Vec<AtlasEdgePost>>, (Vec<Vec<AtlasEdgePost>>, Error)>)
    ensures
        ({
            let plan = spec_plan_edges(
                atlas_id,
                id_lists(polygon_point_ids@),
                vertex_ids@,
                vertices@,
                min_len(vertex_ids@.len(), vertices@.len()),
            );
            match r {
                Ok(posts) => plan.1 && post_lists(posts@) == plan.0,
                Err((posts, e)) => !plan.1 && post_lists(posts@) == plan.0 && e == Error::Status(crate::error::STATUS_BAD_REQUEST),
            }
        }),
        r is Ok <==> forall|a: int, i: int|
            0 <= a < min_len(vertex_ids@.len(), vertices@.len()) && 0 <= i < vertices@[a].edges@.len()
                ==> posted_edge_fits(#[trigger] vertices@[a].edges@[i], id_lists(polygon_point_ids@), vertex_ids@),
        r matches Ok(posts) ==> posts@.len() == min_len(vertex_ids@.len(), vertices@.len()) && forall|a: int|
            0 <= a < posts@.len() ==> (#[trigger] posts@[a])@.len() == vertices@[a].edges@.len(),
        rows_of_posted_vertices(
            match r {
                Ok(posts) => post_lists(posts@),
                Err((posts, _)) => post_lists(posts@),
            },
            atlas_id,
            id_lists(polygon_point_ids@),
            vertex_ids@,
            vertices@,
        ),
{
    proof {
        lemma_plan_edges_rows(
            atlas_id,
            id_lists(polygon_point_ids@),
            vertex_ids@,
            vertices@,
            min_len(vertex_ids@.len(), vertices@.len()),
        );
        lemma_plan_edges_complete(
            atlas_id,
            id_lists(polygon_point_ids@),
            vertex_ids@,
            vertices@,
            min_len(vertex_ids@.len(), vertices@.len()),
        );
    }
    let ghost ppids = id_lists(polygon_point_ids@);
    let n: usize = if vertex_ids.len() <= vertices.len() { vertex_ids.len() } else { vertices.len() };
    let mut out: Vec<Vec<AtlasEdgePost>> = Vec::new();
    let mut a: usize = 0;
    while a < n
        invariant
            n == min_len(vertex_ids@.len(), vertices@.len()),
            a <= n,
            ppids == id_lists(polygon_point_ids@),
            spec_plan_edges(atlas_id, ppids, vertex_ids@, vertices@, a as nat) == (post_lists(out@), true),
        decreases n - a,
    {
        let edges = &vertices[a].edges;
        let source_id = vertex_ids[a];
        let ghost opts = vertex_edge_posts(atlas_id, ppids, vertex_ids@, vertices@, a as int);
        let mut cur: Vec<AtlasEdgePost> = Vec::new();
        let mut i: usize = 0;
        assert(opts.take(0) =~= Seq::<Option<AtlasEdgePost>>::empty());
        while i < edges.len()
            invariant
                i <= edges.len(),
                a < n,
                n == min_len(vertex_ids@.len(), vertices@.len()),
                edges@ == vertices@[a as int].edges@,
                source_id == vertex_ids@[a as int],
                ppids == id_lists(polygon_point_ids@),
                opts == vertex_edge_posts(atlas_id, ppids, vertex_ids@, vertices@, a as int),
                prefix_until_none(opts.take(i as int)) == (cur@, true),
                spec_plan_edges(atlas_id, ppids, vertex_ids@, vertices@, a as nat) == (post_lists(out@), true),
            decreases edges.len() - i,
        {
            let e = edges[i];
            assert(opts.take(i + 1).drop_last() =~= opts.take(i as int));
            let ok = e.polygon_index < polygon_point_ids.len()
                && e.point_index < polygon_point_ids[e.polygon_index].len()
                && e.neighbor_index < vertex_ids.len();
            if !ok {
                proof {
                    assert(opts[i as int] is None);
                    lemma_prefix_until_none_stops(opts, i + 1);
                    lemma_plan_edges_stops(atlas_id, ppids, vertex_ids@, vertices@, (a + 1) as nat, n as nat);
                }
                let ghost prev = out@;
                out.push(cur);
                assert(post_lists(out@) =~= post_lists(prev).push(cur@));
                proof {
                    lemma_plan_edges_rows(atlas_id, ppids, vertex_ids@, vertices@, n as nat);
                    lemma_plan_edges_complete(atlas_id, ppids, vertex_ids@, vertices@, n as nat);
                    assert(post_lists(out@) == spec_plan_edges(atlas_id, ppids, vertex_ids@, vertices@, n as nat).0);
                }
                return Err((out, Error::Status(crate::error::STATUS_BAD_REQUEST)));
            }
            let post = AtlasEdgePost {
                atlas_id,
                polygon_point_id: polygon_point_ids[e.polygon_index][e.point_index],
                source_id,
                sink_id: vertex_ids[e.neighbor_index],
                parity: e.parity,
                sequence: i as i32,
                neighbor_edge_id: None,
            };
            assert(opts[i as int] == Some(post));
            cur.push(post);
            i = i + 1;
        }
        assert(opts.take(i as int) =~= opts);
        let ghost prev = out@;
        out.push(cur);
        assert(post_lists(out@) =~= post_lists(prev).push(cur@));
        a = a + 1;
    }
    proof {
        assert forall|b: int| 0 <= b < out@.len() implies (#[trigger] out@[b])@.len() == vertices@[b].edges@.len() by {
            assert(post_lists(out@)[b] == out@[b]@);
        }
    }
    Ok(out)
}

/// The id of the edge that a posted edge is glued to, among the stored edges
/// of each vertex: `None` where its indices point past them.
pub open spec fn spec_neighbor_edge_id(edge_ids: Seq<Seq<i32>>, e: FullAtlasEdgePost) -> Option<i32> {
    if e.neighbor_index < edge_ids.len() && e.neighbor_edge_index < edge_ids[e.neighbor_index as int].len() {
        Some(edge_ids[e.neighbor_index as int][e.neighbor_edge_index as int])
    } else {
        None
    }
}

/// The updates (stored edge id, id of the edge it is glued to) for the
/// `a`-th posted vertex, its posted edges paired with its stored ones.
pub open spec fn vertex_updates(
    vertices: Seq<FullAtlasVertexPost>,
    edge_ids: Seq<Seq<i32>>,
    a: int,
) -> Seq<Option<(i32, i32)>> {
    Seq::new(
        min_len(vertices[a].edges@.len(), edge_ids[a].len()),
        |i: int| match spec_neighbor_edge_id(edge_ids, vertices[a].edges@[i]) {
            Some(n) => Some((edge_ids[a][i], n)),
            None => None,
        },
    )
}

/// The updates for the first `k` vertices, up to the first edge whose
/// neighbor cannot be found; and whether all were found.
pub open spec fn spec_plan_updates(
    vertices: Seq<FullAtlasVertexPost>,
    edge_ids: Seq<Seq<i32>>,
    k: nat,
) -> (Seq<(i32, i32)>, bool)
    decreases k,
{
    if k == 0 {
        (Seq::empty(), true)
    } else {
        let (prev, ok) = spec_plan_updates(vertices, edge_ids, (k - 1) as nat);
        if !ok {
            (prev, false)
        } else {
            let (ups, all) = prefix_until_none(vertex_updates(vertices, edge_ids, k - 1));
            (prev + ups, all)
        }
    }
}

pub proof fn lemma_plan_updates_stops(vertices: Seq<FullAtlasVertexPost>, edge_ids: Seq<Seq<i32>>, j: nat, k: nat)
    requires
        j <= k,
        !spec_plan_updates(vertices, edge_ids, j).1,
    ensures
        spec_plan_updates(vertices, edge_ids, k) == spec_plan_updates(vertices, edge_ids, j),
    decreases k - j,
{
    if j < k {
        lemma_plan_updates_stops(vertices, edge_ids, j, (k - 1) as nat);
    }
}

/// Which stored edge is glued to which, once the edges of every vertex are
/// stored (`edge_ids`, vertex by vertex): `Ok` with all the updates, or, where
/// a posted edge points past the stored edges, a bad request together with
/// the updates before it.
pub fn plan_neighbor_edges(
    vertices: &Vec<FullAtlasVertexPost>,
    edge_ids: &Vec<Vec<i32>>,
) -> (r: Result<Vec<(i32, i32)>, (Vec<(i32, i32)>, Error)>)
    ensures
        ({
            let plan = spec_plan_updates(vertices@, id_lists(edge_ids@), min_len(vertices@.len(), edge_ids@.len()));
            match r {
                Ok(ups) => plan.1 && ups@ == plan.0,
                Err((ups, e)) => !plan.1 && ups@ == plan.0 && e == Error::Status(crate::error::STATUS_BAD_REQUEST),
            }
        }),
{
    let ghost ids = id_lists(edge_ids@);
    let n: usize = if vertices.len() <= edge_ids.len() { vertices.len() } else { edge_ids.len() };
    let mut out: Vec<(i32, i32)> = Vec::new();
    let mut a: usize = 0;
    while a < n
        invariant
            n == min_len(vertices@.len(), edge_ids@.len()),
            a <= n,
            ids == id_lists(edge_ids@),
            spec_plan_updates(vertices@, ids, a as nat) == (out@, true),
        decreases n - a,
    {
        let edges = &vertices[a].edges;
        let stored = &edge_ids[a];
        let m: usize = if edges.len() <= stored.len() { edges.len() } else { stored.len() };
        let ghost opts = vertex_updates(vertices@, ids, a as int);
        let ghost base = out@;
        let mut i: usize = 0;
        assert(opts.take(0) =~= Seq::<Option<(i32, i32)>>::empty());
        assert(base + Seq::<(i32, i32)>::empty() =~= base);
        while i < m
            invariant
                i <= m,
                a < n,
                n == min_len(vertices@.len(), edge_ids@.len()),
                m == opts.len(),
                edges@ == vertices@[a as int].edges@,
                stored@ == ids[a as int],
                ids == id_lists(edge_ids@),
                opts == vertex_updates(vertices@, ids, a as int),
                spec_plan_updates(vertices@, ids, a as nat) == (base, true),
                out@ == base + prefix_until_none(opts.take(i as int)).0,
                prefix_until_none(opts.take(i as int)).1,
            decreases m - i,
        {
            let e = edges[i];
            assert(opts.take(i + 1).drop_last() =~= opts.take(i as int));
            let ok = e.neighbor_index < edge_ids.len()
                && e.neighbor_edge_index < edge_ids[e.neighbor_index].len();
            if !ok {
                proof {
                    assert(opts[i as int] is None);
                    lemma_prefix_until_none_stops(opts, i + 1);
                    lemma_plan_updates_stops(vertices@, ids, (a + 1) as nat, n as nat);
                }
                return Err((out, Error::Status(crate::error::STATUS_BAD_REQUEST)));
            }
            let up = (stored[i], edge_ids[e.neighbor_index][e.neighbor_edge_index]);
            assert(opts[i as int] == Some(up));
            let ghost before = out@;
            out.push(up);
            assert(out@ =~= base + prefix_until_none(opts.take(i + 1)).0);
            i = i + 1;
        }
        assert(opts.take(i as int) =~= opts);
        a = a + 1;
    }
    Ok(out)
}

} // verus!
