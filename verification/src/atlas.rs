//! The combinatorial side of an atlas: which prototile edges meet at each
//! vertex star, how vertex stars link to their neighbors, and the cyclic index
//! arithmetic on a vertex star's link.

use vstd::prelude::*;
use vstd::arithmetic::div_mod::{lemma_add_mod_noop, lemma_mod_multiples_vanish};
use crate::strings::{decimal, push_decimal, push_str, string_from};

verus! {

/// The remainder of Rust's `%` on signed integers (it takes the dividend's sign).
pub open spec fn trunc_rem(a: int, n: int) -> int {
    if a >= 0 {
        a % n
    } else {
        -((-a) % n)
    }
}

/// An edge of an atlas vertex as it is stored: a prototile's polygon and one
/// of its points, the neighboring vertex and the matching edge there, and
/// whether the neighbor is mirrored.
#[derive(Debug, Clone, Copy, PartialEq, Eq, Structural)]
pub struct FullAtlasEdge {
    pub id: i32,
    pub polygon_index: usize,
    pub point_index: usize,
    pub neighbor_index: usize,
    pub neighbor_edge_index: usize,
    pub parity: bool,
}

/// A vertex of an atlas as it is stored: its edges in order.
#[derive(Debug, Clone, PartialEq, Eq)]
pub struct FullAtlasVertex {
    pub id: i32,
    pub edges: Vec<FullAtlasEdge>,
}

/// How a vertex star reaches one neighbor: the neighbor's vertex star, the
/// index of the neighbor's edge that points back, whether it is mirrored,
/// and the tiles on either side.
#[derive(Debug, Clone, Copy, PartialEq, Eq, Structural)]
pub struct ProtoNeighbor {
    pub proto_vertex_star_index: usize,
    pub neighbor_index: usize,
    pub parity: bool,
    pub forward_tile_index: usize,
    pub reverse_tile_index: usize,
}

/// A vertex star of an atlas: its index and its neighbors, one per prototile
/// around it.
#[derive(Debug, Clone, PartialEq, Eq)]
pub struct ProtoVertexStar {
    pub index: usize,
    pub proto_neighbors: Vec<ProtoNeighbor>,
}

impl ProtoVertexStar {
    /// The number of prototiles (and neighbors) around the vertex star.
    pub fn size(&self) -> (n: usize)
        ensures
            n == self.proto_neighbors@.len(),
    {
        self.proto_neighbors.len()
    }

    /// Moves `delta` places from `index` around the vertex star.
    pub fn index(&self, index: usize, delta: isize) -> (i: usize)
        requires
            self.proto_neighbors@.len() > 0,
            self.proto_neighbors@.len() <= isize::MAX,
            index <= isize::MAX,
            index + trunc_rem(delta as int, self.proto_neighbors@.len() as int)
                + self.proto_neighbors@.len() <= isize::MAX,
        ensures
            i < self.proto_neighbors@.len(),
            i as int == (index + delta) % (self.proto_neighbors@.len() as int),
    {
        ProtoVertexStar::index_from_size(self.size(), index, delta)
    }

    /// Moves `delta` places from `index` around a cycle of `size` places:
    /// `(index + delta) mod size`, computed as `(index + delta % size + size) % size`.
    pub fn index_from_size(size: usize, index: usize, delta: isize) -> (i: usize)
        requires
            size > 0,
            size <= isize::MAX,
            index <= isize::MAX,
            index + trunc_rem(delta as int, size as int) + size <= isize::MAX,
        ensures
            i < size,
            i as int == (index + delta) % (size as int),
    {
        let size_i = size as isize;
        let r = delta % size_i;
        proof {
            assert(r == trunc_rem(delta as int, size as int));
            let n = size as int;
            let q = if delta >= 0 { (delta as int) / n } else { -((-(delta as int)) / n) };
            assert(delta as int == n * q + trunc_rem(delta as int, n)) by (nonlinear_arith)
                requires
                    n > 0,
                    q == (if delta >= 0 { (delta as int) / n } else { -((-(delta as int)) / n) }),
            {
                if delta >= 0 {
                    assert(delta as int == n * ((delta as int) / n) + (delta as int) % n);
                } else {
                    let m = -(delta as int);
                    assert(m == n * (m / n) + m % n);
                }
            }
            lemma_mod_multiples_vanish(1 - q, index + delta, n);
            assert(n * (1 - q) + (index + delta) == index + r + n) by (nonlinear_arith)
                requires
                    delta as int == n * q + r,
            {
            }
        }
        let v = index as isize + r + size_i;
        (v % size_i) as usize
    }
}


/// Why an edge of an atlas vertex cannot be placed.
#[derive(Debug, Clone, Copy, PartialEq, Eq, Structural)]
pub enum AtlasEdgeError {
    /// The edge names a polygon that the atlas does not have.
    MissingPolygon { polygon_index: usize, edge_index: usize },
    /// The edge names a point that its polygon does not have.
    MissingPoint { vertex_index: usize, edge_index: usize, point_index: usize, polygon_index: usize },
}

/// The first edge (in order) that names a missing polygon or point, if any.
pub open spec fn spec_vertex_edges_error(
    vertex_index: usize,
    edges: Seq<FullAtlasEdge>,
    polygon_sizes: Seq<usize>,
) -> Option<AtlasEdgeError>
    decreases edges.len(),
{
    if edges.len() == 0 {
        None
    } else {
        match spec_vertex_edges_error(vertex_index, edges.drop_last(), polygon_sizes) {
            Some(e) => Some(e),
            None => {
                let j = (edges.len() - 1) as usize;
                let edge = edges.last();
                if edge.polygon_index >= polygon_sizes.len() {
                    Some(AtlasEdgeError::MissingPolygon { polygon_index: edge.polygon_index, edge_index: j })
                } else if edge.point_index >= polygon_sizes[edge.polygon_index as int] {
                    Some(
                        AtlasEdgeError::MissingPoint {
                            vertex_index,
                            edge_index: j,
                            point_index: edge.point_index,
                            polygon_index: edge.polygon_index,
                        },
                    )
                } else {
                    None
                }
            },
        }
    }
}

/// Checks that every edge of an atlas vertex names a polygon of the atlas
/// (whose point counts are `polygon_sizes`) and a point of that polygon.
pub fn check_vertex_edges(
    vertex_index: usize,
    edges: &Vec<FullAtlasEdge>,
    polygon_sizes: &Vec<usize>,
) -> (r: Result<(), AtlasEdgeError>)
    ensures
        match r {
            Ok(()) => spec_vertex_edges_error(vertex_index, edges@, polygon_sizes@) is None,
            Err(e) => spec_vertex_edges_error(vertex_index, edges@, polygon_sizes@) == Some(e),
        },
{
    let mut j: usize = 0;
    proof {
        assert(edges@.take(0) =~= Seq::<FullAtlasEdge>::empty());
    }
    while j < edges.len()
        invariant
            j <= edges@.len(),
            spec_vertex_edges_error(vertex_index, edges@.take(j as int), polygon_sizes@) is None,
        decreases edges@.len() - j,
    {
        let edge = edges[j];
        proof {
            let t = edges@.take(j + 1);
            assert(t.drop_last() =~= edges@.take(j as int));
            assert(t.last() == edges@[j as int]);
        }
        if edge.polygon_index >= polygon_sizes.len() {
            proof {
                lemma_vertex_edges_error_prefix(vertex_index, edges@, polygon_sizes@, j as int + 1);
            }
            return Err(AtlasEdgeError::MissingPolygon { polygon_index: edge.polygon_index, edge_index: j });
        }
        if edge.point_index >= polygon_sizes[edge.polygon_index] {
            proof {
                lemma_vertex_edges_error_prefix(vertex_index, edges@, polygon_sizes@, j as int + 1);
            }
            return Err(
                AtlasEdgeError::MissingPoint {
                    vertex_index,
                    edge_index: j,
                    point_index: edge.point_index,
                    polygon_index: edge.polygon_index,
                },
            );
        }
        j = j + 1;
    }
    proof {
        assert(edges@.take(j as int) =~= edges@);
    }
    Ok(())
}

/// An error found in a prefix of the edges is the first error of all of them.
proof fn lemma_vertex_edges_error_prefix(
    vertex_index: usize,
    edges: Seq<FullAtlasEdge>,
    polygon_sizes: Seq<usize>,
    n: int,
)
    requires
        0 < n <= edges.len(),
        spec_vertex_edges_error(vertex_index, edges.take(n), polygon_sizes) is Some,
    ensures
        spec_vertex_edges_error(vertex_index, edges, polygon_sizes) == spec_vertex_edges_error(
            vertex_index,
            edges.take(n),
            polygon_sizes,
        ),
    decreases edges.len(),
{
    if n < edges.len() {
        assert(edges.drop_last().take(n) =~= edges.take(n));
        lemma_vertex_edges_error_prefix(vertex_index, edges.drop_last(), polygon_sizes, n);
    } else {
        assert(edges.take(n) =~= edges);
    }
}

pub const INVALID_NEIGHBOR_INDEX_ERR_MSG: &'static str = "Invalid neighbor index in edge";
pub const INVALID_POINT_INDEX_ERR_MSG: &'static str = "Invalid point index in edge";

/// The complaint about one edge's link, if any: its neighbor must be a vertex
/// of the atlas, and its point index must name one of that vertex's edges.
pub open spec fn spec_edge_link_error(edge: FullAtlasEdge, vertices: Seq<FullAtlasVertex>) -> Option<Seq<char>> {
    if edge.neighbor_index >= vertices.len() {
        Some(INVALID_NEIGHBOR_INDEX_ERR_MSG@)
    } else if edge.point_index >= vertices[edge.neighbor_index as int].edges@.len() {
        Some(INVALID_POINT_INDEX_ERR_MSG@)
    } else {
        None
    }
}

/// The first link complaint among `edges`, if any.
pub open spec fn first_edge_link_error(edges: Seq<FullAtlasEdge>, vertices: Seq<FullAtlasVertex>) -> Option<Seq<char>>
    decreases edges.len(),
{
    if edges.len() == 0 {
        None
    } else {
        match first_edge_link_error(edges.drop_last(), vertices) {
            Some(e) => Some(e),
            None => spec_edge_link_error(edges.last(), vertices),
        }
    }
}

/// The first link complaint among the edges of `vs` (vertex by vertex), if any.
pub open spec fn first_link_error(vs: Seq<FullAtlasVertex>, vertices: Seq<FullAtlasVertex>) -> Option<Seq<char>>
    decreases vs.len(),
{
    if vs.len() == 0 {
        None
    } else {
        match first_link_error(vs.drop_last(), vertices) {
            Some(e) => Some(e),
            None => first_edge_link_error(vs.last().edges@, vertices),
        }
    }
}

/// The neighbor link that edge `edge` of vertex `i` (which has `n` edges) gives.
pub open spec fn spec_proto_neighbor(edge: FullAtlasEdge, i: int, n: int) -> ProtoNeighbor {
    ProtoNeighbor {
        proto_vertex_star_index: edge.neighbor_index,
        neighbor_index: edge.neighbor_edge_index,
        parity: edge.parity,
        forward_tile_index: i as usize,
        reverse_tile_index: ((i + n - 1) % n) as usize,
    }
}

/// Whether `star` is the vertex star built from vertex `i` of `vertices`.
pub open spec fn star_links_vertex(star: ProtoVertexStar, vertices: Seq<FullAtlasVertex>, i: int) -> bool {
    let edges = vertices[i].edges@;
    &&& star.index == i
    &&& star.proto_neighbors@.len() == edges.len()
    &&& forall|j: int|
        0 <= j < edges.len() ==> #[trigger] star.proto_neighbors@[j] == spec_proto_neighbor(
            edges[j],
            i,
            edges.len() as int,
        )
}

/// Whether the neighbor link `nb` of vertex `i`, which has `n` edges, is the
/// one its edge `e` describes: it leads to the edge's neighbor vertex, to the
/// neighbor's edge that points back, with the edge's mirroring; its forward
/// tile is `i` and its reverse tile one place back from it around the star.
pub open spec fn links_follow_edges(nb: ProtoNeighbor, e: FullAtlasEdge, i: int, n: int) -> bool {
    &&& nb.proto_vertex_star_index == e.neighbor_index
    &&& nb.neighbor_index == e.neighbor_edge_index
    &&& nb.parity == e.parity
    &&& nb.forward_tile_index == i
    &&& nb.reverse_tile_index == (nb.forward_tile_index + n - 1) % n
}

/// Every neighbor link that an edge gives leads where the edge says, keeps
/// its mirroring, and has its reverse tile one place back from its forward
/// tile around a star of `n` edges.
pub proof fn lemma_proto_neighbor_follows_edge(edge: FullAtlasEdge, i: int, n: int)
    requires
        0 <= i <= usize::MAX,
        0 < n <= usize::MAX,
    ensures
        links_follow_edges(spec_proto_neighbor(edge, i, n), edge, i, n),
{
    let r = (i + n - 1) % n;
    assert(0 <= r < n);
    assert((i as usize) as int == i);
    assert((r as usize) as int == r);
}

/// The link checks find no complaint exactly when every edge of `vs` links
/// to a vertex of the atlas and names one of that vertex's edges.
pub proof fn lemma_no_link_error_iff_edges_link_inside(vs: Seq<FullAtlasVertex>, vertices: Seq<FullAtlasVertex>)
    ensures
        first_link_error(vs, vertices) is None <==> forall|i: int, j: int|
            0 <= i < vs.len() && 0 <= j < vs[i].edges@.len() ==> {
                let e = #[trigger] vs[i].edges@[j];
                e.neighbor_index < vertices.len() && e.point_index < vertices[e.neighbor_index as int].edges@.len()
            },
    decreases vs.len(),
{
    if vs.len() > 0 {
        lemma_no_link_error_iff_edges_link_inside(vs.drop_last(), vertices);
        lemma_no_edge_link_error_iff(vs.last().edges@, vertices);
        let n = vs.len() - 1;
        if first_link_error(vs, vertices) is None {
            assert forall|i: int, j: int| 0 <= i < vs.len() && 0 <= j < vs[i].edges@.len() implies {
                let e = #[trigger] vs[i].edges@[j];
                e.neighbor_index < vertices.len() && e.point_index < vertices[e.neighbor_index as int].edges@.len()
            } by {
                if i < n {
                    assert(vs[i] == vs.drop_last()[i]);
                    assert(vs[i].edges@[j] == vs.drop_last()[i].edges@[j]);
                }
            }
        } else {
            if first_link_error(vs.drop_last(), vertices) is None {
                let j = choose|j: int| 0 <= j < vs.last().edges@.len() && !({
                    let e = #[trigger] vs.last().edges@[j];
                    e.neighbor_index < vertices.len() && e.point_index < vertices[e.neighbor_index as int].edges@.len()
                });
                assert(vs[n].edges@[j] == vs.last().edges@[j]);
            } else {
                let (i, j) = choose|i: int, j: int| 0 <= i < vs.drop_last().len() && 0 <= j < vs.drop_last()[i].edges@.len() && !({
                    let e = #[trigger] vs.drop_last()[i].edges@[j];
                    e.neighbor_index < vertices.len() && e.point_index < vertices[e.neighbor_index as int].edges@.len()
                });
                assert(vs[i] == vs.drop_last()[i]);
                assert(vs[i].edges@[j] == vs.drop_last()[i].edges@[j]);
            }
        }
    }
}

/// The checks of one vertex's edges find no complaint exactly when each edge
/// links inside the atlas.
pub proof fn lemma_no_edge_link_error_iff(edges: Seq<FullAtlasEdge>, vertices: Seq<FullAtlasVertex>)
    ensures
        first_edge_link_error(edges, vertices) is None <==> forall|j: int|
            0 <= j < edges.len() ==> {
                let e = #[trigger] edges[j];
                e.neighbor_index < vertices.len() && e.point_index < vertices[e.neighbor_index as int].edges@.len()
            },
    decreases edges.len(),
{
    if edges.len() > 0 {
        lemma_no_edge_link_error_iff(edges.drop_last(), vertices);
        if first_edge_link_error(edges, vertices) is None {
            assert forall|j: int| 0 <= j < edges.len() implies {
                let e = #[trigger] edges[j];
                e.neighbor_index < vertices.len() && e.point_index < vertices[e.neighbor_index as int].edges@.len()
            } by {
                if j < edges.len() - 1 {
                    assert(edges[j] == edges.drop_last()[j]);
                }
            }
        } else if first_edge_link_error(edges.drop_last(), vertices) is Some {
            let j = choose|j: int| 0 <= j < edges.drop_last().len() && !({
                let e = #[trigger] edges.drop_last()[j];
                e.neighbor_index < vertices.len() && e.point_index < vertices[e.neighbor_index as int].edges@.len()
            });
            assert(edges[j] == edges.drop_last()[j]);
        }
    }
}

/// A link complaint is one of the two link messages.
proof fn lemma_link_error_messages(vs: Seq<FullAtlasVertex>, vertices: Seq<FullAtlasVertex>)
    ensures
        first_link_error(vs, vertices) matches Some(m) ==> m == INVALID_NEIGHBOR_INDEX_ERR_MSG@ || m
            == INVALID_POINT_INDEX_ERR_MSG@,
    decreases vs.len(),
{
    if vs.len() > 0 {
        lemma_link_error_messages(vs.drop_last(), vertices);
        lemma_edge_link_error_messages(vs.last().edges@, vertices);
    }
}

proof fn lemma_edge_link_error_messages(edges: Seq<FullAtlasEdge>, vertices: Seq<FullAtlasVertex>)
    ensures
        first_edge_link_error(edges, vertices) matches Some(m) ==> m == INVALID_NEIGHBOR_INDEX_ERR_MSG@ || m
            == INVALID_POINT_INDEX_ERR_MSG@,
    decreases edges.len(),
{
    if edges.len() > 0 {
        lemma_edge_link_error_messages(edges.drop_last(), vertices);
    }
}

/// Links every vertex of an atlas to its neighbors: one vertex star per
/// vertex, one neighbor link per edge; the first bad link is reported.
pub fn link_proto_vertex_stars(vertices: &Vec<FullAtlasVertex>) -> (r: Result<Vec<ProtoVertexStar>, String>)
    ensures
        match r {
            Ok(stars) => first_link_error(vertices@, vertices@) is None && stars@.len() == vertices@.len()
                && forall|i: int| 0 <= i < stars@.len() ==> star_links_vertex(#[trigger] stars@[i], vertices@, i),
            Err(e) => first_link_error(vertices@, vertices@) == Some(e@),
        },
        r is Ok <==> forall|i: int, j: int|
            0 <= i < vertices@.len() && 0 <= j < vertices@[i].edges@.len() ==> {
                let e = #[trigger] vertices@[i].edges@[j];
                e.neighbor_index < vertices@.len() && e.point_index < vertices@[e.neighbor_index as int].edges@.len()
            },
        r matches Ok(stars) ==> stars@.len() == vertices@.len() && forall|i: int|
            0 <= i < stars@.len() ==> (#[trigger] stars@[i]).index == i && stars@[i].proto_neighbors@.len()
                == vertices@[i].edges@.len(),
        r matches Err(msg) ==> msg@ == INVALID_NEIGHBOR_INDEX_ERR_MSG@ || msg@ == INVALID_POINT_INDEX_ERR_MSG@,
        r matches Ok(stars) ==> forall|i: int, j: int|
            0 <= i < stars@.len() && 0 <= j < stars@[i].proto_neighbors@.len() ==> links_follow_edges(
                #[trigger] stars@[i].proto_neighbors@[j],
                vertices@[i].edges@[j],
                i,
                stars@[i].proto_neighbors@.len() as int,
            ),
{
    proof {
        lemma_no_link_error_iff_edges_link_inside(vertices@, vertices@);
        lemma_link_error_messages(vertices@, vertices@);
    }
    let ghost vs = vertices@;
    let mut stars: Vec<ProtoVertexStar> = Vec::new();
    let mut i: usize = 0;
    proof {
        assert(vs.take(0) =~= Seq::<FullAtlasVertex>::empty());
    }
    while i < vertices.len()
        invariant
            i <= vs.len(),
            vs == vertices@,
            first_link_error(vs.take(i as int), vs) is None,
            stars@.len() == i,
            forall|k: int| 0 <= k < i ==> star_links_vertex(#[trigger] stars@[k], vs, k),
        decreases vs.len() - i,
    {
        let edges = &vertices[i].edges;
        let n = edges.len();
        let mut neighbors: Vec<ProtoNeighbor> = Vec::new();
        let mut j: usize = 0;
        proof {
            assert(edges@.take(0) =~= Seq::<FullAtlasEdge>::empty());
            let t = vs.take(i + 1);
            assert(t.drop_last() =~= vs.take(i as int));
            assert(t.last() == vs[i as int]);
        }
        while j < n
            invariant
                j <= n,
                n == edges@.len(),
                i < vs.len(),
                vs == vertices@,
                edges@ == vs[i as int].edges@,
                first_link_error(vs.take(i as int), vs) is None,
                first_edge_link_error(edges@.take(j as int), vs) is None,
                neighbors@.len() == j,
                forall|k: int| 0 <= k < j ==> #[trigger] neighbors@[k] == spec_proto_neighbor(edges@[k], i as int, n as int),
            decreases n - j,
        {
            let edge = edges[j];
            proof {
                let t = edges@.take(j + 1);
                assert(t.drop_last() =~= edges@.take(j as int));
                assert(t.last() == edges@[j as int]);
            }
            if edge.neighbor_index >= vertices.len() || edge.point_index >= vertices[edge.neighbor_index].edges.len() {
                let msg = if edge.neighbor_index >= vertices.len() {
                    string_from(INVALID_NEIGHBOR_INDEX_ERR_MSG)
                } else {
                    string_from(INVALID_POINT_INDEX_ERR_MSG)
                };
                proof {
                    assert(spec_edge_link_error(edge, vs) == Some(msg@));
                    assert(first_edge_link_error(edges@.take(j + 1), vs) == Some(msg@));
                    lemma_first_edge_link_error_prefix(edges@, vs, j as int + 1);
                    let t = vs.take(i + 1);
                    assert(t.drop_last() =~= vs.take(i as int));
                    assert(t.last().edges@ == edges@);
                    assert(first_link_error(vs.take(i + 1), vs) == Some(msg@));
                    lemma_first_link_error_prefix(vs, vs, i as int + 1);
                }
                return Err(msg);
            }
            let reverse = ((i as u128 + n as u128 - 1) % (n as u128)) as usize;
            neighbors.push(
                ProtoNeighbor {
                    proto_vertex_star_index: edge.neighbor_index,
                    neighbor_index: edge.neighbor_edge_index,
                    parity: edge.parity,
                    forward_tile_index: i,
                    reverse_tile_index: reverse,
                },
            );
            j = j + 1;
        }
        proof {
            assert(edges@.take(j as int) =~= edges@);
        }
        stars.push(ProtoVertexStar { index: i, proto_neighbors: neighbors });
        i = i + 1;
    }
    proof {
        assert(vs.take(i as int) =~= vs);
        assert forall|i: int, j: int|
            0 <= i < stars@.len() && 0 <= j < stars@[i].proto_neighbors@.len() implies links_follow_edges(
                #[trigger] stars@[i].proto_neighbors@[j],
                vertices@[i].edges@[j],
                i,
                stars@[i].proto_neighbors@.len() as int,
            ) by {
            assert(star_links_vertex(stars@[i], vertices@, i));
            assert(stars@[i].proto_neighbors@.len() == stars@[i].proto_neighbors.len());
            lemma_proto_neighbor_follows_edge(vertices@[i].edges@[j], i, stars@[i].proto_neighbors@.len() as int);
        }
    }
    Ok(stars)
}

/// A link error found in a prefix of the edges is the first of all of them.
proof fn lemma_first_edge_link_error_prefix(edges: Seq<FullAtlasEdge>, vertices: Seq<FullAtlasVertex>, n: int)
    requires
        0 < n <= edges.len(),
        first_edge_link_error(edges.take(n), vertices) is Some,
    ensures
        first_edge_link_error(edges, vertices) == first_edge_link_error(edges.take(n), vertices),
    decreases edges.len(),
{
    if n < edges.len() {
        assert(edges.drop_last().take(n) =~= edges.take(n));
        lemma_first_edge_link_error_prefix(edges.drop_last(), vertices, n);
    } else {
        assert(edges.take(n) =~= edges);
    }
}

/// A link error found among a prefix of the vertices is the first of all.
proof fn lemma_first_link_error_prefix(vs: Seq<FullAtlasVertex>, vertices: Seq<FullAtlasVertex>, n: int)
    requires
        0 < n <= vs.len(),
        first_link_error(vs.take(n), vertices) is Some,
    ensures
        first_link_error(vs, vertices) == first_link_error(vs.take(n), vertices),
    decreases vs.len(),
{
    if n < vs.len() {
        assert(vs.drop_last().take(n) =~= vs.take(n));
        lemma_first_link_error_prefix(vs.drop_last(), vertices, n);
    } else {
        assert(vs.take(n) =~= vs);
    }
}


/// The integer side of a vertex star placed in a patch: which vertex star of
/// the atlas it is, whether its link runs in reverse, the number of points in
/// its link, and where the link's arguments start ascending.
#[derive(Debug, Clone, Copy, PartialEq, Eq, Structural)]
pub struct VertexStarLink {
    pub proto_vertex_star_index: usize,
    pub parity: bool,
    pub size: usize,
    pub link_arg_offset: usize,
}

impl VertexStarLink {
    /// The index of the link point just clockwise of the point at
    /// `link_index` (its predecessor in counter-clockwise order): one place
    /// back, or one place forward for a mirrored star, whose link is stored
    /// clockwise.
    pub fn get_clockwise_adjacent_link_index(&self, link_index: usize) -> (i: usize)
        requires
            link_index < self.size,
        ensures
            i < self.size,
            i as int == (if !self.parity {
                (link_index + self.size - 1) % (self.size as int)
            } else {
                (link_index + 1) % (self.size as int)
            }),
    {
        let n = self.size as u128;
        if !self.parity {
            ((link_index as u128 + n - 1) % n) as usize
        } else {
            ((link_index as u128 + 1) % n) as usize
        }
    }

    /// The index of the prototile that lies clockwise of the link point at
    /// `link_index`: one place back, or the same place for a reversed link.
    pub fn get_tile_index(&self, link_index: usize) -> (i: usize)
        requires
            link_index < self.size,
        ensures
            i as int == (if !self.parity {
                (link_index + self.size - 1) % (self.size as int)
            } else {
                link_index as int
            }),
    {
        if !self.parity {
            let n = self.size as u128;
            ((link_index as u128 + n - 1) % n) as usize
        } else {
            link_index
        }
    }

    /// The link index that a search among the sorted link arguments lands on:
    /// the insertion place shifted by the offset and one back.
    pub fn nearest_link_index(&self, insertion_index: usize) -> (i: usize)
        requires
            self.size > 0,
        ensures
            i < self.size,
            i as int == (insertion_index + self.size + self.link_arg_offset - 1) % (self.size as int),
    {
        let n = self.size as u128;
        ((insertion_index as u128 + n + self.link_arg_offset as u128 - 1) % n) as usize
    }

    /// The parity of a neighbor reached through a link whose own parity is `parity`.
    pub fn mutual_parity(&self, parity: bool) -> (p: bool)
        ensures
            p == (self.parity != parity),
    {
        self.parity ^ parity
    }
}

/// A place on the walk around a tile's boundary: the atlas vertex star the
/// walk stands on, whether it is mirrored there, and the index of the link
/// point it came from.
#[derive(Debug, Clone, Copy, PartialEq, Eq, Structural)]
pub struct BoundaryPlace {
    pub proto_vertex_star_index: usize,
    pub parity: bool,
    pub incoming: usize,
}

/// One step of the walk around a tile: from the link point it came from, the
/// walk goes on to the link point just clockwise of it, and stands next on
/// that neighbor's vertex star (mirrored if exactly one of the two links is),
/// having come from the neighbor's link point that points back. The step is
/// the index it went on to and the place it reached; there is none where
/// the place names no vertex star or no link point of it.
pub open spec fn spec_boundary_step(stars: Seq<ProtoVertexStar>, at: BoundaryPlace) -> Option<(usize, BoundaryPlace)> {
    if at.proto_vertex_star_index >= stars.len() {
        None
    } else {
        let ns = stars[at.proto_vertex_star_index as int].proto_neighbors@;
        let n = ns.len() as int;
        if at.incoming >= n {
            None
        } else {
            let forward = if !at.parity {
                (at.incoming + n - 1) % n
            } else {
                (at.incoming + 1) % n
            };
            let nb = ns[forward];
            Some(
                (
                    forward as usize,
                    BoundaryPlace {
                        proto_vertex_star_index: nb.proto_vertex_star_index,
                        parity: at.parity != nb.parity,
                        incoming: nb.neighbor_index,
                    },
                ),
            )
        }
    }
}

/// Whether `step` follows the link of the atlas that a walk standing at `at`
/// takes: the index gone on to is the one clockwise of where the walk came
/// from (one place back around an unmirrored star, one place on around a
/// mirrored one), and the place reached is that link's vertex star, entered
/// through the link point that points back, mirrored exactly when one of
/// the current place and the link is (the two mirrorings cancel).
pub open spec fn step_follows_link(stars: Seq<ProtoVertexStar>, at: BoundaryPlace, step: (usize, BoundaryPlace)) -> bool {
    let ns = stars[at.proto_vertex_star_index as int].proto_neighbors@;
    let n = ns.len() as int;
    let f = step.0 as int;
    &&& at.proto_vertex_star_index < stars.len()
    &&& at.incoming < n
    &&& f < n
    &&& (if at.parity {
        (at.incoming + 1) % n == f
    } else {
        (f + 1) % n == at.incoming
    })
    &&& step.1.proto_vertex_star_index == ns[f].proto_vertex_star_index
    &&& step.1.incoming == ns[f].neighbor_index
    &&& step.1.parity == (at.parity != ns[f].parity)
}

/// A step can be taken exactly where the walk stands on a vertex star of the
/// atlas and came from one of its link points, and every step taken follows
/// the link as `step_follows_link` says.
pub proof fn lemma_boundary_step_follows_link(stars: Seq<ProtoVertexStar>, at: BoundaryPlace)
    ensures
        spec_boundary_step(stars, at) is Some <==> (at.proto_vertex_star_index < stars.len()
            && at.incoming < stars[at.proto_vertex_star_index as int].proto_neighbors@.len()),
        spec_boundary_step(stars, at) matches Some(step) ==> step_follows_link(stars, at, step),
{
    if let Some(step) = spec_boundary_step(stars, at) {
        let n = stars[at.proto_vertex_star_index as int].proto_neighbors@.len() as int;
        assert(n == stars[at.proto_vertex_star_index as int].proto_neighbors.len());
        let f = step.0 as int;
        if at.parity {
            assert(f == (at.incoming + 1) % n);
            assert(0 <= f < n);
        } else {
            assert(f == (at.incoming + n - 1) % n);
            assert(0 <= f < n);
            assert((f + 1) % n == at.incoming) by {
                if at.incoming == 0 {
                    assert(f == n - 1) by {
                        vstd::arithmetic::div_mod::lemma_small_mod((n - 1) as nat, n as nat);
                    }
                    assert((f + 1) % n == 0) by {
                        vstd::arithmetic::div_mod::lemma_mod_self_0(n);
                    }
                } else {
                    assert(f == at.incoming - 1) by {
                        lemma_mod_multiples_vanish(1, at.incoming - 1, n);
                        vstd::arithmetic::div_mod::lemma_small_mod((at.incoming - 1) as nat, n as nat);
                    }
                    vstd::arithmetic::div_mod::lemma_small_mod(at.incoming as nat, n as nat);
                }
            }
        }
    }
}

/// Every step of a walk follows the link that the place before it takes.
pub proof fn lemma_boundary_walk_follows_links(stars: Seq<ProtoVertexStar>, start: BoundaryPlace, k: nat)
    ensures
        spec_boundary_walk(stars, start, k) matches Some(w) ==> w.len() == k && forall|j: int|
            0 <= j < w.len() ==> step_follows_link(
                stars,
                if j == 0 { start } else { w[j - 1].1 },
                #[trigger] w[j],
            ),
    decreases k,
{
    if k > 0 {
        lemma_boundary_walk_follows_links(stars, start, (k - 1) as nat);
        if let Some(p) = spec_boundary_walk(stars, start, (k - 1) as nat) {
            lemma_boundary_step_follows_link(stars, walk_end(start, p));
            if let Some(s) = spec_boundary_step(stars, walk_end(start, p)) {
                let w = p.push(s);
                assert forall|j: int| 0 <= j < w.len() implies step_follows_link(
                    stars,
                    if j == 0 { start } else { w[j - 1].1 },
                    #[trigger] w[j],
                ) by {
                    if j < p.len() {
                        assert(w[j] == p[j]);
                        if j > 0 {
                            assert(w[j - 1] == p[j - 1]);
                        }
                    } else {
                        assert(w[j] == s);
                        if j > 0 {
                            assert(w[j - 1] == p.last());
                        }
                    }
                }
            }
        }
    }
}

/// Where a walk from `start` that took the steps `steps` stands.
pub open spec fn walk_end(start: BoundaryPlace, steps: Seq<(usize, BoundaryPlace)>) -> BoundaryPlace {
    if steps.len() == 0 {
        start
    } else {
        steps.last().1
    }
}

/// The first `k` steps of the walk from `start`, or `None` where one of them
/// cannot be taken.
pub open spec fn spec_boundary_walk(stars: Seq<ProtoVertexStar>, start: BoundaryPlace, k: nat) -> Option<
    Seq<(usize, BoundaryPlace)>,
>
    decreases k,
{
    if k == 0 {
        Some(Seq::empty())
    } else {
        match spec_boundary_walk(stars, start, (k - 1) as nat) {
            None => None,
            Some(p) => match spec_boundary_step(stars, walk_end(start, p)) {
                None => None,
                Some(s) => Some(p.push(s)),
            },
        }
    }
}

/// Takes one step of the walk around a tile (see `spec_boundary_step`).
pub fn boundary_step(stars: &Vec<ProtoVertexStar>, at: BoundaryPlace) -> (r: Option<(usize, BoundaryPlace)>)
    ensures
        r == spec_boundary_step(stars@, at),
        r is Some <==> (at.proto_vertex_star_index < stars@.len()
            && at.incoming < stars@[at.proto_vertex_star_index as int].proto_neighbors@.len()),
        r matches Some(step) ==> step_follows_link(stars@, at, step),
{
    proof {
        lemma_boundary_step_follows_link(stars@, at);
    }
    if at.proto_vertex_star_index >= stars.len() {
        return None;
    }
    let star = &stars[at.proto_vertex_star_index];
    let n = star.proto_neighbors.len();
    if at.incoming >= n {
        return None;
    }
    let link = VertexStarLink {
        proto_vertex_star_index: at.proto_vertex_star_index,
        parity: at.parity,
        size: n,
        link_arg_offset: 0,
    };
    let forward = link.get_clockwise_adjacent_link_index(at.incoming);
    let nb = star.proto_neighbors[forward];
    Some(
        (
            forward,
            BoundaryPlace {
                proto_vertex_star_index: nb.proto_vertex_star_index,
                parity: link.mutual_parity(nb.parity),
                incoming: nb.neighbor_index,
            },
        ),
    )
}

/// A walk that cannot be taken for `j` steps cannot be taken for more.
proof fn lemma_boundary_walk_stays_none(stars: Seq<ProtoVertexStar>, start: BoundaryPlace, j: nat, k: nat)
    requires
        j <= k,
        spec_boundary_walk(stars, start, j) is None,
    ensures
        spec_boundary_walk(stars, start, k) is None,
    decreases k - j,
{
    if j < k {
        lemma_boundary_walk_stays_none(stars, start, j + 1, k);
    }
}

/// Walks `steps` steps around a tile's boundary from `start`: the index
/// taken at each vertex star and the place reached, or `None` where the atlas
/// has no vertex star or link point for a step.
pub fn walk_tile_boundary(stars: &Vec<ProtoVertexStar>, start: BoundaryPlace, steps: usize) -> (r: Option<
    Vec<(usize, BoundaryPlace)>,
>)
    ensures
        match r {
            Some(v) => spec_boundary_walk(stars@, start, steps as nat) == Some(v@) && v@.len() == steps,
            None => spec_boundary_walk(stars@, start, steps as nat) is None,
        },
        r matches Some(v) ==> forall|j: int|
            0 <= j < v@.len() ==> step_follows_link(stars@, if j == 0 { start } else { v@[j - 1].1 }, #[trigger] v@[j]),
{
    proof {
        lemma_boundary_walk_follows_links(stars@, start, steps as nat);
    }
    let mut out: Vec<(usize, BoundaryPlace)> = Vec::new();
    let mut at = start;
    let mut i: usize = 0;
    while i < steps
        invariant
            i <= steps,
            out@.len() == i,
            spec_boundary_walk(stars@, start, i as nat) == Some(out@),
            at == walk_end(start, out@),
        decreases steps - i,
    {
        match boundary_step(stars, at) {
            None => {
                proof {
                    lemma_boundary_walk_stays_none(stars@, start, (i + 1) as nat, steps as nat);
                }
                return None;
            },
            Some(s) => {
                out.push(s);
                at = s.1;
            },
        }
        i = i + 1;
    }
    Some(out)
}

/// Walking `a` steps and then `b` more from where the walk stands is walking
/// `a + b` steps: the steps are the first walk's followed by the second's,
/// and one can be taken exactly when both can.
pub proof fn lemma_boundary_walk_composes(stars: Seq<ProtoVertexStar>, start: BoundaryPlace, a: nat, b: nat)
    ensures
        spec_boundary_walk(stars, start, a + b) == (match spec_boundary_walk(stars, start, a) {
            None => None,
            Some(p) => match spec_boundary_walk(stars, walk_end(start, p), b) {
                None => None,
                Some(q) => Some(p + q),
            },
        }),
    decreases b,
{
    if b == 0 {
        match spec_boundary_walk(stars, start, a) {
            None => {},
            Some(p) => {
                assert(p + Seq::<(usize, BoundaryPlace)>::empty() =~= p);
            },
        }
    } else {
        lemma_boundary_walk_composes(stars, start, a, (b - 1) as nat);
        assert((a + b - 1) as nat == a + (b - 1) as nat);
        match spec_boundary_walk(stars, start, a) {
            None => {},
            Some(p) => {
                let mid = walk_end(start, p);
                match spec_boundary_walk(stars, mid, (b - 1) as nat) {
                    None => {},
                    Some(q) => {
                        assert(walk_end(start, p + q) == walk_end(mid, q)) by {
                            if q.len() == 0 {
                                assert(p + q =~= p);
                            } else {
                                assert((p + q).last() == q.last());
                            }
                        }
                        match spec_boundary_step(stars, walk_end(mid, q)) {
                            None => {},
                            Some(s) => {
                                assert((p + q).push(s) =~= p + q.push(s));
                            },
                        }
                    },
                }
            },
        }
    }
}

/// Stepping clockwise in an unreversed link is stepping one place back around
/// the vertex star: `get_clockwise_adjacent_link_index` agrees with
/// `ProtoVertexStar::index_from_size(size, i, -1)`.
pub proof fn lemma_clockwise_is_step_back(size: int, i: int)
    requires
        0 <= i < size,
    ensures
        (i + size - 1) % size == (i + (-1)) % size,
{
    lemma_mod_multiples_vanish(1, i - 1, size);
}

/// What inserting a tile into a patch changed about the tiles to draw.
#[derive(Debug, Clone, Copy, PartialEq, Eq, Structural)]
pub enum TileDiff {
    Added,
    Removed,
}

/// What the patch does after inserting a tile: the change to report (if any),
/// and whether the tile was new, so that its boundary must still be walked.
#[derive(Debug, Clone, Copy, PartialEq, Eq, Structural)]
pub struct TileInsertOutcome {
    pub diff: Option<TileDiff>,
    pub is_new: bool,
}

/// Decides what inserting a tile means, given whether the patch already held
/// it (and then whether it was included) and whether the tile is included now:
/// a new included tile, or a known excluded one that becomes included, is added.
pub fn tile_insert_outcome(existing_included: Option<bool>, included: bool) -> (o: TileInsertOutcome)
    ensures
        o.is_new == existing_included is None,
        o.diff == (if included && existing_included != Some(true) {
            Some(TileDiff::Added)
        } else {
            None
        }),
{
    match existing_included {
        None => TileInsertOutcome {
            diff: if included {
                Some(TileDiff::Added)
            } else {
                None
            },
            is_new: true,
        },
        Some(existing) => TileInsertOutcome {
            diff: if included && !existing {
                Some(TileDiff::Added)
            } else {
                None
            },
            is_new: false,
        },
    }
}

/// Whether a leaf of the spatial tree must split: never at the deepest
/// level, otherwise once it holds more items than the threshold.
pub fn leaf_is_full(level: u8, max_depth: u8, item_count: usize, splitting_threshold: usize) -> (full: bool)
    ensures
        full == (level != max_depth && item_count > splitting_threshold),
{
    if level == max_depth {
        return false;
    }
    item_count > splitting_threshold
}

/// The text of one neighbor in the adjacency listing: `(star,neighbor)`.
pub open spec fn pair_text(n: ProtoNeighbor) -> Seq<char> {
    "("@ + decimal(n.proto_vertex_star_index as nat) + ","@ + decimal(n.neighbor_index as nat) + ")"@
}

/// The neighbors of a vertex star, separated by spaces.
pub open spec fn pairs_text(ns: Seq<ProtoNeighbor>) -> Seq<char>
    decreases ns.len(),
{
    if ns.len() == 0 {
        Seq::empty()
    } else if ns.len() == 1 {
        pair_text(ns[0])
    } else {
        pairs_text(ns.drop_last()) + " "@ + pair_text(ns.last())
    }
}

/// One block per vertex star: `adjacencies:`, then its index and its
/// neighbors on a line.
pub open spec fn adjacency_lines(stars: Seq<ProtoVertexStar>) -> Seq<char>
    decreases stars.len(),
{
    if stars.len() == 0 {
        Seq::empty()
    } else {
        adjacency_lines(stars.drop_last()) + "adjacencies:\n"@ + decimal((stars.len() - 1) as nat) + ": "@
            + pairs_text(stars.last().proto_neighbors@) + "\n"@
    }
}

/// The head of an atlas's text: its title, underlined, the adjacency of
/// each vertex star, and the heading of the vertex stars that follow.
pub open spec fn spec_atlas_head(stars: Seq<ProtoVertexStar>) -> Seq<char> {
    "Atlas\n-----\n"@ + adjacency_lines(stars) + "\nvertex stars:\n"@
}

/// Writes the head of an atlas's text (see `spec_atlas_head`).
pub fn fmt_atlas_head(stars: &Vec<ProtoVertexStar>) -> (text: String)
    ensures
        text@ == spec_atlas_head(stars@),
{
    let mut text = String::new();
    push_str(&mut text, "Atlas\n-----\n");
    let mut i: usize = 0;
    proof {
        reveal_strlit("Atlas\n-----\n");
        assert(stars@.take(0) =~= Seq::<ProtoVertexStar>::empty());
    }
    while i < stars.len()
        invariant
            i <= stars.len(),
            text@ == "Atlas\n-----\n"@ + adjacency_lines(stars@.take(i as int)),
        decreases stars.len() - i,
    {
        let ghost before = text@;
        push_str(&mut text, "adjacencies:\n");
        push_decimal(&mut text, i as u64);
        push_str(&mut text, ": ");
        let ns = &stars[i].proto_neighbors;
        let ghost line_start = text@;
        let mut j: usize = 0;
        assert(ns@.take(0) =~= Seq::<ProtoNeighbor>::empty());
        while j < ns.len()
            invariant
                j <= ns.len(),
                text@ == line_start + pairs_text(ns@.take(j as int)),
            decreases ns.len() - j,
        {
            let ghost t = ns@.take(j + 1);
            assert(t.drop_last() =~= ns@.take(j as int));
            if j > 0 {
                push_str(&mut text, " ");
            }
            push_str(&mut text, "(");
            push_decimal(&mut text, ns[j].proto_vertex_star_index as u64);
            push_str(&mut text, ",");
            push_decimal(&mut text, ns[j].neighbor_index as u64);
            push_str(&mut text, ")");
            j = j + 1;
            assert(text@ =~= line_start + pairs_text(ns@.take(j as int)));
        }
        assert(ns@.take(j as int) =~= ns@);
        push_str(&mut text, "\n");
        i = i + 1;
        assert(stars@.take(i as int).drop_last() =~= stars@.take(i - 1));
        assert(text@ =~= "Atlas\n-----\n"@ + adjacency_lines(stars@.take(i as int)));
    }
    assert(stars@.take(i as int) =~= stars@);
    push_str(&mut text, "\nvertex stars:\n");
    text
}

/// Moving around a vertex star by `d1` places and then by `d2` places is
/// moving by `d1 + d2` places; in particular moving by `d` and back by `-d`
/// returns to the start.
pub proof fn lemma_index_steps_compose(size: int, i: int, d1: int, d2: int)
    requires
        size > 0,
        0 <= i < size,
    ensures
        ((i + d1) % size + d2) % size == (i + d1 + d2) % size,
        ((i + d1) % size + (-d1)) % size == i,
{
    lemma_add_mod_noop(i + d1, d2, size);
    assert(d2 % size % size == d2 % size) by {
        vstd::arithmetic::div_mod::lemma_mod_twice(d2, size);
    }
    lemma_add_mod_noop((i + d1) % size, d2, size);
    lemma_add_mod_noop(i + d1, -d1, size);
    lemma_add_mod_noop((i + d1) % size, -d1, size);
    vstd::arithmetic::div_mod::lemma_mod_twice(i + d1, size);
    vstd::arithmetic::div_mod::lemma_small_mod(i as nat, size as nat);
}

} // verus!
