use tilings::atlas::{
    boundary_step, check_vertex_edges, fmt_atlas_head, leaf_is_full, link_proto_vertex_stars, tile_insert_outcome,
    walk_tile_boundary, AtlasEdgeError, BoundaryPlace, FullAtlasEdge, FullAtlasVertex, ProtoNeighbor, ProtoVertexStar,
    TileDiff, VertexStarLink,
};

fn edge(polygon_index: usize, point_index: usize, neighbor_index: usize, parity: bool) -> FullAtlasEdge {
    FullAtlasEdge { id: 0, polygon_index, point_index, neighbor_index, neighbor_edge_index: 0, parity }
}

fn glued(neighbor_index: usize, neighbor_edge_index: usize, parity: bool) -> FullAtlasEdge {
    FullAtlasEdge { id: 0, polygon_index: 0, point_index: 0, neighbor_index, neighbor_edge_index, parity }
}

fn link(parity: bool, size: usize, link_arg_offset: usize) -> VertexStarLink {
    VertexStarLink { proto_vertex_star_index: 0, parity, size, link_arg_offset }
}

#[test]
fn patch_test_vertex_star_mutual_parity() {
    let vertex_star = link(false, 4, 0);
    assert_eq!(false, vertex_star.mutual_parity(false));
    assert_eq!(true, vertex_star.mutual_parity(true));

    let vertex_star = link(true, 4, 0);
    assert_eq!(true, vertex_star.mutual_parity(false));
    assert_eq!(false, vertex_star.mutual_parity(true));
}

#[test]
fn lib_test_vertex_star_mutual_parity() {
    let vertex_star = link(false, 4, 0);
    assert_eq!(false, vertex_star.mutual_parity(false));
    assert_eq!(true, vertex_star.mutual_parity(true));

    let vertex_star = link(true, 4, 0);
    assert_eq!(true, vertex_star.mutual_parity(false));
    assert_eq!(false, vertex_star.mutual_parity(true));
}

#[test]
fn link_indices_wrap_around() {
    let l = link(false, 4, 0);
    assert_eq!(3, l.get_clockwise_adjacent_link_index(0));
    assert_eq!(1, l.get_clockwise_adjacent_link_index(2));
    assert_eq!(3, l.get_tile_index(0));
    let r = link(true, 4, 0);
    // a mirrored star stores its link clockwise: the point clockwise of 0 is 1
    assert_eq!(1, r.get_clockwise_adjacent_link_index(0));
    assert_eq!(0, r.get_clockwise_adjacent_link_index(3));
    assert_eq!(0, r.get_tile_index(0));
    let o = link(false, 5, 2);
    assert_eq!(1, o.nearest_link_index(0));
    assert_eq!(0, o.nearest_link_index(4));
}

#[test]
fn index_moves_around_the_star() {
    assert_eq!(1, ProtoVertexStar::index_from_size(4, 3, 2));
    assert_eq!(3, ProtoVertexStar::index_from_size(4, 0, -1));
    assert_eq!(2, ProtoVertexStar::index_from_size(4, 1, -7));
    // moving by d and back by -d returns to the start
    for i in 0..5 {
        for d in -12isize..12 {
            let j = ProtoVertexStar::index_from_size(5, i, d);
            assert_eq!(i, ProtoVertexStar::index_from_size(5, j, -d));
        }
    }
    let star = ProtoVertexStar { index: 0, proto_neighbors: vec![neighbor(0, 0); 3] };
    assert_eq!(3, star.size());
    assert_eq!(2, star.index(0, -1));
}

fn neighbor(proto_vertex_star_index: usize, neighbor_index: usize) -> ProtoNeighbor {
    ProtoNeighbor {
        proto_vertex_star_index,
        neighbor_index,
        parity: false,
        forward_tile_index: 0,
        reverse_tile_index: 0,
    }
}

#[test]
fn vertex_edge_checks() {
    let sizes = vec![4, 6];
    assert_eq!(Ok(()), check_vertex_edges(0, &vec![edge(0, 3, 0, false), edge(1, 5, 0, false)], &sizes));
    assert_eq!(
        Err(AtlasEdgeError::MissingPolygon { polygon_index: 2, edge_index: 1 }),
        check_vertex_edges(0, &vec![edge(0, 0, 0, false), edge(2, 0, 0, false), edge(0, 9, 0, false)], &sizes)
    );
    assert_eq!(
        Err(AtlasEdgeError::MissingPoint { vertex_index: 7, edge_index: 0, point_index: 4, polygon_index: 0 }),
        check_vertex_edges(7, &vec![edge(0, 4, 0, false)], &sizes)
    );
}

#[test]
fn linking_vertex_stars() {
    let vertices = vec![
        FullAtlasVertex { id: 1, edges: vec![glued(1, 1, false), glued(1, 0, true)] },
        FullAtlasVertex { id: 2, edges: vec![glued(0, 1, false), glued(0, 0, true)] },
    ];
    let stars = link_proto_vertex_stars(&vertices).unwrap();
    assert_eq!(2, stars.len());
    assert_eq!(1, stars[1].index);
    assert_eq!(
        ProtoNeighbor { proto_vertex_star_index: 1, neighbor_index: 0, parity: true, forward_tile_index: 0, reverse_tile_index: 1 },
        stars[0].proto_neighbors[1]
    );
    assert_eq!(
        ProtoNeighbor { proto_vertex_star_index: 0, neighbor_index: 1, parity: false, forward_tile_index: 1, reverse_tile_index: 0 },
        stars[1].proto_neighbors[0]
    );

    let bad = vec![FullAtlasVertex { id: 1, edges: vec![edge(0, 0, 5, false)] }];
    assert_eq!(Err(String::from("Invalid neighbor index in edge")), link_proto_vertex_stars(&bad));
    let bad = vec![FullAtlasVertex { id: 1, edges: vec![edge(0, 3, 0, false)] }];
    assert_eq!(Err(String::from("Invalid point index in edge")), link_proto_vertex_stars(&bad));
}

#[test]
fn square_atlas_neighbors_point_back() {
    // the 4.4.4.4 tiling: one vertex, four squares, edge k glued to edge k + 2
    let vertices = vec![FullAtlasVertex { id: 1, edges: (0..4).map(|k| glued(0, (k + 2) % 4, false)).collect() }];
    let stars = link_proto_vertex_stars(&vertices).unwrap();
    assert_eq!(1, stars.len());
    let recorded: Vec<usize> = stars[0].proto_neighbors.iter().map(|n| n.neighbor_index).collect();
    assert_eq!(vec![2, 3, 0, 1], recorded);
    assert!(stars[0].proto_neighbors.iter().all(|n| n.proto_vertex_star_index == 0));
}

#[test]
fn atlas_head_text() {
    let stars = vec![
        ProtoVertexStar { index: 0, proto_neighbors: vec![neighbor(1, 0), neighbor(1, 2)] },
        ProtoVertexStar { index: 1, proto_neighbors: vec![neighbor(0, 1)] },
    ];
    assert_eq!(
        "Atlas\n-----\nadjacencies:\n0: (1,0) (1,2)\nadjacencies:\n1: (0,1)\n\nvertex stars:\n",
        fmt_atlas_head(&stars)
    );
    assert_eq!("Atlas\n-----\n\nvertex stars:\n", fmt_atlas_head(&vec![]));
}

#[test]
fn tile_insertions() {
    let o = tile_insert_outcome(None, true);
    assert_eq!(Some(TileDiff::Added), o.diff);
    assert!(o.is_new);
    let o = tile_insert_outcome(None, false);
    assert_eq!(None, o.diff);
    let o = tile_insert_outcome(Some(false), true);
    assert_eq!(Some(TileDiff::Added), o.diff);
    assert!(!o.is_new);
    assert_eq!(None, tile_insert_outcome(Some(true), true).diff);
}

#[test]
fn leaf_fullness() {
    assert!(!leaf_is_full(3, 3, 100, 1));
    assert!(leaf_is_full(1, 3, 2, 1));
    assert!(!leaf_is_full(1, 3, 1, 1));
}

fn square_stars() -> Vec<ProtoVertexStar> {
    let vertices = vec![FullAtlasVertex { id: 1, edges: (0..4).map(|k| glued(0, (k + 2) % 4, false)).collect() }];
    link_proto_vertex_stars(&vertices).unwrap()
}

fn place(proto_vertex_star_index: usize, parity: bool, incoming: usize) -> BoundaryPlace {
    BoundaryPlace { proto_vertex_star_index, parity, incoming }
}

#[test]
fn walk_around_a_square() {
    let stars = square_stars();
    let start = place(0, false, 0);
    let walk = walk_tile_boundary(&stars, start, 4).unwrap();
    let forward: Vec<usize> = walk.iter().map(|s| s.0).collect();
    let incoming: Vec<usize> = walk.iter().map(|s| s.1.incoming).collect();
    assert_eq!(vec![3, 0, 1, 2], forward);
    assert_eq!(vec![1, 2, 3, 0], incoming);
    // four steps around a square come back to where the walk started
    assert_eq!(start, walk[3].1);
}

#[test]
fn mirrored_walk_turns_the_other_way() {
    let stars = square_stars();
    let walk = walk_tile_boundary(&stars, place(0, true, 0), 4).unwrap();
    let forward: Vec<usize> = walk.iter().map(|s| s.0).collect();
    assert_eq!(vec![1, 0, 3, 2], forward);
    assert!(walk.iter().all(|s| s.1.parity));
    assert_eq!(place(0, true, 0), walk[3].1);
}

#[test]
fn walk_steps_compose() {
    let stars = square_stars();
    let start = place(0, false, 1);
    let whole = walk_tile_boundary(&stars, start, 5).unwrap();
    let first = walk_tile_boundary(&stars, start, 2).unwrap();
    let rest = walk_tile_boundary(&stars, first[1].1, 3).unwrap();
    let joined: Vec<(usize, BoundaryPlace)> = first.into_iter().chain(rest.into_iter()).collect();
    assert_eq!(whole, joined);
    assert_eq!(Some(Vec::new()), walk_tile_boundary(&stars, start, 0));
}

#[test]
fn walk_stops_at_missing_links() {
    let stars = square_stars();
    assert_eq!(None, boundary_step(&stars, place(1, false, 0)));
    assert_eq!(None, boundary_step(&stars, place(0, false, 4)));
    assert_eq!(Some((3, place(0, false, 1))), boundary_step(&stars, place(0, false, 0)));
    // a neighbor that names a vertex star the atlas lacks: the first step is
    // taken, the second cannot be
    let broken = vec![ProtoVertexStar { index: 0, proto_neighbors: vec![neighbor(0, 0), neighbor(5, 0)] }];
    assert_eq!(Some(vec![(1, place(5, false, 0))]), walk_tile_boundary(&broken, place(0, false, 0), 1));
    assert_eq!(None, walk_tile_boundary(&broken, place(0, false, 0), 2));
}
