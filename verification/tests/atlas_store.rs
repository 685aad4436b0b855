use tilings::atlas::FullAtlasEdge;
use tilings::atlas_store::{
    assemble_vertices, full_atlas_edges, index_map, lookup, group_runs, plan_atlas_edges, plan_neighbor_edges,
    polygon_ids_to_fetch, polygon_point_positions, AtlasEdge, AtlasEdgePost, FullAtlasEdgePost, FullAtlasVertexPost,
};
use tilings::error::Error;

fn row(id: i32, source_id: i32, sink_id: i32, polygon_point_id: i32, sequence: i32, neighbor_edge_id: Option<i32>) -> AtlasEdge {
    AtlasEdge { id, atlas_id: 1, polygon_point_id, source_id, sink_id, parity: false, sequence, neighbor_edge_id }
}

fn not_found() -> Error {
    Error::Diesel(String::from("Record not found"))
}

#[test]
fn last_occurrence_wins() {
    let m = index_map(&vec![5, 6, 5]);
    assert_eq!(Some(2), lookup(&m, 5));
    assert_eq!(Some(1), lookup(&m, 6));
    assert_eq!(None, lookup(&m, 7));
}

#[test]
fn positions_of_polygon_points() {
    let positions = polygon_point_positions(&vec![vec![10, 11], vec![20]]);
    let mut sorted = positions.clone();
    sorted.sort();
    assert_eq!(vec![(10, (0, 0)), (11, (0, 1)), (20, (1, 0))], sorted);
    // sorted inputs come out merged in order
    assert_eq!(vec![(10, (0, 0)), (11, (0, 1)), (20, (1, 0))], positions);
}

#[test]
fn polygons_to_fetch_once_each() {
    assert_eq!(vec![3, 1, 2], polygon_ids_to_fetch(vec![3, 1, 3, 2, 1]));
    assert_eq!(Vec::<i32>::new(), polygon_ids_to_fetch(vec![]));
}

#[test]
fn runs_of_equal_keys() {
    let e = |id: i32| FullAtlasEdge { id, polygon_index: 0, point_index: 0, neighbor_index: 0, neighbor_edge_index: 0, parity: false };
    let groups = group_runs(&vec![(1, e(1)), (1, e(2)), (2, e(3)), (1, e(4))]);
    assert_eq!(vec![vec![e(1), e(2)], vec![e(3)], vec![e(4)]], groups);
    assert_eq!(Vec::<Vec<FullAtlasEdge>>::new(), group_runs(&vec![]));
}

#[test]
fn reading_back_an_atlas() {
    // two vertices (ids 100, 200), one polygon with points 10 and 11
    let vertex_ids = vec![100, 200];
    let positions = polygon_point_positions(&vec![vec![10, 11]]);
    let rows = vec![
        row(1, 200, 100, 11, 0, Some(2)),
        row(2, 100, 200, 10, 0, Some(1)),
        row(3, 100, 200, 11, 1, Some(1)),
    ];
    let vertices = assemble_vertices(&vertex_ids, &rows, &positions).unwrap();
    assert_eq!(2, vertices.len());
    assert_eq!(100, vertices[0].id);
    assert_eq!(
        vec![
            FullAtlasEdge { id: 2, polygon_index: 0, point_index: 0, neighbor_index: 1, neighbor_edge_index: 0, parity: false },
            FullAtlasEdge { id: 3, polygon_index: 0, point_index: 1, neighbor_index: 1, neighbor_edge_index: 0, parity: false },
        ],
        vertices[0].edges
    );
    assert_eq!(200, vertices[1].id);
    assert_eq!(
        vec![FullAtlasEdge { id: 1, polygon_index: 0, point_index: 1, neighbor_index: 0, neighbor_edge_index: 0, parity: false }],
        vertices[1].edges
    );
}

#[test]
fn missing_rows_are_not_found() {
    let vertex_ids = vec![100];
    let positions = polygon_point_positions(&vec![vec![10]]);
    assert_eq!(Err(not_found()), full_atlas_edges(&vertex_ids, &vec![row(1, 100, 100, 10, 0, None)], &positions));
    assert_eq!(Err(not_found()), full_atlas_edges(&vertex_ids, &vec![row(1, 100, 100, 99, 0, Some(1))], &positions));
    assert_eq!(Err(not_found()), full_atlas_edges(&vertex_ids, &vec![row(1, 100, 999, 10, 0, Some(1))], &positions));
    assert_eq!(Err(not_found()), full_atlas_edges(&vertex_ids, &vec![row(1, 100, 100, 10, 0, Some(5))], &positions));
    assert!(assemble_vertices(&vertex_ids, &vec![row(1, 100, 100, 10, 0, None)], &positions).is_err());
}

fn edge_post(polygon_index: usize, point_index: usize, neighbor_index: usize, neighbor_edge_index: usize) -> FullAtlasEdgePost {
    FullAtlasEdgePost { polygon_index, point_index, neighbor_index, neighbor_edge_index, parity: true }
}

#[test]
fn planning_edge_rows() {
    let polygons = vec![vec![10, 11]];
    let vertex_ids = vec![100, 200];
    let vertices = vec![
        FullAtlasVertexPost { edges: vec![edge_post(0, 0, 1, 0), edge_post(0, 1, 1, 0)] },
        FullAtlasVertexPost { edges: vec![edge_post(0, 1, 0, 1)] },
    ];
    let rows = plan_atlas_edges(7, &polygons, &vertex_ids, &vertices).unwrap();
    assert_eq!(
        vec![
            vec![
                AtlasEdgePost { atlas_id: 7, polygon_point_id: 10, source_id: 100, sink_id: 200, parity: true, sequence: 0, neighbor_edge_id: None },
                AtlasEdgePost { atlas_id: 7, polygon_point_id: 11, source_id: 100, sink_id: 200, parity: true, sequence: 1, neighbor_edge_id: None },
            ],
            vec![AtlasEdgePost { atlas_id: 7, polygon_point_id: 11, source_id: 200, sink_id: 100, parity: true, sequence: 0, neighbor_edge_id: None }],
        ],
        rows
    );
    let updates = plan_neighbor_edges(&vertices, &vec![vec![1, 2], vec![3]]).unwrap();
    assert_eq!(vec![(1, 3), (2, 3), (3, 2)], updates);
}

#[test]
fn bad_indices_are_bad_requests() {
    let polygons = vec![vec![10, 11]];
    let vertex_ids = vec![100, 200];
    let vertices = vec![
        FullAtlasVertexPost { edges: vec![edge_post(0, 0, 1, 0), edge_post(0, 2, 1, 0)] },
        FullAtlasVertexPost { edges: vec![edge_post(0, 1, 0, 1)] },
    ];
    let (made, err) = plan_atlas_edges(7, &polygons, &vertex_ids, &vertices).unwrap_err();
    assert_eq!(Error::Status(400), err);
    assert_eq!(1, made.len());
    assert_eq!(1, made[0].len());
    assert_eq!(10, made[0][0].polygon_point_id);

    let vertices = vec![FullAtlasVertexPost { edges: vec![edge_post(0, 0, 1, 0), edge_post(0, 0, 1, 5)] }];
    let (done, err) = plan_neighbor_edges(&vertices, &vec![vec![1, 2], vec![3]]).unwrap_err();
    assert_eq!(Error::Status(400), err);
    assert_eq!(vec![(1, 3)], done);
}
