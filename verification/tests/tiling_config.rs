use tilings::tiling_config::{
    obfuscated_name, rename_prototiles, Component, Neighbor, ProtoTileEntry, SerializedAdjacency, SerializedComponent,
    SerializedNeighbor, SerializedVertex, Tiling,
};

fn table() -> Vec<ProtoTileEntry> {
    vec![
        ProtoTileEntry { name: String::from("square"), size: 4 },
        ProtoTileEntry { name: String::from("hexagon"), size: 6 },
    ]
}

fn component(name: &str, point: usize) -> SerializedComponent {
    SerializedComponent { prototile: String::from(name), point }
}

#[test]
fn component_decoding() {
    assert_eq!(Ok(Component(1, 5)), component("hexagon", 5).as_component(&table()));
    assert_eq!(
        Err(String::from("component was specified with invalid point for prototile square: point out of bounds")),
        component("square", 4).as_component(&table())
    );
    assert_eq!(
        Err(String::from("no proto_tile found with name triangle")),
        component("triangle", 0).as_component(&table())
    );
}

#[test]
fn component_renaming() {
    let mut c = component("square", 2);
    c.update_name(String::from("A"));
    assert_eq!(component("A", 2), c);
}

#[test]
fn neighbor_decoding() {
    assert_eq!(Ok(Neighbor(1, 2, false)), SerializedNeighbor(vec![1, 2]).as_neighbor());
    assert_eq!(Ok(Neighbor(1, 2, true)), SerializedNeighbor(vec![1, 2, 1]).as_neighbor());
    assert_eq!(Ok(Neighbor(1, 2, false)), SerializedNeighbor(vec![1, 2, 0]).as_neighbor());
    assert_eq!(
        Err(String::from("neighbor expected 2-3 members, received [1]")),
        SerializedNeighbor(vec![1]).as_neighbor()
    );
    assert_eq!(
        Err(String::from("neighbor expected 2-3 members, received [1,2,3,4]")),
        SerializedNeighbor(vec![1, 2, 3, 4]).as_neighbor()
    );
    assert_eq!(
        Err(String::from("neighbor expected 3rd member to be 0 or 1, received [1,2,7]")),
        SerializedNeighbor(vec![1, 2, 7]).as_neighbor()
    );
}

#[test]
fn adjacency_decoding() {
    let vertices = vec![SerializedVertex(vec![component("square", 0), component("hexagon", 3)])];
    let adjacency = SerializedAdjacency { vertex: 0, neighbors: vec![SerializedNeighbor(vec![0, 1])] };
    let v = adjacency.as_vertex(&table(), &vertices).unwrap();
    assert_eq!(vec![Component(0, 0), Component(1, 3)], v.components);
    assert_eq!(vec![Neighbor(0, 1, false)], v.neighbors);

    let bad = SerializedAdjacency { vertex: 3, neighbors: vec![] };
    assert_eq!(Err(String::from("out of bounds vertex index 3")), bad.as_vertex(&table(), &vertices));
}

#[test]
fn tiling_stops_at_first_error() {
    let vertices = vec![SerializedVertex(vec![component("square", 0)])];
    let good = SerializedAdjacency { vertex: 0, neighbors: vec![SerializedNeighbor(vec![0, 0])] };
    let bad = SerializedAdjacency { vertex: 0, neighbors: vec![SerializedNeighbor(vec![0])] };
    let tiling = Tiling::from_adjacencies(&vec![good.clone(), good.clone()], &table(), &vertices).unwrap();
    assert_eq!(2, tiling.0.len());
    assert_eq!(
        Err(String::from("neighbor expected 2-3 members, received [0]")),
        Tiling::from_adjacencies(&vec![good, bad], &table(), &vertices)
    );
}

#[test]
fn obfuscated_names() {
    assert_eq!("A", obfuscated_name(0, 1));
    assert_eq!("Z", obfuscated_name(25, 1));
    assert_eq!("{", obfuscated_name(26, 1));
    assert_eq!("AB", obfuscated_name(52, 2));
    assert_eq!("CB", obfuscated_name(54, 2));
}

#[test]
fn prototiles_renamed_in_components() {
    let vertices = vec![
        SerializedVertex(vec![component("square", 0), component("hexagon", 3)]),
        SerializedVertex(vec![component("hexagon", 1)]),
    ];
    let names = vec![String::from("hexagon"), String::from("square")];
    let new_names = vec![String::from("A"), String::from("B")];
    let renamed = rename_prototiles(&vertices, &names, &new_names);
    assert_eq!(
        vec![
            SerializedVertex(vec![component("B", 0), component("A", 3)]),
            SerializedVertex(vec![component("A", 1)]),
        ],
        renamed
    );
}
