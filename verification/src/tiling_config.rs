//! Decoding of a serialized tiling: components name a prototile and one of
//! its points, neighbors are two or three numbers, and each adjacency builds a
//! vertex from a list of components and its neighbors.

use vstd::prelude::*;
use crate::strings::{decimal, push_char, push_decimal, push_str, string_from};
use vstd::arithmetic::div_mod::lemma_div_denominator;

verus! {

/// A prototile of the tiling's table: its name and its number of points.
#[derive(Debug, Clone, PartialEq, Eq)]
pub struct ProtoTileEntry {
    pub name: String,
    pub size: usize,
}

/// A point of a prototile: the prototile's index in the table, and the point's index.
#[derive(Debug, Clone, Copy, PartialEq, Eq, Structural)]
pub struct Component(pub usize, pub usize);

/// A neighbor of a vertex: the neighboring vertex star, the neighbor's index in
/// it, and whether the neighbor is mirrored.
#[derive(Debug, Clone, Copy, PartialEq, Eq, Structural)]
pub struct Neighbor(pub usize, pub usize, pub bool);

/// A vertex: its components, and its neighbors (neighbors[i] lies between
/// components[i] and components[i+1]).
#[derive(Debug, Clone, PartialEq, Eq)]
pub struct Vertex {
    pub components: Vec<Component>,
    pub neighbors: Vec<Neighbor>,
}

/// A decoded tiling: its vertices.
#[derive(Debug, Clone, PartialEq, Eq)]
pub struct Tiling(pub Vec<Vertex>);

/// A component as it is serialized: a prototile's name and a point index.
#[derive(Debug, Clone, PartialEq, Eq)]
pub struct SerializedComponent {
    pub prototile: String,
    pub point: usize,
}

/// A neighbor as it is serialized: two or three numbers.
#[derive(Debug, Clone, PartialEq, Eq)]
pub struct SerializedNeighbor(pub Vec<usize>);

/// A vertex as it is serialized: its components.
#[derive(Debug, Clone, PartialEq, Eq)]
pub struct SerializedVertex(pub Vec<SerializedComponent>);

/// An adjacency as it is serialized: the index of a serialized vertex and its neighbors.
#[derive(Debug, Clone, PartialEq, Eq)]
pub struct SerializedAdjacency {
    pub vertex: usize,
    pub neighbors: Vec<SerializedNeighbor>,
}

/// The index of the first table entry named `name`, if any.
pub open spec fn spec_find_entry(entries: Seq<ProtoTileEntry>, name: Seq<char>) -> Option<int>
    decreases entries.len(),
{
    if entries.len() == 0 {
        None
    } else {
        match spec_find_entry(entries.drop_last(), name) {
            Some(i) => Some(i),
            None => if entries.last().name@ == name {
                Some(entries.len() - 1)
            } else {
                None
            },
        }
    }
}

/// What decoding a component gives: the prototile's index and the point, or
/// the message of the error.
pub open spec fn spec_as_component(
    prototile: Seq<char>,
    point: usize,
    entries: Seq<ProtoTileEntry>,
) -> Result<(usize, usize), Seq<char>> {
    match spec_find_entry(entries, prototile) {
        None => Err("no proto_tile found with name "@ + prototile),
        Some(i) => if point >= entries[i].size {
            Err("component was specified with invalid point for prototile "@ + prototile
                + ": point out of bounds"@)
        } else {
            Ok((i as usize, point))
        },
    }
}

/// The numbers written in decimal and separated by commas.
pub open spec fn numbers_text(v: Seq<usize>) -> Seq<char>
    decreases v.len(),
{
    if v.len() == 0 {
        Seq::empty()
    } else if v.len() == 1 {
        decimal(v[0] as nat)
    } else {
        numbers_text(v.drop_last()) + seq![','] + decimal(v.last() as nat)
    }
}

/// What decoding a neighbor gives, or the message of the error: two numbers
/// are an unmirrored neighbor, a third number must be 0 or 1 (mirrored).
pub open spec fn spec_as_neighbor(v: Seq<usize>) -> Result<(usize, usize, bool), Seq<char>> {
    if v.len() < 2 || v.len() > 3 {
        Err("neighbor expected 2-3 members, received ["@ + numbers_text(v) + "]"@)
    } else if v.len() == 2 {
        Ok((v[0], v[1], false))
    } else if !(v[2] == 0 || v[2] == 1) {
        Err("neighbor expected 3rd member to be 0 or 1, received ["@ + numbers_text(v) + "]"@)
    } else {
        Ok((v[0], v[1], v[2] == 1))
    }
}

/// Whether a decoded component matches its specification.
pub open spec fn component_is(c: Component, r: (usize, usize)) -> bool {
    c.0 == r.0 && c.1 == r.1
}

/// Whether a decoded neighbor matches its specification.
pub open spec fn neighbor_is(n: Neighbor, r: (usize, usize, bool)) -> bool {
    n.0 == r.0 && n.1 == r.1 && n.2 == r.2
}

/// Whether `c` is what `sc` decodes to.
pub open spec fn component_ok(c: Component, sc: SerializedComponent, entries: Seq<ProtoTileEntry>) -> bool {
    spec_as_component(sc.prototile@, sc.point, entries) matches Ok(x) && component_is(c, x)
}

/// Whether `n` is what `sn` decodes to.
pub open spec fn neighbor_ok(n: Neighbor, sn: SerializedNeighbor) -> bool {
    spec_as_neighbor(sn.0@) matches Ok(x) && neighbor_is(n, x)
}

/// The error of the first component that does not decode, if any.
pub open spec fn first_component_error(
    comps: Seq<SerializedComponent>,
    entries: Seq<ProtoTileEntry>,
) -> Option<Seq<char>>
    decreases comps.len(),
{
    if comps.len() == 0 {
        None
    } else {
        match first_component_error(comps.drop_last(), entries) {
            Some(e) => Some(e),
            None => match spec_as_component(comps.last().prototile@, comps.last().point, entries) {
                Err(e) => Some(e),
                Ok(_) => None,
            },
        }
    }
}

/// The error of the first neighbor that does not decode, if any.
pub open spec fn first_neighbor_error(neighbors: Seq<SerializedNeighbor>) -> Option<Seq<char>>
    decreases neighbors.len(),
{
    if neighbors.len() == 0 {
        None
    } else {
        match first_neighbor_error(neighbors.drop_last()) {
            Some(e) => Some(e),
            None => match spec_as_neighbor(neighbors.last().0@) {
                Err(e) => Some(e),
                Ok(_) => None,
            },
        }
    }
}

/// Appends the numbers, separated by commas.
fn push_numbers(s: &mut String, v: &Vec<usize>)
    ensures
        final(s)@ == old(s)@ + numbers_text(v@),
{
    let mut i: usize = 0;
    proof {
        assert(v@.take(0) =~= Seq::<usize>::empty());
        assert(old(s)@ + numbers_text(v@.take(0)) =~= old(s)@);
    }
    while i < v.len()
        invariant
            i <= v@.len(),
            s@ == old(s)@ + numbers_text(v@.take(i as int)),
        decreases v@.len() - i,
    {
        let ghost before = s@;
        if i > 0 {
            push_char(s, ',');
        }
        push_decimal(s, v[i] as u64);
        proof {
            let t = v@.take(i + 1);
            assert(t.drop_last() =~= v@.take(i as int));
            assert(t.last() == v@[i as int]);
            if i == 0 {
                assert(s@ =~= old(s)@ + numbers_text(t));
            } else {
                assert(s@ =~= old(s)@ + numbers_text(t));
            }
        }
        i = i + 1;
    }
    proof {
        assert(v@.take(i as int) =~= v@);
    }
}

impl SerializedComponent {
    /// Finds the component's prototile in the table and checks its point index.
    pub fn as_component(&self, proto_tiles: &Vec<ProtoTileEntry>) -> (r: Result<Component, String>)
        ensures
            match r {
                Ok(c) => spec_as_component(self.prototile@, self.point, proto_tiles@) matches Ok(
                    v,
                ) && component_is(c, v),
                Err(e) => spec_as_component(self.prototile@, self.point, proto_tiles@) == Err::<
                    (usize, usize),
                    Seq<char>,
                >(e@),
            },
    {
        let mut i: usize = 0;
        let mut found: Option<usize> = None;
        while i < proto_tiles.len() && found.is_none()
            invariant
                i <= proto_tiles@.len(),
                match found {
                    None => spec_find_entry(proto_tiles@.take(i as int), self.prototile@) is None,
                    Some(k) => spec_find_entry(proto_tiles@, self.prototile@) == Some(k as int) && k
                        < proto_tiles@.len(),
                },
            decreases proto_tiles@.len() - i,
        {
            proof {
                let t = proto_tiles@.take(i + 1);
                assert(t.drop_last() =~= proto_tiles@.take(i as int));
                assert(t.last() == proto_tiles@[i as int]);
            }
            if proto_tiles[i].name == self.prototile {
                proof {
                    assert(proto_tiles@.take(i + 1 - 1) =~= proto_tiles@.take(i as int));
                    lemma_find_entry_prefix(proto_tiles@, self.prototile@, i as int + 1);
                }
                found = Some(i);
            }
            i = i + 1;
        }
        proof {
            if found is None {
                assert(proto_tiles@.take(i as int) =~= proto_tiles@);
            }
        }
        match found {
            None => {
                let mut msg = String::new();
                push_str(&mut msg, "no proto_tile found with name ");
                push_str(&mut msg, self.prototile.as_str());
                Err(msg)
            },
            Some(k) => {
                if self.point >= proto_tiles[k].size {
                    let mut msg = String::new();
                    push_str(&mut msg, "component was specified with invalid point for prototile ");
                    push_str(&mut msg, self.prototile.as_str());
                    push_str(&mut msg, ": point out of bounds");
                    Err(msg)
                } else {
                    Ok(Component(k, self.point))
                }
            },
        }
    }

    /// Renames the component's prototile.
    pub fn update_name(&mut self, new_name: String)
        ensures
            final(self).prototile == new_name,
            final(self).point == old(self).point,
    {
        self.prototile = new_name;
    }
}

/// A match found in a prefix of the table is the first match of the whole table.
proof fn lemma_find_entry_prefix(entries: Seq<ProtoTileEntry>, name: Seq<char>, n: int)
    requires
        0 < n <= entries.len(),
        spec_find_entry(entries.take(n - 1), name) is None,
        entries[n - 1].name@ == name,
    ensures
        spec_find_entry(entries, name) == Some(n - 1),
    decreases entries.len(),
{
    assert(entries.take(n).drop_last() =~= entries.take(n - 1));
    assert(entries.take(n).last() == entries[n - 1]);
    if n < entries.len() {
        assert(entries.drop_last().take(n) =~= entries.take(n));
        assert(entries.drop_last().take(n - 1) =~= entries.take(n - 1));
        lemma_find_entry_prefix(entries.drop_last(), name, n);
    } else {
        assert(entries.take(n) =~= entries);
    }
}

impl SerializedNeighbor {
    /// Decodes a neighbor: two numbers are an unmirrored neighbor, a third
    /// number (0 or 1) tells whether it is mirrored.
    pub fn as_neighbor(&self) -> (r: Result<Neighbor, String>)
        ensures
            match r {
                Ok(n) => spec_as_neighbor(self.0@) matches Ok(v) && neighbor_is(n, v),
                Err(e) => spec_as_neighbor(self.0@) == Err::<(usize, usize, bool), Seq<char>>(e@),
            },
    {
        let len = self.0.len();
        if len < 2 || len > 3 {
            let mut msg = String::new();
            push_str(&mut msg, "neighbor expected 2-3 members, received [");
            push_numbers(&mut msg, &self.0);
            push_str(&mut msg, "]");
            return Err(msg);
        }
        let proto_vertex_star_index = self.0[0];
        let neighbor_index = self.0[1];
        if len == 2 {
            return Ok(Neighbor(proto_vertex_star_index, neighbor_index, false));
        }
        let parity = self.0[2];
        if !(parity == 0 || parity == 1) {
            let mut msg = String::new();
            push_str(&mut msg, "neighbor expected 3rd member to be 0 or 1, received [");
            push_numbers(&mut msg, &self.0);
            push_str(&mut msg, "]");
            return Err(msg);
        }
        Ok(Neighbor(proto_vertex_star_index, neighbor_index, parity == 1))
    }
}


/// The error of decoding an adjacency into a vertex, if any: an unknown vertex
/// index, then the first bad component, then the first bad neighbor.
pub open spec fn spec_as_vertex_error(
    adjacency: SerializedAdjacency,
    entries: Seq<ProtoTileEntry>,
    ser_vertices: Seq<SerializedVertex>,
) -> Option<Seq<char>> {
    if adjacency.vertex >= ser_vertices.len() {
        Some("out of bounds vertex index "@ + decimal(adjacency.vertex as nat))
    } else {
        match first_component_error(ser_vertices[adjacency.vertex as int].0@, entries) {
            Some(e) => Some(e),
            None => first_neighbor_error(adjacency.neighbors@),
        }
    }
}

/// Whether `v` is the vertex that an error-free adjacency decodes to: its
/// components and neighbors decoded one for one.
pub open spec fn vertex_decodes_to(
    v: Vertex,
    adjacency: SerializedAdjacency,
    entries: Seq<ProtoTileEntry>,
    ser_vertices: Seq<SerializedVertex>,
) -> bool {
    let comps = ser_vertices[adjacency.vertex as int].0@;
    &&& v.components@.len() == comps.len()
    &&& forall|i: int|
        0 <= i < comps.len() ==> component_ok(#[trigger] v.components@[i], comps[i], entries)
    &&& v.neighbors@.len() == adjacency.neighbors@.len()
    &&& forall|i: int|
        0 <= i < adjacency.neighbors@.len() ==> neighbor_ok(#[trigger] v.neighbors@[i], adjacency.neighbors@[i])
}

/// The error of the first adjacency that does not decode, if any.
pub open spec fn first_adjacency_error(
    adjacencies: Seq<SerializedAdjacency>,
    entries: Seq<ProtoTileEntry>,
    ser_vertices: Seq<SerializedVertex>,
) -> Option<Seq<char>>
    decreases adjacencies.len(),
{
    if adjacencies.len() == 0 {
        None
    } else {
        match first_adjacency_error(adjacencies.drop_last(), entries, ser_vertices) {
            Some(e) => Some(e),
            None => spec_as_vertex_error(adjacencies.last(), entries, ser_vertices),
        }
    }
}

impl SerializedAdjacency {
    /// Decodes the adjacency into a vertex: the serialized vertex it names
    /// gives the components; the first error met is returned.
    pub fn as_vertex(
        &self,
        proto_tiles: &Vec<ProtoTileEntry>,
        ser_vertices: &Vec<SerializedVertex>,
    ) -> (r: Result<Vertex, String>)
        ensures
            match r {
                Ok(v) => spec_as_vertex_error(*self, proto_tiles@, ser_vertices@) is None
                    && vertex_decodes_to(v, *self, proto_tiles@, ser_vertices@),
                Err(e) => spec_as_vertex_error(*self, proto_tiles@, ser_vertices@) == Some(e@),
            },
    {
        if self.vertex >= ser_vertices.len() {
            let mut msg = String::new();
            push_str(&mut msg, "out of bounds vertex index ");
            push_decimal(&mut msg, self.vertex as u64);
            return Err(msg);
        }
        let ser_components = &ser_vertices[self.vertex].0;
        let ghost comps = ser_components@;
        let mut components: Vec<Component> = Vec::new();
        let mut i: usize = 0;
        proof {
            assert(comps.take(0) =~= Seq::<SerializedComponent>::empty());
        }
        while i < ser_components.len()
            invariant
                i <= comps.len(),
                comps == ser_components@,
                self.vertex < ser_vertices@.len(),
                comps == ser_vertices@[self.vertex as int].0@,
                first_component_error(comps.take(i as int), proto_tiles@) is None,
                components@.len() == i,
                forall|k: int|
                    0 <= k < i ==> component_ok(#[trigger] components@[k], comps[k], proto_tiles@),
            decreases comps.len() - i,
        {
            let r = ser_components[i].as_component(proto_tiles);
            proof {
                let t = comps.take(i + 1);
                assert(t.drop_last() =~= comps.take(i as int));
                assert(t.last() == comps[i as int]);
            }
            match r {
                Err(e) => {
                    proof {
                        assert(first_component_error(comps.take(i + 1), proto_tiles@) == Some(e@));
                        lemma_first_component_error_prefix(comps, proto_tiles@, i as int + 1);
                        assert(comps == ser_vertices@[self.vertex as int].0@);
                    }
                    return Err(e);
                },
                Ok(c) => {
                    components.push(c);
                },
            }
            i = i + 1;
        }
        proof {
            assert(comps.take(i as int) =~= comps);
        }
        let ghost ns = self.neighbors@;
        let mut neighbors: Vec<Neighbor> = Vec::new();
        let mut j: usize = 0;
        proof {
            assert(ns.take(0) =~= Seq::<SerializedNeighbor>::empty());
        }
        while j < self.neighbors.len()
            invariant
                j <= ns.len(),
                ns == self.neighbors@,
                self.vertex < ser_vertices@.len(),
                comps == ser_vertices@[self.vertex as int].0@,
                first_component_error(comps, proto_tiles@) is None,
                first_neighbor_error(ns.take(j as int)) is None,
                neighbors@.len() == j,
                forall|k: int|
                    0 <= k < j ==> neighbor_ok(#[trigger] neighbors@[k], ns[k]),
            decreases ns.len() - j,
        {
            let r = self.neighbors[j].as_neighbor();
            proof {
                let t = ns.take(j + 1);
                assert(t.drop_last() =~= ns.take(j as int));
                assert(t.last() == ns[j as int]);
            }
            match r {
                Err(e) => {
                    proof {
                        assert(first_neighbor_error(ns.take(j + 1)) == Some(e@));
                        lemma_first_neighbor_error_prefix(ns, j as int + 1);
                        assert(comps == ser_vertices@[self.vertex as int].0@);
                    }
                    return Err(e);
                },
                Ok(n) => {
                    neighbors.push(n);
                },
            }
            j = j + 1;
        }
        proof {
            assert(ns.take(j as int) =~= ns);
        }
        Ok(Vertex { components, neighbors })
    }
}

/// An error met in a prefix is the first error of the whole sequence.
proof fn lemma_first_component_error_prefix(
    comps: Seq<SerializedComponent>,
    entries: Seq<ProtoTileEntry>,
    n: int,
)
    requires
        0 < n <= comps.len(),
        first_component_error(comps.take(n), entries) is Some,
    ensures
        first_component_error(comps, entries) == first_component_error(comps.take(n), entries),
    decreases comps.len(),
{
    if n < comps.len() {
        assert(comps.drop_last().take(n) =~= comps.take(n));
        lemma_first_component_error_prefix(comps.drop_last(), entries, n);
    } else {
        assert(comps.take(n) =~= comps);
    }
}

/// An error met in a prefix is the first error of the whole sequence.
proof fn lemma_first_neighbor_error_prefix(neighbors: Seq<SerializedNeighbor>, n: int)
    requires
        0 < n <= neighbors.len(),
        first_neighbor_error(neighbors.take(n)) is Some,
    ensures
        first_neighbor_error(neighbors) == first_neighbor_error(neighbors.take(n)),
    decreases neighbors.len(),
{
    if n < neighbors.len() {
        assert(neighbors.drop_last().take(n) =~= neighbors.take(n));
        lemma_first_neighbor_error_prefix(neighbors.drop_last(), n);
    } else {
        assert(neighbors.take(n) =~= neighbors);
    }
}

/// An error met in a prefix is the first error of the whole sequence.
proof fn lemma_first_adjacency_error_prefix(
    adjacencies: Seq<SerializedAdjacency>,
    entries: Seq<ProtoTileEntry>,
    ser_vertices: Seq<SerializedVertex>,
    n: int,
)
    requires
        0 < n <= adjacencies.len(),
        first_adjacency_error(adjacencies.take(n), entries, ser_vertices) is Some,
    ensures
        first_adjacency_error(adjacencies, entries, ser_vertices) == first_adjacency_error(
            adjacencies.take(n),
            entries,
            ser_vertices,
        ),
    decreases adjacencies.len(),
{
    if n < adjacencies.len() {
        assert(adjacencies.drop_last().take(n) =~= adjacencies.take(n));
        lemma_first_adjacency_error_prefix(adjacencies.drop_last(), entries, ser_vertices, n);
    } else {
        assert(adjacencies.take(n) =~= adjacencies);
    }
}

impl Tiling {
    /// Decodes every adjacency into a vertex, in order; the first error met is
    /// returned.
    pub fn from_adjacencies(
        adjacencies: &Vec<SerializedAdjacency>,
        proto_tiles: &Vec<ProtoTileEntry>,
        ser_vertices: &Vec<SerializedVertex>,
    ) -> (r: Result<Tiling, String>)
        ensures
            match r {
                Ok(t) => first_adjacency_error(adjacencies@, proto_tiles@, ser_vertices@) is None
                    && t.0@.len() == adjacencies@.len() && forall|i: int|
                    0 <= i < adjacencies@.len() ==> vertex_decodes_to(
                        #[trigger] t.0@[i],
                        adjacencies@[i],
                        proto_tiles@,
                        ser_vertices@,
                    ),
                Err(e) => first_adjacency_error(adjacencies@, proto_tiles@, ser_vertices@) == Some(e@),
            },
    {
        let ghost adjs = adjacencies@;
        let mut vertices: Vec<Vertex> = Vec::new();
        let mut i: usize = 0;
        proof {
            assert(adjs.take(0) =~= Seq::<SerializedAdjacency>::empty());
        }
        while i < adjacencies.len()
            invariant
                i <= adjs.len(),
                adjs == adjacencies@,
                first_adjacency_error(adjs.take(i as int), proto_tiles@, ser_vertices@) is None,
                vertices@.len() == i,
                forall|k: int|
                    0 <= k < i ==> vertex_decodes_to(
                        #[trigger] vertices@[k],
                        adjs[k],
                        proto_tiles@,
                        ser_vertices@,
                    ),
            decreases adjs.len() - i,
        {
            let r = adjacencies[i].as_vertex(proto_tiles, ser_vertices);
            proof {
                let t = adjs.take(i + 1);
                assert(t.drop_last() =~= adjs.take(i as int));
                assert(t.last() == adjs[i as int]);
            }
            match r {
                Err(e) => {
                    proof {
                        lemma_first_adjacency_error_prefix(adjs, proto_tiles@, ser_vertices@, i as int + 1);
                    }
                    return Err(e);
                },
                Ok(v) => {
                    vertices.push(v);
                },
            }
            i = i + 1;
        }
        proof {
            assert(adjs.take(i as int) =~= adjs);
        }
        Ok(Tiling(vertices))
    }
}

/// `52` to the power `j`.
pub open spec fn pow52(j: nat) -> nat
    decreases j,
{
    if j == 0 {
        1
    } else {
        52 * pow52((j - 1) as nat)
    }
}

/// The `j`-th base-52 digit of `index`, least significant first.
pub open spec fn name_digit(index: nat, j: nat) -> nat {
    (index / pow52(j)) % 52
}

/// The byte of a base-52 digit: `A` to `Z` for the first 26 digits, and the
/// byte 97 above the digit for the others.
pub open spec fn name_byte(d: nat) -> nat {
    if d < 26 {
        65 + d
    } else {
        97 + d
    }
}

/// Whether the first `len` digits of `index` give bytes that make a text:
/// a digit of 31 or more gives a byte above 127 that cannot start a
/// character, and no text has it.
pub open spec fn name_is_text(index: nat, len: nat) -> bool {
    forall|j: nat| j < len ==> #[trigger] name_digit(index, j) < 31
}

/// The obfuscated name of the `index`-th prototile: one character per digit
/// of `index` in base 52, least significant first.
pub open spec fn spec_obfuscated_name(index: nat, len: nat) -> Seq<char> {
    Seq::new(len, |j: int| name_byte(name_digit(index, j as nat)) as char)
}

/// The obfuscated name of the `index`-th prototile, of `len` characters
/// (the number of base-52 digits of `index`, at least one).
pub fn obfuscated_name(index: usize, len: usize) -> (name: String)
    requires
        name_is_text(index as nat, len as nat),
    ensures
        name@ == spec_obfuscated_name(index as nat, len as nat),
{
    let mut name = String::new();
    let mut val: usize = index;
    let mut j: usize = 0;
    while j < len
        invariant
            j <= len,
            name_is_text(index as nat, len as nat),
            pow52(j as nat) > 0,
            val == index as nat / pow52(j as nat),
            name@ == spec_obfuscated_name(index as nat, j as nat),
        decreases len - j,
    {
        assert(name_digit(index as nat, j as nat) < 31);
        let remainder: u8 = (val % 52) as u8;
        let c: char = if remainder < 26 { (65u8 + remainder) as char } else { (97u8 + remainder) as char };
        push_char(&mut name, c);
        proof {
            lemma_div_denominator(index as int, pow52(j as nat) as int, 52);
            assert(pow52((j + 1) as nat) == pow52(j as nat) * 52) by (nonlinear_arith)
                requires
                    pow52((j + 1) as nat) == 52 * pow52(j as nat),
            ;
        }
        val = val / 52;
        j = j + 1;
        assert(name@ =~= spec_obfuscated_name(index as nat, j as nat));
    }
    name
}

/// The texts of a list of strings.
pub open spec fn texts(v: Seq<String>) -> Seq<Seq<char>> {
    v.map_values(|t: String| t@)
}

/// The index of the first text equal to `t`, if any.
pub open spec fn first_index_of_text(ts: Seq<Seq<char>>, t: Seq<char>) -> Option<int>
    decreases ts.len(),
{
    if ts.len() == 0 {
        None
    } else {
        match first_index_of_text(ts.drop_last(), t) {
            Some(i) => Some(i),
            None => if ts.last() == t {
                Some(ts.len() - 1)
            } else {
                None
            },
        }
    }
}

proof fn lemma_first_index_of_text_bounds(ts: Seq<Seq<char>>, t: Seq<char>)
    ensures
        first_index_of_text(ts, t) matches Some(i) ==> 0 <= i < ts.len() && ts[i] == t,
        ts.contains(t) ==> first_index_of_text(ts, t) is Some,
    decreases ts.len(),
{
    if ts.len() > 0 {
        lemma_first_index_of_text_bounds(ts.drop_last(), t);
        if ts.contains(t) && first_index_of_text(ts.drop_last(), t) is None {
            let j = choose|j: int| 0 <= j < ts.len() && ts[j] == t;
            if j < ts.len() - 1 {
                assert(ts.drop_last()[j] == t);
            }
        }
    }
}

/// Whether every component of the vertices names one of `names`.
pub open spec fn all_components_named(vertices: Seq<SerializedVertex>, names: Seq<Seq<char>>) -> bool {
    forall|v: int, c: int| 0 <= v < vertices.len() && 0 <= c < vertices[v].0@.len()
        ==> names.contains(#[trigger] vertices[v].0@[c].prototile@)
}

/// The new name of a component's prototile: the new name at the place of its
/// name.
pub open spec fn renamed(c: SerializedComponent, names: Seq<Seq<char>>, new_names: Seq<Seq<char>>) -> (Seq<char>, usize) {
    (new_names[first_index_of_text(names, c.prototile@).unwrap()], c.point)
}

/// Finds the place of a name among `names`.
fn find_name(names: &Vec<String>, name: &String) -> (r: Option<usize>)
    ensures
        r matches Some(i) ==> first_index_of_text(texts(names@), name@) == Some(i as int),
        r is None ==> first_index_of_text(texts(names@), name@) is None,
{
    let mut i: usize = 0;
    while i < names.len()
        invariant
            i <= names.len(),
            first_index_of_text(texts(names@).take(i as int), name@) is None,
        decreases names.len() - i,
    {
        assert(texts(names@).take(i + 1).drop_last() =~= texts(names@).take(i as int));
        if names[i] == *name {
            proof {
                lemma_first_text_prefix(texts(names@), name@, i + 1);
            }
            return Some(i);
        }
        i = i + 1;
    }
    assert(texts(names@).take(i as int) =~= texts(names@));
    None
}

proof fn lemma_first_text_prefix(ts: Seq<Seq<char>>, t: Seq<char>, n: int)
    requires
        0 < n <= ts.len(),
        first_index_of_text(ts.take(n), t) is Some,
    ensures
        first_index_of_text(ts, t) == first_index_of_text(ts.take(n), t),
    decreases ts.len(),
{
    if n < ts.len() {
        assert(ts.drop_last().take(n) =~= ts.take(n));
        lemma_first_text_prefix(ts.drop_last(), t, n);
    } else {
        assert(ts.take(n) =~= ts);
    }
}

/// Renames the prototiles that the components of the vertices name: the
/// name at place `i` of `names` becomes the name at place `i` of
/// `new_names`; points stay. A component whose prototile is not among
/// `names` has no new name (the map lookup panics there).
pub fn rename_prototiles(
    vertices: &Vec<SerializedVertex>,
    names: &Vec<String>,
    new_names: &Vec<String>,
) -> (r: Vec<SerializedVertex>)
    requires
        names@.len() == new_names@.len(),
        all_components_named(vertices@, texts(names@)),
    ensures
        r@.len() == vertices@.len(),
        forall|v: int| 0 <= v < r@.len() ==> (#[trigger] r@[v]).0@.len() == vertices@[v].0@.len(),
        forall|v: int, c: int| 0 <= v < r@.len() && 0 <= c < r@[v].0@.len()
            ==> (#[trigger] r@[v].0@[c].prototile@, r@[v].0@[c].point)
                == renamed(vertices@[v].0@[c], texts(names@), texts(new_names@)),
{
    let mut out: Vec<SerializedVertex> = Vec::new();
    let mut v: usize = 0;
    while v < vertices.len()
        invariant
            v <= vertices.len(),
            names@.len() == new_names@.len(),
            all_components_named(vertices@, texts(names@)),
            out@.len() == v,
            forall|t: int| 0 <= t < v ==> (#[trigger] out@[t]).0@.len() == vertices@[t].0@.len(),
            forall|t: int, c: int| 0 <= t < v && 0 <= c < out@[t].0@.len()
                ==> (#[trigger] out@[t].0@[c].prototile@, out@[t].0@[c].point)
                    == renamed(vertices@[t].0@[c], texts(names@), texts(new_names@)),
        decreases vertices.len() - v,
    {
        let components = &vertices[v].0;
        let mut renamed_components: Vec<SerializedComponent> = Vec::new();
        let mut c: usize = 0;
        while c < components.len()
            invariant
                c <= components.len(),
                v < vertices.len(),
                components@ == vertices@[v as int].0@,
                names@.len() == new_names@.len(),
                all_components_named(vertices@, texts(names@)),
                renamed_components@.len() == c,
                forall|k: int| 0 <= k < c ==> (#[trigger] renamed_components@[k].prototile@, renamed_components@[k].point)
                    == renamed(components@[k], texts(names@), texts(new_names@)),
            decreases components.len() - c,
        {
            let component = &components[c];
            proof {
                assert(texts(names@).contains(vertices@[v as int].0@[c as int].prototile@));
                lemma_first_index_of_text_bounds(texts(names@), component.prototile@);
            }
            let k = match find_name(names, &component.prototile) {
                Some(k) => k,
                None => {
                    assert(false);
                    0
                },
            };
            let mut new_component = SerializedComponent {
                prototile: string_from(component.prototile.as_str()),
                point: component.point,
            };
            new_component.update_name(string_from(new_names[k].as_str()));
            assert(texts(new_names@)[k as int] == new_names@[k as int]@);
            renamed_components.push(new_component);
            c = c + 1;
        }
        out.push(SerializedVertex(renamed_components));
        v = v + 1;
    }
    out
}

} // verus!
