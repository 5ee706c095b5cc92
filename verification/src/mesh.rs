//! Meshes: their records in an M3D file, how they are read and written, and
//! the law that a written mesh reads back as itself.

use vstd::prelude::*;
use vstd::bytes::spec_u32_to_le_bytes;
use crate::le::{
    Cursor, read_as, take_u32, take_u64, take_i8, take_vec_i8, take_vec_i32, i8_bytes,
    vec_i8_bytes, vec_i32_bytes, read_vec_i8, read_vec_i32, write_u32, write_i8,
    write_vec_i8, write_vec_i32, lemma_take_u32, lemma_take_i8, lemma_take_vec_i8,
    lemma_take_vec_i32,
};
use crate::many::{
    take_many, many_bytes, lemma_take_many_fails, lemma_many_bytes_push, lemma_take_many_bytes,
    lemma_assoc, lemma_many_bytes_concat, lemma_take_many_bytes_mapped, lemma_take_many_all,
};
use crate::geometry::{Vertex, Polygon, Geometry, GeometryV};
use crate::float::{
    take_f32, f32_bytes, read_f32, write_f32, is_signaling, lemma_take_f32,
    lemma_narrow_not_signaling,
};

verus! {

/// The version that every mesh record starts with.
pub const MAGIC_VERSION: u32 = 8;

/// A box around a mesh.
#[derive(Clone, Copy, Debug, PartialEq, Eq)]
pub struct Bounds {
    pub coord_min: [i32; 3],
    pub coord_max: [i32; 3],
}

/// The rigid-body parameters of a mesh, each a 32-bit float held as its bits:
/// the volume, the centre of mass and the inertia tensor (column-major). The
/// file stores each as a 64-bit float, which is read as the nearest 32-bit
/// float.
#[derive(Clone, Copy, Debug, PartialEq, Eq)]
pub struct Physics {
    pub volume: u32,
    pub rcm: [u32; 3],
    pub jacobi: [[u32; 3]; 3],
}

/// A mesh: its geometry, bounds, placement in its parent, radius and physics.
#[derive(Clone, Debug, PartialEq, Eq)]
pub struct Mesh<G> {
    pub geometry: G,
    pub bounds: Bounds,
    pub parent_off: [i32; 3],
    pub parent_rot: [i32; 3],
    pub max_radius: u32,
    pub physics: Physics,
}

impl<G: View> View for Mesh<G> {
    type V = Mesh<G::V>;

    open spec fn view(&self) -> Mesh<G::V> {
        Mesh {
            geometry: self.geometry@,
            bounds: self.bounds,
            parent_off: self.parent_off,
            parent_rot: self.parent_rot,
            max_radius: self.max_radius,
            physics: self.physics,
        }
    }
}

/// What a reading step returned, `r`, and where it left the input, `after`,
/// agree with what the spec reader `p` takes from the input, `r` taken by its
/// view.
pub open spec fn read_as_view<T: View>(r: Option<T>, after: Seq<u8>, p: Option<(T::V, Seq<u8>)>) -> bool {
    match p {
        Some((v, rest)) => r is Some && r.unwrap()@ == v && after == rest,
        None => r is None,
    }
}

// ----------------------------------------------------------------------------
// Record layouts

/// Reads `u32` fields.
pub open spec fn u32_reader() -> spec_fn(Seq<u8>) -> Option<(u32, Seq<u8>)> {
    |s: Seq<u8>| take_u32(s)
}

/// Writes `u32` fields.
pub open spec fn u32_writer() -> spec_fn(u32) -> Seq<u8> {
    |n: u32| spec_u32_to_le_bytes(n)
}

/// Reads 32-bit floats stored as 64-bit floats.
pub open spec fn f32_reader() -> spec_fn(Seq<u8>) -> Option<(u32, Seq<u8>)> {
    |s: Seq<u8>| take_f32(s)
}

/// Writes 32-bit floats as 64-bit floats.
pub open spec fn f32_writer() -> spec_fn(u32) -> Seq<u8> {
    |x: u32| f32_bytes(x)
}

/// A corner record: a `u32` position index and a `u32` normal index, each
/// kept as its low 16 bits.
pub open spec fn take_vertex(s: Seq<u8>) -> Option<(Vertex, Seq<u8>)> {
    match take_u32(s) {
        None => None,
        Some((pos, s)) => match take_u32(s) {
            None => None,
            Some((normal, s)) => Some((Vertex { pos: pos as u16, normal: normal as u16 }, s)),
        },
    }
}

/// The bytes of a corner record.
pub open spec fn vertex_bytes(v: Vertex) -> Seq<u8> {
    spec_u32_to_le_bytes(v.pos as u32) + spec_u32_to_le_bytes(v.normal as u32)
}

/// Reads corner records.
pub open spec fn vertex_reader() -> spec_fn(Seq<u8>) -> Option<(Vertex, Seq<u8>)> {
    |s: Seq<u8>| take_vertex(s)
}

/// Writes corner records.
pub open spec fn vertex_writer() -> spec_fn(Vertex) -> Seq<u8> {
    |v: Vertex| vertex_bytes(v)
}

/// A polygon record: the number of corners, a sort key, two material words,
/// the face normal, a padding byte, the middle, then the corners. A polygon of
/// kind `P` is read only where the number of corners is that of `P`.
pub open spec fn take_polygon<P: Polygon>(s: Seq<u8>) -> Option<(P, Seq<u8>)> {
    match take_u32(s) {
        None => None,
        Some((corners, s)) => match take_u32(s) {
            None => None,
            Some((_sort_info, s)) => match take_u32(s) {
                None => None,
                Some((m0, s)) => match take_u32(s) {
                    None => None,
                    Some((m1, s)) => match take_vec_i8(s) {
                        None => None,
                        Some((flat_normal, s)) => match take_i8(s) {
                            None => None,
                            Some((_something, s)) => match take_vec_i8(s) {
                                None => None,
                                Some((middle, s)) => if corners != P::spec_num_vertices() {
                                    None
                                } else {
                                    match take_many(s, corners as nat, vertex_reader()) {
                                        None => None,
                                        Some((vertices, s)) => Some(
                                            (P::spec_new(middle, flat_normal, [m0, m1], vertices), s),
                                        ),
                                    }
                                },
                            },
                        },
                    },
                },
            },
        },
    }
}

/// The bytes of a polygon record, from what the polygon stores; sort key and
/// padding are zero.
pub open spec fn polygon_bytes<P: Polygon>(p: P) -> Seq<u8> {
    let (middle, flat_normal, material, vertices) = p.spec_dump();
    spec_u32_to_le_bytes(vertices.len() as u32) + spec_u32_to_le_bytes(0) + spec_u32_to_le_bytes(
        material[0],
    ) + spec_u32_to_le_bytes(material[1]) + vec_i8_bytes(flat_normal) + i8_bytes(0)
        + vec_i8_bytes(middle) + many_bytes(vertices, vertex_writer())
}

/// Reads polygon records of kind `P`.
pub open spec fn polygon_reader<P: Polygon>() -> spec_fn(Seq<u8>) -> Option<(P, Seq<u8>)> {
    |s: Seq<u8>| take_polygon::<P>(s)
}

/// Writes polygon records of kind `P`.
pub open spec fn polygon_writer<P: Polygon>() -> spec_fn(P) -> Seq<u8> {
    |p: P| polygon_bytes::<P>(p)
}


// ----------------------------------------------------------------------------
// Corners and polygons

/// Reads a corner record.
fn read_vertex(source: &mut Cursor) -> (r: Option<Vertex>)
    ensures
        read_as(r, final(source).rest(), take_vertex(old(source).rest())),
{
    let pos = source.read_u32()?;
    let normal = source.read_u32()?;
    Some(Vertex { pos: pos as u16, normal: normal as u16 })
}

/// Appends a corner record.
fn write_vertex(dest: &mut Vec<u8>, v: Vertex)
    ensures
        final(dest)@ == old(dest)@ + vertex_bytes(v),
{
    write_u32(dest, v.pos as u32);
    write_u32(dest, v.normal as u32);
    assert(final(dest)@ =~= old(dest)@ + vertex_bytes(v));
}

/// Reads a polygon record of kind `P`; `None` where it is cut short or has
/// another number of corners than `P`. Both are errors returned to the
/// caller: a malformed file never makes the reader panic.
#[verifier::loop_isolation(false)]
pub fn read_polygon<P: Polygon>(source: &mut Cursor) -> (r: Option<P>)
    ensures
        read_as(r, final(source).rest(), take_polygon::<P>(old(source).rest())),
{
    let num_corners = source.read_u32()?;
    let _sort_info = source.read_u32()?;
    let m0 = source.read_u32()?;
    let m1 = source.read_u32()?;
    let flat_normal = read_vec_i8(source)?;
    let _something = source.read_i8()?;
    let middle = read_vec_i8(source)?;
    if num_corners != P::num_vertices() {
        return None;
    }
    let ghost s0 = source.rest();
    let mut vertices: Vec<Vertex> = Vec::new();
    let mut i: u32 = 0;
    while i < num_corners
        invariant
            i <= num_corners,
            vertices.len() == i,
            take_many(s0, i as nat, vertex_reader()) == Some((vertices@, source.rest())),
        decreases num_corners - i,
    {
        let ghost before = source.rest();
        let v = match read_vertex(source) {
            Some(v) => v,
            None => {
                proof {
                    assert(take_many(s0, (i + 1) as nat, vertex_reader()) is None);
                    lemma_take_many_fails(s0, (i + 1) as nat, num_corners as nat, vertex_reader());
                }
                return None;
            },
        };
        vertices.push(v);
        i = i + 1;
        assert(take_many(s0, i as nat, vertex_reader()) == Some((vertices@, source.rest())));
    }
    Some(P::new(middle, flat_normal, [m0, m1], vertices.as_slice()))
}

/// Appends the record of a polygon.
pub fn write_polygon<P: Polygon>(dest: &mut Vec<u8>, poly: &P)
    ensures
        final(dest)@ == old(dest)@ + polygon_bytes(*poly),
{
    let mut vertices: Vec<Vertex> = Vec::new();
    let (middle, flat_normal, materials) = poly.dump(&mut vertices);
    assert(vertices@ =~= poly.spec_dump().3);
    let ghost d0 = dest@;
    write_u32(dest, vertices.len() as u32);
    let sort_info: u32 = 0;
    write_u32(dest, sort_info);
    write_u32(dest, materials[0]);
    write_u32(dest, materials[1]);
    write_vec_i8(dest, flat_normal);
    let something: i8 = 0;
    write_i8(dest, something);
    write_vec_i8(dest, middle);
    let ghost head = dest@;
    let mut i: usize = 0;
    while i < vertices.len()
        invariant
            i <= vertices.len(),
            dest@ == head + many_bytes(vertices@.take(i as int), vertex_writer()),
        decreases vertices.len() - i,
    {
        write_vertex(dest, vertices[i]);
        proof {
            lemma_many_bytes_push(vertices@.take(i as int), vertices@[i as int], vertex_writer());
            assert(vertices@.take(i as int).push(vertices@[i as int]) =~= vertices@.take(i + 1));
        }
        i = i + 1;
    }
    assert(vertices@.take(vertices.len() as int) =~= vertices@);
    assert(final(dest)@ =~= old(dest)@ + polygon_bytes(*poly));
}

/// A corner record reads back as the corner written.
pub proof fn lemma_take_vertex(v: Vertex, rest: Seq<u8>)
    ensures
        take_vertex(vertex_bytes(v) + rest) == Some((v, rest)),
{
    let a = spec_u32_to_le_bytes(v.pos as u32);
    let b = spec_u32_to_le_bytes(v.normal as u32);
    assert(vertex_bytes(v) + rest =~= a + (b + rest));
    lemma_take_u32(v.pos as u32, b + rest);
    lemma_take_u32(v.normal as u32, rest);
}

/// Every corner record reads back as the corner written.
pub proof fn lemma_vertex_records()
    ensures
        forall|v: Vertex, r: Seq<u8>| #[trigger]
            vertex_reader()(vertex_writer()(v) + r) == Some((v, r)),
{
    assert forall|v: Vertex, r: Seq<u8>| #[trigger]
        vertex_reader()(vertex_writer()(v) + r) == Some((v, r)) by {
        lemma_take_vertex(v, r);
    }
}

/// A polygon record reads back as the polygon written.
pub proof fn lemma_take_polygon<P: Polygon>(p: P, rest: Seq<u8>)
    ensures
        take_polygon::<P>(polygon_bytes(p) + rest) == Some((p, rest)),
{
    P::lemma_dump_new(p);
    let (middle, flat_normal, material, vertices) = p.spec_dump();
    let p1 = spec_u32_to_le_bytes(vertices.len() as u32);
    let p2 = spec_u32_to_le_bytes(0);
    let p3 = spec_u32_to_le_bytes(material[0]);
    let p4 = spec_u32_to_le_bytes(material[1]);
    let p5 = vec_i8_bytes(flat_normal);
    let p6 = i8_bytes(0);
    let p7 = vec_i8_bytes(middle);
    let p8 = many_bytes(vertices, vertex_writer());
    let t8 = p8 + rest;
    let t7 = p7 + t8;
    let t6 = p6 + t7;
    let t5 = p5 + t6;
    let t4 = p4 + t5;
    let t3 = p3 + t4;
    let t2 = p2 + t3;
    let t1 = p1 + t2;
    let l2 = p1 + p2;
    let l3 = l2 + p3;
    let l4 = l3 + p4;
    let l5 = l4 + p5;
    let l6 = l5 + p6;
    let l7 = l6 + p7;
    lemma_assoc(l7, p8, rest);
    lemma_assoc(l6, p7, t8);
    lemma_assoc(l5, p6, t7);
    lemma_assoc(l4, p5, t6);
    lemma_assoc(l3, p4, t5);
    lemma_assoc(l2, p3, t4);
    lemma_assoc(p1, p2, t3);
    assert(polygon_bytes(p) + rest == t1);
    lemma_take_u32(vertices.len() as u32, t2);
    lemma_take_u32(0, t3);
    lemma_take_u32(material[0], t4);
    lemma_take_u32(material[1], t5);
    lemma_take_vec_i8(flat_normal, t6);
    lemma_take_i8(0, t7);
    lemma_take_vec_i8(middle, t8);
    lemma_vertex_records();
    lemma_take_many_bytes(vertices, rest, vertex_reader(), vertex_writer());
    let m: [u32; 2] = [material[0], material[1]];
    assert(m =~= material);
}

/// Every polygon record of kind `P` reads back as the polygon written.
pub proof fn lemma_polygon_records<P: Polygon>()
    ensures
        forall|p: P, r: Seq<u8>| #[trigger]
            polygon_reader::<P>()(polygon_writer::<P>()(p) + r) == Some((p, r)),
{
    assert forall|p: P, r: Seq<u8>| #[trigger]
        polygon_reader::<P>()(polygon_writer::<P>()(p) + r) == Some((p, r)) by {
        lemma_take_polygon(p, r);
    }
}


// ----------------------------------------------------------------------------
// Bounds, physics, positions and normals

/// A bounds record: the maximum corner, then the minimum corner.
pub open spec fn take_bounds(s: Seq<u8>) -> Option<(Bounds, Seq<u8>)> {
    match take_vec_i32(s) {
        None => None,
        Some((coord_max, s)) => match take_vec_i32(s) {
            None => None,
            Some((coord_min, s)) => Some((Bounds { coord_min, coord_max }, s)),
        },
    }
}

/// The bytes of a bounds record.
pub open spec fn bounds_bytes(b: Bounds) -> Seq<u8> {
    vec_i32_bytes(b.coord_max) + vec_i32_bytes(b.coord_min)
}

/// The thirteen words of a physics record, in file order: the volume, the
/// centre of mass, then the inertia tensor row by row.
pub open spec fn physics_words(p: Physics) -> Seq<u32> {
    seq![
        p.volume,
        p.rcm[0],
        p.rcm[1],
        p.rcm[2],
        p.jacobi[0][0],
        p.jacobi[1][0],
        p.jacobi[2][0],
        p.jacobi[0][1],
        p.jacobi[1][1],
        p.jacobi[2][1],
        p.jacobi[0][2],
        p.jacobi[1][2],
        p.jacobi[2][2],
    ]
}

/// The physics whose record holds the floats `q`.
pub open spec fn physics_of_words(q: Seq<u32>) -> Physics {
    Physics {
        volume: q[0],
        rcm: [q[1], q[2], q[3]],
        jacobi: [[q[4], q[7], q[10]], [q[5], q[8], q[11]], [q[6], q[9], q[12]]],
    }
}

/// A physics record: thirteen 64-bit floats, each read as the nearest 32-bit
/// float.
pub open spec fn take_physics(s: Seq<u8>) -> Option<(Physics, Seq<u8>)> {
    match take_many(s, 13, f32_reader()) {
        None => None,
        Some((q, s)) => Some((physics_of_words(q), s)),
    }
}

/// The bytes of a physics record.
pub open spec fn physics_bytes(p: Physics) -> Seq<u8> {
    many_bytes(physics_words(p), f32_writer())
}

/// A position record: three `i32` words that are not kept, the position, and
/// a sort key.
pub open spec fn take_position(s: Seq<u8>) -> Option<([i8; 3], Seq<u8>)> {
    match take_vec_i32(s) {
        None => None,
        Some((_unknown, s)) => match take_vec_i8(s) {
            None => None,
            Some((pos, s)) => match take_u32(s) {
                None => None,
                Some((_sort_info, s)) => Some((pos, s)),
            },
        },
    }
}

/// The bytes of a position record: the position widened to `i32` words, the
/// position, and a zero sort key.
pub open spec fn position_bytes(p: [i8; 3]) -> Seq<u8> {
    vec_i32_bytes([p[0] as i32, p[1] as i32, p[2] as i32]) + vec_i8_bytes(p)
        + spec_u32_to_le_bytes(0)
}

/// Reads position records.
pub open spec fn position_reader() -> spec_fn(Seq<u8>) -> Option<([i8; 3], Seq<u8>)> {
    |s: Seq<u8>| take_position(s)
}

/// Writes position records.
pub open spec fn position_writer() -> spec_fn([i8; 3]) -> Seq<u8> {
    |p: [i8; 3]| position_bytes(p)
}

/// A normal record: the normal, a padding byte and a sort key.
pub open spec fn take_normal(s: Seq<u8>) -> Option<([i8; 3], Seq<u8>)> {
    match take_vec_i8(s) {
        None => None,
        Some((norm, s)) => match take_i8(s) {
            None => None,
            Some((_something, s)) => match take_u32(s) {
                None => None,
                Some((_sort_info, s)) => Some((norm, s)),
            },
        },
    }
}

/// The bytes of a normal record, with zero padding and sort key.
pub open spec fn normal_bytes(n: [i8; 3]) -> Seq<u8> {
    vec_i8_bytes(n) + i8_bytes(0) + spec_u32_to_le_bytes(0)
}

/// Reads normal records.
pub open spec fn normal_reader() -> spec_fn(Seq<u8>) -> Option<([i8; 3], Seq<u8>)> {
    |s: Seq<u8>| take_normal(s)
}

/// Writes normal records.
pub open spec fn normal_writer() -> spec_fn([i8; 3]) -> Seq<u8> {
    |n: [i8; 3]| normal_bytes(n)
}

/// `n` zero words.
pub open spec fn zero_words(n: nat) -> Seq<u32> {
    Seq::new(n, |i: int| 0u32)
}

impl Bounds {
    /// Reads a bounds record.
    pub fn read(source: &mut Cursor) -> (r: Option<Self>)
        ensures
            read_as(r, final(source).rest(), take_bounds(old(source).rest())),
    {
        let coord_max = read_vec_i32(source)?;
        let coord_min = read_vec_i32(source)?;
        Some(Bounds { coord_max, coord_min })
    }

    /// Appends the bounds record.
    pub fn write(&self, dest: &mut Vec<u8>)
        ensures
            final(dest)@ == old(dest)@ + bounds_bytes(*self),
    {
        write_vec_i32(dest, self.coord_max);
        write_vec_i32(dest, self.coord_min);
        assert(final(dest)@ =~= old(dest)@ + bounds_bytes(*self));
    }
}

impl Physics {
    /// Reads a physics record.
    #[verifier::loop_isolation(false)]
    pub fn load(source: &mut Cursor) -> (r: Option<Self>)
        ensures
            read_as(r, final(source).rest(), take_physics(old(source).rest())),
    {
        let ghost s0 = source.rest();
        let mut q: Vec<u32> = Vec::new();
        let mut i: usize = 0;
        while i < 13
            invariant
                i <= 13,
                q.len() == i,
                take_many(s0, i as nat, f32_reader()) == Some((q@, source.rest())),
            decreases 13 - i,
        {
            let w = match read_f32(source) {
                Some(w) => w,
                None => {
                    proof {
                        assert(take_many(s0, (i + 1) as nat, f32_reader()) is None);
                        lemma_take_many_fails(s0, (i + 1) as nat, 13, f32_reader());
                    }
                    return None;
                },
            };
            q.push(w);
            i = i + 1;
            assert(take_many(s0, i as nat, f32_reader()) == Some((q@, source.rest())));
        }
        let p = Physics {
            volume: q[0],
            rcm: [q[1], q[2], q[3]],
            jacobi: [[q[4], q[7], q[10]], [q[5], q[8], q[11]], [q[6], q[9], q[12]]],
        };
        assert(p == physics_of_words(q@));
        Some(p)
    }

    /// Appends the physics record.
    pub fn write(&self, dest: &mut Vec<u8>)
        ensures
            final(dest)@ == old(dest)@ + physics_bytes(*self),
    {
        let q: [u32; 13] = [
            self.volume,
            self.rcm[0],
            self.rcm[1],
            self.rcm[2],
            self.jacobi[0][0],
            self.jacobi[1][0],
            self.jacobi[2][0],
            self.jacobi[0][1],
            self.jacobi[1][1],
            self.jacobi[2][1],
            self.jacobi[0][2],
            self.jacobi[1][2],
            self.jacobi[2][2],
        ];
        assert(q@ =~= physics_words(*self));
        let ghost head = dest@;
        let mut i: usize = 0;
        while i < 13
            invariant
                i <= 13,
                q@.len() == 13,
                dest@ == head + many_bytes(q@.take(i as int), f32_writer()),
            decreases 13 - i,
        {
            write_f32(dest, q[i]);
            proof {
                lemma_many_bytes_push(q@.take(i as int), q@[i as int], f32_writer());
                assert(q@.take(i as int).push(q@[i as int]) =~= q@.take(i + 1));
                lemma_assoc(head, many_bytes(q@.take(i as int), f32_writer()), f32_bytes(q[i as int]));
            }
            i = i + 1;
        }
        assert(q@.take(13) =~= q@);
    }
}

/// Reads `n` position records.
#[verifier::loop_isolation(false)]
fn read_positions(source: &mut Cursor, n: u32) -> (r: Option<Vec<[i8; 3]>>)
    ensures
        read_as_view(r, final(source).rest(), take_many(old(source).rest(), n as nat, position_reader())),
{
    let ghost s0 = source.rest();
    let mut v: Vec<[i8; 3]> = Vec::new();
    let mut i: u32 = 0;
    while i < n
        invariant
            i <= n,
            take_many(s0, i as nat, position_reader()) == Some((v@, source.rest())),
        decreases n - i,
    {
        let p = match read_position(source) {
            Some(p) => p,
            None => {
                proof {
                    assert(take_many(s0, (i + 1) as nat, position_reader()) is None);
                    lemma_take_many_fails(s0, (i + 1) as nat, n as nat, position_reader());
                }
                return None;
            },
        };
        v.push(p);
        i = i + 1;
        assert(take_many(s0, i as nat, position_reader()) == Some((v@, source.rest())));
    }
    Some(v)
}

/// Reads a position record.
fn read_position(source: &mut Cursor) -> (r: Option<[i8; 3]>)
    ensures
        read_as(r, final(source).rest(), take_position(old(source).rest())),
{
    let _unknown = read_vec_i32(source)?;
    let pos = read_vec_i8(source)?;
    let _sort_info = source.read_u32()?;
    Some(pos)
}

/// Reads a normal record.
fn read_normal(source: &mut Cursor) -> (r: Option<[i8; 3]>)
    ensures
        read_as(r, final(source).rest(), take_normal(old(source).rest())),
{
    let norm = read_vec_i8(source)?;
    let _something = source.read_i8()?;
    let _sort_info = source.read_u32()?;
    Some(norm)
}

/// Reads `n` normal records.
#[verifier::loop_isolation(false)]
fn read_normals(source: &mut Cursor, n: u32) -> (r: Option<Vec<[i8; 3]>>)
    ensures
        read_as_view(r, final(source).rest(), take_many(old(source).rest(), n as nat, normal_reader())),
{
    let ghost s0 = source.rest();
    let mut v: Vec<[i8; 3]> = Vec::new();
    let mut i: u32 = 0;
    while i < n
        invariant
            i <= n,
            take_many(s0, i as nat, normal_reader()) == Some((v@, source.rest())),
        decreases n - i,
    {
        let p = match read_normal(source) {
            Some(p) => p,
            None => {
                proof {
                    assert(take_many(s0, (i + 1) as nat, normal_reader()) is None);
                    lemma_take_many_fails(s0, (i + 1) as nat, n as nat, normal_reader());
                }
                return None;
            },
        };
        v.push(p);
        i = i + 1;
        assert(take_many(s0, i as nat, normal_reader()) == Some((v@, source.rest())));
    }
    Some(v)
}

/// Reads `n` polygon records of kind `P`.
#[verifier::loop_isolation(false)]
fn read_polygons<P: Polygon>(source: &mut Cursor, n: u32) -> (r: Option<Vec<P>>)
    ensures
        read_as_view(r, final(source).rest(), take_many(old(source).rest(), n as nat, polygon_reader::<P>())),
{
    let ghost s0 = source.rest();
    let mut v: Vec<P> = Vec::new();
    let mut i: u32 = 0;
    while i < n
        invariant
            i <= n,
            take_many(s0, i as nat, polygon_reader::<P>()) == Some((v@, source.rest())),
        decreases n - i,
    {
        let p = match read_polygon::<P>(source) {
            Some(p) => p,
            None => {
                proof {
                    assert(take_many(s0, (i + 1) as nat, polygon_reader::<P>()) is None);
                    lemma_take_many_fails(s0, (i + 1) as nat, n as nat, polygon_reader::<P>());
                }
                return None;
            },
        };
        v.push(p);
        i = i + 1;
        assert(take_many(s0, i as nat, polygon_reader::<P>()) == Some((v@, source.rest())));
    }
    Some(v)
}

/// Reads `n` words that are not kept; whether they were all there.
#[verifier::loop_isolation(false)]
fn skip_words(source: &mut Cursor, n: u64) -> (r: bool)
    ensures
        r == take_many(old(source).rest(), n as nat, u32_reader()) is Some,
        r ==> final(source).rest() == take_many(old(source).rest(), n as nat, u32_reader()).unwrap().1,
{
    let ghost s0 = source.rest();
    let ghost mut ws: Seq<u32> = Seq::empty();
    let mut i: u64 = 0;
    while i < n
        invariant
            i <= n,
            take_many(s0, i as nat, u32_reader()) == Some((ws, source.rest())),
        decreases n - i,
    {
        let w = match source.read_u32() {
            Some(w) => w,
            None => {
                proof {
                    assert(take_many(s0, (i + 1) as nat, u32_reader()) is None);
                    lemma_take_many_fails(s0, (i + 1) as nat, n as nat, u32_reader());
                }
                return false;
            },
        };
        proof {
            ws = ws.push(w);
        }
        i = i + 1;
        assert(take_many(s0, i as nat, u32_reader()) == Some((ws, source.rest())));
    }
    true
}


/// Appends a position record.
fn write_position(dest: &mut Vec<u8>, p: [i8; 3])
    ensures
        final(dest)@ == old(dest)@ + position_bytes(p),
{
    write_vec_i32(dest, [p[0] as i32, p[1] as i32, p[2] as i32]);
    write_vec_i8(dest, p);
    let sort_info: u32 = 0;
    write_u32(dest, sort_info);
    assert(final(dest)@ =~= old(dest)@ + position_bytes(p));
}

/// Appends a normal record.
fn write_normal(dest: &mut Vec<u8>, n: [i8; 3])
    ensures
        final(dest)@ == old(dest)@ + normal_bytes(n),
{
    write_vec_i8(dest, n);
    write_i8(dest, 0);
    let sort_info: u32 = 0;
    write_u32(dest, sort_info);
    assert(final(dest)@ =~= old(dest)@ + normal_bytes(n));
}

/// Appends the records of the positions `v`.
fn write_positions(dest: &mut Vec<u8>, v: &Vec<[i8; 3]>)
    ensures
        final(dest)@ == old(dest)@ + many_bytes(v@, position_writer()),
{
    let ghost head = dest@;
    let mut i: usize = 0;
    while i < v.len()
        invariant
            i <= v.len(),
            dest@ == head + many_bytes(v@.take(i as int), position_writer()),
        decreases v.len() - i,
    {
        write_position(dest, v[i]);
        proof {
            lemma_many_bytes_push(v@.take(i as int), v@[i as int], position_writer());
            assert(v@.take(i as int).push(v@[i as int]) =~= v@.take(i + 1));
            lemma_assoc(head, many_bytes(v@.take(i as int), position_writer()), position_bytes(v@[i as int]));
        }
        i = i + 1;
    }
    assert(v@.take(v.len() as int) =~= v@);
}

/// Appends the records of the normals `v`.
fn write_normals(dest: &mut Vec<u8>, v: &Vec<[i8; 3]>)
    ensures
        final(dest)@ == old(dest)@ + many_bytes(v@, normal_writer()),
{
    let ghost head = dest@;
    let mut i: usize = 0;
    while i < v.len()
        invariant
            i <= v.len(),
            dest@ == head + many_bytes(v@.take(i as int), normal_writer()),
        decreases v.len() - i,
    {
        write_normal(dest, v[i]);
        proof {
            lemma_many_bytes_push(v@.take(i as int), v@[i as int], normal_writer());
            assert(v@.take(i as int).push(v@[i as int]) =~= v@.take(i + 1));
            lemma_assoc(head, many_bytes(v@.take(i as int), normal_writer()), normal_bytes(v@[i as int]));
        }
        i = i + 1;
    }
    assert(v@.take(v.len() as int) =~= v@);
}

/// Appends the records of the polygons `v`.
fn write_polygons<P: Polygon>(dest: &mut Vec<u8>, v: &Vec<P>)
    ensures
        final(dest)@ == old(dest)@ + many_bytes(v@, polygon_writer::<P>()),
{
    let ghost head = dest@;
    let mut i: usize = 0;
    while i < v.len()
        invariant
            i <= v.len(),
            dest@ == head + many_bytes(v@.take(i as int), polygon_writer::<P>()),
        decreases v.len() - i,
    {
        write_polygon(dest, &v[i]);
        proof {
            lemma_many_bytes_push(v@.take(i as int), v@[i as int], polygon_writer::<P>());
            assert(v@.take(i as int).push(v@[i as int]) =~= v@.take(i + 1));
            lemma_assoc(head, many_bytes(v@.take(i as int), polygon_writer::<P>()), polygon_bytes(v@[i as int]));
        }
        i = i + 1;
    }
    assert(v@.take(v.len() as int) =~= v@);
}

/// Appends `n` zero words.
fn write_zero_words(dest: &mut Vec<u8>, n: u64)
    ensures
        final(dest)@ == old(dest)@ + many_bytes(zero_words(n as nat), u32_writer()),
{
    let ghost head = dest@;
    let mut i: u64 = 0;
    while i < n
        invariant
            i <= n,
            dest@ == head + many_bytes(zero_words(i as nat), u32_writer()),
        decreases n - i,
    {
        let poly_ind: u32 = 0;
        write_u32(dest, poly_ind);
        proof {
            lemma_many_bytes_push(zero_words(i as nat), 0u32, u32_writer());
            assert(zero_words(i as nat).push(0u32) =~= zero_words((i + 1) as nat));
            lemma_assoc(head, many_bytes(zero_words(i as nat), u32_writer()), spec_u32_to_le_bytes(0));
        }
        i = i + 1;
    }
}

// ----------------------------------------------------------------------------
// Records read back as written

/// A bounds record reads back as the bounds written.
pub proof fn lemma_take_bounds(b: Bounds, rest: Seq<u8>)
    ensures
        take_bounds(bounds_bytes(b) + rest) == Some((b, rest)),
{
    lemma_assoc(vec_i32_bytes(b.coord_max), vec_i32_bytes(b.coord_min), rest);
    lemma_take_vec_i32(b.coord_max, vec_i32_bytes(b.coord_min) + rest);
    lemma_take_vec_i32(b.coord_min, rest);
}

/// Whether each float of a physics record reads back as itself: none is a
/// signalling NaN.
pub open spec fn physics_exact(p: Physics) -> bool {
    forall|i: int| 0 <= i < 13 ==> !is_signaling(#[trigger] physics_words(p)[i])
}

/// A physics record reads back as the physics written, where none of its
/// floats is a signalling NaN.
pub proof fn lemma_take_physics(p: Physics, rest: Seq<u8>)
    requires
        physics_exact(p),
    ensures
        take_physics(physics_bytes(p) + rest) == Some((p, rest)),
{
    let ws = physics_words(p);
    let same = |x: u32| x;
    assert forall|i: int, r: Seq<u8>| 0 <= i < ws.len() implies #[trigger] f32_reader()(
        f32_writer()(ws[i]) + r,
    ) == Some((same(ws[i]), r)) by {
        lemma_take_f32(ws[i], r);
    }
    lemma_take_many_bytes_mapped(ws, rest, f32_reader(), f32_writer(), same);
    assert(ws.map_values(same) =~= ws);
    let q = physics_of_words(physics_words(p));
    assert(q.rcm =~= p.rcm);
    assert(q.jacobi[0] =~= p.jacobi[0]);
    assert(q.jacobi[1] =~= p.jacobi[1]);
    assert(q.jacobi[2] =~= p.jacobi[2]);
    assert(q.jacobi =~= p.jacobi);
}

/// A position record reads back as the position written.
pub proof fn lemma_take_position(p: [i8; 3], rest: Seq<u8>)
    ensures
        take_position(position_bytes(p) + rest) == Some((p, rest)),
{
    let a = vec_i32_bytes([p[0] as i32, p[1] as i32, p[2] as i32]);
    let b = vec_i8_bytes(p);
    let c = spec_u32_to_le_bytes(0);
    lemma_assoc(a + b, c, rest);
    lemma_assoc(a, b, c + rest);
    lemma_take_vec_i32([p[0] as i32, p[1] as i32, p[2] as i32], b + (c + rest));
    lemma_take_vec_i8(p, c + rest);
    lemma_take_u32(0, rest);
}

/// A normal record reads back as the normal written.
pub proof fn lemma_take_normal(n: [i8; 3], rest: Seq<u8>)
    ensures
        take_normal(normal_bytes(n) + rest) == Some((n, rest)),
{
    let a = vec_i8_bytes(n);
    let b = i8_bytes(0);
    let c = spec_u32_to_le_bytes(0);
    lemma_assoc(a + b, c, rest);
    lemma_assoc(a, b, c + rest);
    lemma_take_vec_i8(n, b + (c + rest));
    lemma_take_i8(0, c + rest);
    lemma_take_u32(0, rest);
}


// ----------------------------------------------------------------------------
// Meshes

/// A mesh record with polygons of kind `P`: the version, the numbers of
/// positions, normals and polygons, a corner total that is not kept, the
/// bounds, the offset from the parent, the radius, the rotation against the
/// parent, the physics, then the positions, normals and polygons, and three
/// words per polygon that are not kept. Nothing is read where the version is
/// not [`MAGIC_VERSION`], where a polygon has another number of corners than
/// `P`, or where the bytes end first.
pub open spec fn take_mesh<P: Polygon>(s: Seq<u8>) -> Option<(Mesh<GeometryV<P>>, Seq<u8>)> {
    match take_u32(s) {
        None => None,
        Some((version, s)) => if version != MAGIC_VERSION {
            None
        } else {
            match take_u32(s) {
                None => None,
                Some((num_positions, s)) => match take_u32(s) {
                    None => None,
                    Some((num_normals, s)) => match take_u32(s) {
                        None => None,
                        Some((num_polygons, s)) => match take_u32(s) {
                            None => None,
                            Some((_total_verts, s)) => match take_bounds(s) {
                                None => None,
                                Some((bounds, s)) => match take_vec_i32(s) {
                                    None => None,
                                    Some((parent_off, s)) => match take_u32(s) {
                                        None => None,
                                        Some((max_radius, s)) => match take_vec_i32(s) {
                                            None => None,
                                            Some((parent_rot, s)) => match take_physics(s) {
                                                None => None,
                                                Some((physics, s)) => take_mesh_body(
                                                    s,
                                                    num_positions,
                                                    num_normals,
                                                    num_polygons,
                                                    bounds,
                                                    parent_off,
                                                    max_radius,
                                                    parent_rot,
                                                    physics,
                                                ),
                                            },
                                        },
                                    },
                                },
                            },
                        },
                    },
                },
            }
        },
    }
}

/// The part of a mesh record after its header: the positions, normals and
/// polygons, and the words that are not kept.
pub open spec fn take_mesh_body<P: Polygon>(
    s: Seq<u8>,
    num_positions: u32,
    num_normals: u32,
    num_polygons: u32,
    bounds: Bounds,
    parent_off: [i32; 3],
    max_radius: u32,
    parent_rot: [i32; 3],
    physics: Physics,
) -> Option<(Mesh<GeometryV<P>>, Seq<u8>)> {
    match take_many(s, num_positions as nat, position_reader()) {
        None => None,
        Some((positions, s)) => match take_many(s, num_normals as nat, normal_reader()) {
            None => None,
            Some((normals, s)) => match take_many(s, num_polygons as nat, polygon_reader::<P>()) {
                None => None,
                Some((polygons, s)) => match take_many(s, 3 * num_polygons as nat, u32_reader()) {
                    None => None,
                    Some((_sorted, s)) => Some(
                        (
                            Mesh {
                                geometry: GeometryV { positions, normals, polygons },
                                bounds,
                                parent_off,
                                parent_rot,
                                max_radius,
                                physics,
                            },
                            s,
                        ),
                    ),
                },
            },
        },
    }
}

/// The corner total that a mesh record states: the number of polygons times
/// the corners of one, in 32 bits.
pub open spec fn total_verts<P: Polygon>(m: Mesh<GeometryV<P>>) -> u32 {
    ((m.geometry.polygons.len() as u32) * P::spec_num_vertices()) as u32
}

/// The header of the record of a mesh, up to its physics.
pub open spec fn mesh_head_bytes<P: Polygon>(m: Mesh<GeometryV<P>>) -> Seq<u8> {
    let g = m.geometry;
    spec_u32_to_le_bytes(MAGIC_VERSION) + spec_u32_to_le_bytes(g.positions.len() as u32)
        + spec_u32_to_le_bytes(g.normals.len() as u32) + spec_u32_to_le_bytes(
        g.polygons.len() as u32,
    ) + spec_u32_to_le_bytes(total_verts(m)) + bounds_bytes(m.bounds) + vec_i32_bytes(
        m.parent_off,
    ) + spec_u32_to_le_bytes(m.max_radius) + vec_i32_bytes(m.parent_rot) + physics_bytes(
        m.physics,
    )
}

/// The rest of the record of a mesh: positions, normals, polygons, and a zero
/// word three times per polygon.
pub open spec fn mesh_body_bytes<P: Polygon>(m: Mesh<GeometryV<P>>) -> Seq<u8> {
    let g = m.geometry;
    many_bytes(g.positions, position_writer()) + many_bytes(g.normals, normal_writer())
        + many_bytes(g.polygons, polygon_writer::<P>()) + many_bytes(
        zero_words(3 * g.polygons.len()),
        u32_writer(),
    )
}

/// The bytes of the record of a mesh.
pub open spec fn mesh_bytes<P: Polygon>(m: Mesh<GeometryV<P>>) -> Seq<u8> {
    mesh_head_bytes(m) + mesh_body_bytes(m)
}

/// Whether a mesh reads back from its record: its counts fit the 32-bit
/// fields, and none of its floats is a signalling NaN.
pub open spec fn mesh_fits<P: Polygon>(m: Mesh<GeometryV<P>>) -> bool {
    &&& physics_exact(m.physics)
    &&& m.geometry.positions.len() <= u32::MAX
    &&& m.geometry.normals.len() <= u32::MAX
    &&& m.geometry.polygons.len() <= u32::MAX
}

/// Whether the corner total of a mesh can be computed in 32 bits.
pub open spec fn mesh_total_fits<P: Polygon>(m: Mesh<GeometryV<P>>) -> bool {
    (m.geometry.polygons.len() as u32) * P::spec_num_vertices() <= u32::MAX
}

impl<G> Mesh<G> {
    /// The mesh with its geometry replaced by what `fun` makes of it.
    pub fn map<T, F: Fn(G) -> T>(self, fun: F) -> (r: Mesh<T>)
        requires
            call_requires(fun, (self.geometry,)),
        ensures
            call_ensures(fun, (self.geometry,), r.geometry),
            r.bounds == self.bounds,
            r.parent_off == self.parent_off,
            r.parent_rot == self.parent_rot,
            r.max_radius == self.max_radius,
            r.physics == self.physics,
    {
        Mesh {
            geometry: fun(self.geometry),
            bounds: self.bounds,
            parent_off: self.parent_off,
            parent_rot: self.parent_rot,
            max_radius: self.max_radius,
            physics: self.physics,
        }
    }
}

impl<P: Polygon> Mesh<Geometry<P>> {
    /// Reads a mesh record with polygons of kind `P`; `None` where the
    /// version is wrong, a polygon has the wrong number of corners, or the
    /// bytes end first. Each of these is an error returned to the caller, by
    /// design: a malformed file never makes the reader panic.
    pub fn load(source: &mut Cursor) -> (r: Option<Self>)
        ensures
            read_as_view(r, final(source).rest(), take_mesh::<P>(old(source).rest())),
    {
        let version = source.read_u32()?;
        if version != MAGIC_VERSION {
            return None;
        }
        let num_positions = source.read_u32()?;
        let num_normals = source.read_u32()?;
        let num_polygons = source.read_u32()?;
        let _total_verts = source.read_u32()?;
        let bounds = Bounds::read(source)?;
        let parent_off = read_vec_i32(source)?;
        let max_radius = source.read_u32()?;
        let parent_rot = read_vec_i32(source)?;
        let physics = Physics::load(source)?;
        let positions = read_positions(source, num_positions)?;
        let normals = read_normals(source, num_normals)?;
        let polygons = read_polygons::<P>(source, num_polygons)?;
        if !skip_words(source, 3 * (num_polygons as u64)) {
            return None;
        }
        Some(Mesh {
            geometry: Geometry { positions, normals, polygons },
            bounds,
            parent_off,
            max_radius,
            parent_rot,
            physics,
        })
    }
}


impl<P: Polygon> Mesh<Geometry<P>> {
    /// Appends the record of the mesh.
    pub fn save(&self, dest: &mut Vec<u8>)
        requires
            mesh_total_fits(self@),
        ensures
            final(dest)@ == old(dest)@ + mesh_bytes(self@),
    {
        let ghost d0 = dest@;
        write_u32(dest, MAGIC_VERSION);
        write_u32(dest, self.geometry.positions.len() as u32);
        write_u32(dest, self.geometry.normals.len() as u32);
        write_u32(dest, self.geometry.polygons.len() as u32);
        let total_verts = self.geometry.polygons.len() as u32 * P::num_vertices();
        write_u32(dest, total_verts);
        self.bounds.write(dest);
        write_vec_i32(dest, self.parent_off);
        write_u32(dest, self.max_radius);
        write_vec_i32(dest, self.parent_rot);
        self.physics.write(dest);
        assert(dest@ =~= d0 + mesh_head_bytes(self@));
        let ghost d1 = dest@;
        write_positions(dest, &self.geometry.positions);
        write_normals(dest, &self.geometry.normals);
        write_polygons(dest, &self.geometry.polygons);
        let ghost d2 = dest@;
        let n = self.geometry.polygons.len() as u64;
        write_zero_words(dest, n);
        write_zero_words(dest, n);
        write_zero_words(dest, n);
        proof {
            let z = zero_words(n as nat);
            let zb = many_bytes(z, u32_writer());
            assert(z + z + z =~= zero_words(3 * self@.geometry.polygons.len()));
            lemma_many_bytes_concat(z, z, u32_writer());
            lemma_many_bytes_concat(z + z, z, u32_writer());
            assert(dest@ =~= d2 + (zb + zb + zb));
            assert(dest@ =~= d1 + mesh_body_bytes(self@));
            lemma_assoc(d0, mesh_head_bytes(self@), mesh_body_bytes(self@));
        }
    }
}

/// The body of the record of a mesh whose counts fit their fields reads back
/// as the mesh, given its header fields.
pub proof fn lemma_take_mesh_body<P: Polygon>(m: Mesh<GeometryV<P>>, rest: Seq<u8>)
    requires
        mesh_fits(m),
    ensures
        take_mesh_body::<P>(
            mesh_body_bytes(m) + rest,
            m.geometry.positions.len() as u32,
            m.geometry.normals.len() as u32,
            m.geometry.polygons.len() as u32,
            m.bounds,
            m.parent_off,
            m.max_radius,
            m.parent_rot,
            m.physics,
        ) == Some((m, rest)),
{
    let g = m.geometry;
    let q1 = many_bytes(g.positions, position_writer());
    let q2 = many_bytes(g.normals, normal_writer());
    let q3 = many_bytes(g.polygons, polygon_writer::<P>());
    let q4 = many_bytes(zero_words(3 * g.polygons.len()), u32_writer());
    let u4 = q4 + rest;
    let u3 = q3 + u4;
    let u2 = q2 + u3;
    let u1 = q1 + u2;
    lemma_assoc(q1 + q2 + q3, q4, rest);
    lemma_assoc(q1 + q2, q3, u4);
    lemma_assoc(q1, q2, u3);
    assert(mesh_body_bytes(m) + rest == u1);
    assert forall|v: [i8; 3], r: Seq<u8>| #[trigger] position_reader()(position_writer()(v) + r)
        == Some((v, r)) by {
        lemma_take_position(v, r);
    }
    assert forall|v: [i8; 3], r: Seq<u8>| #[trigger] normal_reader()(normal_writer()(v) + r)
        == Some((v, r)) by {
        lemma_take_normal(v, r);
    }
    assert forall|v: u32, r: Seq<u8>| #[trigger] u32_reader()(u32_writer()(v) + r) == Some((v, r)) by {
        lemma_take_u32(v, r);
    }
    lemma_polygon_records::<P>();
    lemma_take_many_bytes(g.positions, u2, position_reader(), position_writer());
    lemma_take_many_bytes(g.normals, u3, normal_reader(), normal_writer());
    lemma_take_many_bytes(g.polygons, u4, polygon_reader::<P>(), polygon_writer::<P>());
    lemma_take_many_bytes(zero_words(3 * g.polygons.len()), rest, u32_reader(), u32_writer());
}

/// The record of a mesh whose counts fit their fields reads back as the
/// mesh: what a mesh is saved as, it is loaded as.
pub proof fn lemma_take_mesh<P: Polygon>(m: Mesh<GeometryV<P>>, rest: Seq<u8>)
    requires
        mesh_fits(m),
    ensures
        take_mesh::<P>(mesh_bytes(m) + rest) == Some((m, rest)),
{
    let g = m.geometry;
    let p1 = spec_u32_to_le_bytes(MAGIC_VERSION);
    let p2 = spec_u32_to_le_bytes(g.positions.len() as u32);
    let p3 = spec_u32_to_le_bytes(g.normals.len() as u32);
    let p4 = spec_u32_to_le_bytes(g.polygons.len() as u32);
    let p5 = spec_u32_to_le_bytes(total_verts(m));
    let p6 = bounds_bytes(m.bounds);
    let p7 = vec_i32_bytes(m.parent_off);
    let p8 = spec_u32_to_le_bytes(m.max_radius);
    let p9 = vec_i32_bytes(m.parent_rot);
    let p10 = physics_bytes(m.physics);
    let u1 = mesh_body_bytes(m) + rest;
    let t10 = p10 + u1;
    let t9 = p9 + t10;
    let t8 = p8 + t9;
    let t7 = p7 + t8;
    let t6 = p6 + t7;
    let t5 = p5 + t6;
    let t4 = p4 + t5;
    let t3 = p3 + t4;
    let t2 = p2 + t3;
    let t1 = p1 + t2;
    let l2 = p1 + p2;
    let l3 = l2 + p3;
    let l4 = l3 + p4;
    let l5 = l4 + p5;
    let l6 = l5 + p6;
    let l7 = l6 + p7;
    let l8 = l7 + p8;
    let l9 = l8 + p9;
    assert(mesh_head_bytes(m) == l9 + p10);
    lemma_assoc(l9 + p10, mesh_body_bytes(m), rest);
    lemma_assoc(l9, p10, u1);
    lemma_assoc(l8, p9, t10);
    lemma_assoc(l7, p8, t9);
    lemma_assoc(l6, p7, t8);
    lemma_assoc(l5, p6, t7);
    lemma_assoc(l4, p5, t6);
    lemma_assoc(l3, p4, t5);
    lemma_assoc(l2, p3, t4);
    lemma_assoc(p1, p2, t3);
    assert(mesh_bytes(m) + rest == t1);
    lemma_take_u32(MAGIC_VERSION, t2);
    lemma_take_u32(g.positions.len() as u32, t3);
    lemma_take_u32(g.normals.len() as u32, t4);
    lemma_take_u32(g.polygons.len() as u32, t5);
    lemma_take_u32(total_verts(m), t6);
    lemma_take_bounds(m.bounds, t7);
    lemma_take_vec_i32(m.parent_off, t8);
    lemma_take_u32(m.max_radius, t9);
    lemma_take_vec_i32(m.parent_rot, t10);
    lemma_take_physics(m.physics, u1);
    lemma_take_mesh_body(m, rest);
}

// ----------------------------------------------------------------------------
// What is read can be written

/// The floats read from a physics record are no signalling NaNs.
pub proof fn lemma_take_physics_exact(s: Seq<u8>)
    ensures
        take_physics(s) matches Some((p, _)) ==> physics_exact(p),
{
    let ok = |x: u32| !is_signaling(x);
    assert forall|t: Seq<u8>| #[trigger] f32_reader()(t) is Some implies ok(
        f32_reader()(t).unwrap().0,
    ) by {
        lemma_narrow_not_signaling(take_u64(t).unwrap().0);
    }
    lemma_take_many_all(s, 13, f32_reader(), ok);
    if let Some((q, _)) = take_many(s, 13, f32_reader()) {
        let p = physics_of_words(q);
        assert(physics_words(p) =~= q);
        assert forall|i: int| 0 <= i < 13 implies !is_signaling(#[trigger] physics_words(p)[i]) by {
            assert(ok(q[i]));
        }
    }
}

/// A mesh body read after a physics record that was read holds as many
/// positions, normals and polygons as its counts say.
proof fn lemma_take_mesh_body_counts<P: Polygon>(
    s: Seq<u8>,
    num_positions: u32,
    num_normals: u32,
    num_polygons: u32,
    bounds: Bounds,
    parent_off: [i32; 3],
    max_radius: u32,
    parent_rot: [i32; 3],
    physics: Physics,
)
    ensures
        take_mesh_body::<P>(
            s,
            num_positions,
            num_normals,
            num_polygons,
            bounds,
            parent_off,
            max_radius,
            parent_rot,
            physics,
        ) matches Some((m, _)) ==> {
            &&& m.geometry.positions.len() == num_positions
            &&& m.geometry.normals.len() == num_normals
            &&& m.geometry.polygons.len() == num_polygons
            &&& m.physics == physics
        },
{
    let any_position = |v: [i8; 3]| true;
    let any_polygon = |v: P| true;
    lemma_take_many_all(s, num_positions as nat, position_reader(), any_position);
    if let Some((_, s1)) = take_many(s, num_positions as nat, position_reader()) {
        lemma_take_many_all(s1, num_normals as nat, normal_reader(), any_position);
        if let Some((_, s2)) = take_many(s1, num_normals as nat, normal_reader()) {
            lemma_take_many_all(s2, num_polygons as nat, polygon_reader::<P>(), any_polygon);
        }
    }
}

/// A mesh read from bytes can be written so that it reads back: its counts
/// were read from 32-bit fields, and its floats are no signalling NaNs.
pub proof fn lemma_take_mesh_fits<P: Polygon>(s: Seq<u8>)
    ensures
        take_mesh::<P>(s) matches Some((m, _)) ==> mesh_fits(m),
{
    assert forall|t: Seq<u8>| #[trigger] take_physics(t) is Some implies physics_exact(
        take_physics(t).unwrap().0,
    ) by {
        lemma_take_physics_exact(t);
    }
    assert forall|
        t: Seq<u8>,
        a: u32,
        b: u32,
        c: u32,
        bo: Bounds,
        po: [i32; 3],
        mr: u32,
        pr: [i32; 3],
        ph: Physics,
    | #[trigger] take_mesh_body::<P>(t, a, b, c, bo, po, mr, pr, ph) is Some implies ({
        let m = take_mesh_body::<P>(t, a, b, c, bo, po, mr, pr, ph).unwrap().0;
        m.geometry.positions.len() == a && m.geometry.normals.len() == b
            && m.geometry.polygons.len() == c && m.physics == ph
    }) by {
        lemma_take_mesh_body_counts::<P>(t, a, b, c, bo, po, mr, pr, ph);
    }
}

} // verus!
