//! The byte layout of every record of an M3D file, stated field by field over
//! the little-endian encodings of `u32` and `u64` words. Together with the
//! laws that each record reads back as what was written, these fix what
//! every byte of a file means to the reader as well as to the writer.

use vstd::prelude::*;
use vstd::bytes::{spec_u32_to_le_bytes, spec_u64_to_le_bytes, lemma_auto_spec_u32_to_from_le_bytes};
use crate::le::lemma_take_u64;
use crate::many::{many_bytes, lemma_many_bytes_fixed, lemma_assoc};
use crate::float::{f32_of_f64_bits, f64_of_f32_bits};
use crate::geometry::{Vertex, Polygon, GeometryV};
use crate::mesh::{
    Bounds, Mesh, Physics, bounds_bytes, physics_bytes, physics_words, position_bytes,
    normal_bytes, vertex_bytes, polygon_bytes, mesh_bytes, mesh_fits, f32_writer,
};
use crate::model::{
    Wheel, Slot, Debrie, DrawMeshV, CollisionMeshV, FullModelV, take_wheel, wheel_bytes,
    slot_bytes, debrie_bytes, full_model_bytes,
};

verus! {

/// A corner record: the position index, then the normal index, each a
/// `u32` word.
pub proof fn lemma_vertex_record(v: Vertex)
    ensures
        vertex_bytes(v) == spec_u32_to_le_bytes(v.pos as u32) + spec_u32_to_le_bytes(
            v.normal as u32,
        ),
{
}

/// A bounds record: the three `i32` words of the maximum corner, then the
/// three of the minimum corner.
pub proof fn lemma_bounds_record(b: Bounds)
    ensures
        bounds_bytes(b) == spec_u32_to_le_bytes(b.coord_max[0] as u32) + spec_u32_to_le_bytes(
            b.coord_max[1] as u32,
        ) + spec_u32_to_le_bytes(b.coord_max[2] as u32) + spec_u32_to_le_bytes(
            b.coord_min[0] as u32,
        ) + spec_u32_to_le_bytes(b.coord_min[1] as u32) + spec_u32_to_le_bytes(
            b.coord_min[2] as u32,
        ),
{
    assert(bounds_bytes(b) =~= spec_u32_to_le_bytes(b.coord_max[0] as u32) + spec_u32_to_le_bytes(
        b.coord_max[1] as u32,
    ) + spec_u32_to_le_bytes(b.coord_max[2] as u32) + spec_u32_to_le_bytes(b.coord_min[0] as u32)
        + spec_u32_to_le_bytes(b.coord_min[1] as u32) + spec_u32_to_le_bytes(
        b.coord_min[2] as u32,
    ));
}

/// A physics record: thirteen 64-bit floats of 8 bytes, the volume, the
/// centre of mass, then the inertia tensor column by column.
pub proof fn lemma_physics_record(p: Physics)
    ensures
        physics_bytes(p).len() == 104,
        physics_bytes(p).subrange(0, 8) == spec_u64_to_le_bytes(f64_of_f32_bits(p.volume)),
        physics_bytes(p).subrange(8, 16) == spec_u64_to_le_bytes(f64_of_f32_bits(p.rcm[0])),
        physics_bytes(p).subrange(16, 24) == spec_u64_to_le_bytes(f64_of_f32_bits(p.rcm[1])),
        physics_bytes(p).subrange(24, 32) == spec_u64_to_le_bytes(f64_of_f32_bits(p.rcm[2])),
        physics_bytes(p).subrange(32, 40) == spec_u64_to_le_bytes(f64_of_f32_bits(p.jacobi[0][0])),
        physics_bytes(p).subrange(40, 48) == spec_u64_to_le_bytes(f64_of_f32_bits(p.jacobi[1][0])),
        physics_bytes(p).subrange(48, 56) == spec_u64_to_le_bytes(f64_of_f32_bits(p.jacobi[2][0])),
        physics_bytes(p).subrange(56, 64) == spec_u64_to_le_bytes(f64_of_f32_bits(p.jacobi[0][1])),
        physics_bytes(p).subrange(64, 72) == spec_u64_to_le_bytes(f64_of_f32_bits(p.jacobi[1][1])),
        physics_bytes(p).subrange(72, 80) == spec_u64_to_le_bytes(f64_of_f32_bits(p.jacobi[2][1])),
        physics_bytes(p).subrange(80, 88) == spec_u64_to_le_bytes(f64_of_f32_bits(p.jacobi[0][2])),
        physics_bytes(p).subrange(88, 96) == spec_u64_to_le_bytes(f64_of_f32_bits(p.jacobi[1][2])),
        physics_bytes(p).subrange(96, 104) == spec_u64_to_le_bytes(f64_of_f32_bits(p.jacobi[2][2])),
{
    let w = physics_words(p);
    assert forall|x: u32| #[trigger] f32_writer()(x).len() == 8 by {
        lemma_take_u64(f64_of_f32_bits(x), Seq::empty());
    }
    lemma_many_bytes_fixed(w, f32_writer(), 8);
    assert(w[0] == p.volume && w[1] == p.rcm[0] && w[2] == p.rcm[1] && w[3] == p.rcm[2]);
    assert(w[4] == p.jacobi[0][0] && w[5] == p.jacobi[1][0] && w[6] == p.jacobi[2][0]);
    assert(w[7] == p.jacobi[0][1] && w[8] == p.jacobi[1][1] && w[9] == p.jacobi[2][1]);
    assert(w[10] == p.jacobi[0][2] && w[11] == p.jacobi[1][2] && w[12] == p.jacobi[2][2]);
}

/// A position record: the position widened to three `i32` words, the
/// position's three bytes, and a zero `u32` word: 19 bytes.
pub proof fn lemma_position_record(p: [i8; 3])
    ensures
        position_bytes(p) == spec_u32_to_le_bytes(p[0] as i32 as u32) + spec_u32_to_le_bytes(
            p[1] as i32 as u32,
        ) + spec_u32_to_le_bytes(p[2] as i32 as u32) + seq![p[0] as u8, p[1] as u8, p[2] as u8]
            + spec_u32_to_le_bytes(0),
        position_bytes(p).len() == 19,
{
    lemma_auto_spec_u32_to_from_le_bytes();
    assert(position_bytes(p) =~= spec_u32_to_le_bytes(p[0] as i32 as u32) + spec_u32_to_le_bytes(
        p[1] as i32 as u32,
    ) + spec_u32_to_le_bytes(p[2] as i32 as u32) + seq![p[0] as u8, p[1] as u8, p[2] as u8]
        + spec_u32_to_le_bytes(0));
}

/// A normal record: the normal's three bytes, a zero byte and a zero `u32`
/// word: 8 bytes.
pub proof fn lemma_normal_record(n: [i8; 3])
    ensures
        normal_bytes(n) == seq![n[0] as u8, n[1] as u8, n[2] as u8, 0u8] + spec_u32_to_le_bytes(0),
        normal_bytes(n).len() == 8,
{
    lemma_auto_spec_u32_to_from_le_bytes();
    assert(normal_bytes(n) =~= seq![n[0] as u8, n[1] as u8, n[2] as u8, 0u8]
        + spec_u32_to_le_bytes(0));
}

/// A polygon record: the number of corners, a zero sort key, the two
/// material words, the face normal's three bytes, a zero byte, the middle's
/// three bytes, then the corners in the order the polygon stores them.
pub proof fn lemma_polygon_record<P: Polygon>(p: P)
    ensures
        ({
            let (middle, flat_normal, material, corners) = p.spec_dump();
            polygon_bytes(p) == spec_u32_to_le_bytes(corners.len() as u32) + spec_u32_to_le_bytes(
                0,
            ) + spec_u32_to_le_bytes(material[0]) + spec_u32_to_le_bytes(material[1]) + seq![
                flat_normal[0] as u8,
                flat_normal[1] as u8,
                flat_normal[2] as u8,
                0u8,
                middle[0] as u8,
                middle[1] as u8,
                middle[2] as u8,
            ] + many_bytes(
                corners,
                |v: Vertex| spec_u32_to_le_bytes(v.pos as u32) + spec_u32_to_le_bytes(v.normal as u32),
            )
        }),
{
    let (middle, flat_normal, material, corners) = p.spec_dump();
    let g = |v: Vertex| spec_u32_to_le_bytes(v.pos as u32) + spec_u32_to_le_bytes(v.normal as u32);
    assert(crate::mesh::vertex_writer() =~= g);
    assert(polygon_bytes(p) =~= spec_u32_to_le_bytes(corners.len() as u32) + spec_u32_to_le_bytes(0)
        + spec_u32_to_le_bytes(material[0]) + spec_u32_to_le_bytes(material[1]) + seq![
        flat_normal[0] as u8,
        flat_normal[1] as u8,
        flat_normal[2] as u8,
        0u8,
        middle[0] as u8,
        middle[1] as u8,
        middle[2] as u8,
    ] + many_bytes(corners, g));
}

/// A mesh record: the version 8; the numbers of positions, normals and
/// polygons; the corner total; the bounds; the offset from the parent (three
/// `i32` words at bytes 44 to 56); the radius (bytes 56 to 60); the rotation
/// against the parent (three `i32` words at bytes 60 to 72); the physics
/// (bytes 72 to 176); then the position, normal and polygon records in order,
/// and three zero words per polygon.
pub proof fn lemma_mesh_record<P: Polygon>(m: Mesh<GeometryV<P>>)
    ensures
        mesh_bytes(m) == spec_u32_to_le_bytes(8) + spec_u32_to_le_bytes(
            m.geometry.positions.len() as u32,
        ) + spec_u32_to_le_bytes(m.geometry.normals.len() as u32) + spec_u32_to_le_bytes(
            m.geometry.polygons.len() as u32,
        ) + spec_u32_to_le_bytes(
            ((m.geometry.polygons.len() as u32) * P::spec_num_vertices()) as u32,
        ) + bounds_bytes(m.bounds) + spec_u32_to_le_bytes(m.parent_off[0] as u32)
            + spec_u32_to_le_bytes(m.parent_off[1] as u32) + spec_u32_to_le_bytes(
            m.parent_off[2] as u32,
        ) + spec_u32_to_le_bytes(m.max_radius) + spec_u32_to_le_bytes(m.parent_rot[0] as u32)
            + spec_u32_to_le_bytes(m.parent_rot[1] as u32) + spec_u32_to_le_bytes(
            m.parent_rot[2] as u32,
        ) + physics_bytes(m.physics) + many_bytes(
            m.geometry.positions,
            |p: [i8; 3]| position_bytes(p),
        ) + many_bytes(m.geometry.normals, |n: [i8; 3]| normal_bytes(n)) + many_bytes(
            m.geometry.polygons,
            |p: P| polygon_bytes(p),
        ) + many_bytes(
            Seq::new(3 * m.geometry.polygons.len(), |i: int| 0u32),
            |w: u32| spec_u32_to_le_bytes(w),
        ),
        mesh_bytes(m).subrange(0, 4) == spec_u32_to_le_bytes(8),
        mesh_bytes(m).subrange(4, 8) == spec_u32_to_le_bytes(m.geometry.positions.len() as u32),
        mesh_bytes(m).subrange(8, 12) == spec_u32_to_le_bytes(m.geometry.normals.len() as u32),
        mesh_bytes(m).subrange(12, 16) == spec_u32_to_le_bytes(m.geometry.polygons.len() as u32),
        mesh_bytes(m).subrange(20, 44) == bounds_bytes(m.bounds),
        mesh_bytes(m).subrange(44, 56) == spec_u32_to_le_bytes(m.parent_off[0] as u32)
            + spec_u32_to_le_bytes(m.parent_off[1] as u32) + spec_u32_to_le_bytes(
            m.parent_off[2] as u32,
        ),
        mesh_bytes(m).subrange(56, 60) == spec_u32_to_le_bytes(m.max_radius),
        mesh_bytes(m).subrange(60, 72) == spec_u32_to_le_bytes(m.parent_rot[0] as u32)
            + spec_u32_to_le_bytes(m.parent_rot[1] as u32) + spec_u32_to_le_bytes(
            m.parent_rot[2] as u32,
        ),
        mesh_bytes(m).subrange(72, 176) == physics_bytes(m.physics),
{
    lemma_auto_spec_u32_to_from_le_bytes();
    lemma_bounds_record(m.bounds);
    lemma_physics_record(m.physics);
    let g = m.geometry;
    assert(crate::mesh::position_writer() =~= |p: [i8; 3]| position_bytes(p));
    assert(crate::mesh::normal_writer() =~= |n: [i8; 3]| normal_bytes(n));
    assert(crate::mesh::polygon_writer::<P>() =~= |p: P| polygon_bytes(p));
    assert(crate::mesh::u32_writer() =~= |w: u32| spec_u32_to_le_bytes(w));
    assert(crate::mesh::zero_words(3 * g.polygons.len()) =~= Seq::new(
        3 * g.polygons.len(),
        |i: int| 0u32,
    ));
    let head = spec_u32_to_le_bytes(8) + spec_u32_to_le_bytes(g.positions.len() as u32)
        + spec_u32_to_le_bytes(g.normals.len() as u32) + spec_u32_to_le_bytes(
        g.polygons.len() as u32,
    ) + spec_u32_to_le_bytes(((g.polygons.len() as u32) * P::spec_num_vertices()) as u32)
        + bounds_bytes(m.bounds) + spec_u32_to_le_bytes(m.parent_off[0] as u32)
        + spec_u32_to_le_bytes(m.parent_off[1] as u32) + spec_u32_to_le_bytes(
        m.parent_off[2] as u32,
    ) + spec_u32_to_le_bytes(m.max_radius) + spec_u32_to_le_bytes(m.parent_rot[0] as u32)
        + spec_u32_to_le_bytes(m.parent_rot[1] as u32) + spec_u32_to_le_bytes(
        m.parent_rot[2] as u32,
    ) + physics_bytes(m.physics);
    assert(crate::mesh::mesh_head_bytes(m) =~= head);
    let whole = mesh_bytes(m);
    assert(whole.subrange(0, 4) =~= spec_u32_to_le_bytes(8));
    assert(whole.subrange(4, 8) =~= spec_u32_to_le_bytes(g.positions.len() as u32));
    assert(whole.subrange(8, 12) =~= spec_u32_to_le_bytes(g.normals.len() as u32));
    assert(whole.subrange(12, 16) =~= spec_u32_to_le_bytes(g.polygons.len() as u32));
    assert(whole.subrange(20, 44) =~= bounds_bytes(m.bounds));
    assert(whole.subrange(44, 56) =~= spec_u32_to_le_bytes(m.parent_off[0] as u32)
        + spec_u32_to_le_bytes(m.parent_off[1] as u32) + spec_u32_to_le_bytes(
        m.parent_off[2] as u32,
    ));
    assert(whole.subrange(56, 60) =~= spec_u32_to_le_bytes(m.max_radius));
    assert(whole.subrange(60, 72) =~= spec_u32_to_le_bytes(m.parent_rot[0] as u32)
        + spec_u32_to_le_bytes(m.parent_rot[1] as u32) + spec_u32_to_le_bytes(
        m.parent_rot[2] as u32,
    ));
    assert(whole.subrange(72, 176) =~= physics_bytes(m.physics));
}

/// A wheel record: whether it steers, the three coordinates of its position
/// as 64-bit floats, its width, its radius and its bounding polygon as `u32`
/// words (bytes 28 to 32, 32 to 36 and 36 to 40), then the record of its mesh
/// where it has one.
pub proof fn lemma_wheel_record(w: Wheel<DrawMeshV>)
    ensures
        wheel_bytes(w) == spec_u32_to_le_bytes(w.steer) + spec_u64_to_le_bytes(
            f64_of_f32_bits(w.pos[0]),
        ) + spec_u64_to_le_bytes(f64_of_f32_bits(w.pos[1])) + spec_u64_to_le_bytes(
            f64_of_f32_bits(w.pos[2]),
        ) + spec_u32_to_le_bytes(w.width) + spec_u32_to_le_bytes(w.radius) + spec_u32_to_le_bytes(
            w.bound_index,
        ) + match w.mesh {
            Some(m) => mesh_bytes(m),
            None => Seq::empty(),
        },
        wheel_bytes(w).subrange(28, 32) == spec_u32_to_le_bytes(w.width),
        wheel_bytes(w).subrange(32, 36) == spec_u32_to_le_bytes(w.radius),
        wheel_bytes(w).subrange(36, 40) == spec_u32_to_le_bytes(w.bound_index),
{
    lemma_auto_spec_u32_to_from_le_bytes();
    lemma_take_u64(f64_of_f32_bits(w.pos[0]), Seq::empty());
    lemma_take_u64(f64_of_f32_bits(w.pos[1]), Seq::empty());
    lemma_take_u64(f64_of_f32_bits(w.pos[2]), Seq::empty());
    let b = wheel_bytes(w);
    assert(b.subrange(28, 32) =~= spec_u32_to_le_bytes(w.width));
    assert(b.subrange(32, 36) =~= spec_u32_to_le_bytes(w.radius));
    assert(b.subrange(36, 40) =~= spec_u32_to_le_bytes(w.bound_index));
}

/// Reading a wheel record: the `u32` word first is whether it steers; the
/// three 64-bit floats are its position, each read as the nearest 32-bit
/// float; the three `u32` words after them are its width, its radius and its
/// bounding polygon, in that order; a mesh record follows exactly where it
/// steers.
pub proof fn lemma_read_wheel_record(
    steer: u32,
    x: u64,
    y: u64,
    z: u64,
    width: u32,
    radius: u32,
    bound_index: u32,
    mesh: Option<DrawMeshV>,
    rest: Seq<u8>,
)
    requires
        (mesh is Some) == (steer != 0),
        mesh is Some ==> mesh_fits(mesh.unwrap()),
    ensures
        take_wheel(
            spec_u32_to_le_bytes(steer) + spec_u64_to_le_bytes(x) + spec_u64_to_le_bytes(y)
                + spec_u64_to_le_bytes(z) + spec_u32_to_le_bytes(width) + spec_u32_to_le_bytes(
                radius,
            ) + spec_u32_to_le_bytes(bound_index) + match mesh {
                Some(m) => mesh_bytes(m),
                None => Seq::empty(),
            } + rest,
        ) == Some(
            (
                Wheel {
                    mesh,
                    steer,
                    pos: [f32_of_f64_bits(x), f32_of_f64_bits(y), f32_of_f64_bits(z)],
                    width,
                    radius,
                    bound_index,
                },
                rest,
            ),
        ),
{
    let p1 = spec_u32_to_le_bytes(steer);
    let p2 = spec_u64_to_le_bytes(x);
    let p3 = spec_u64_to_le_bytes(y);
    let p4 = spec_u64_to_le_bytes(z);
    let p5 = spec_u32_to_le_bytes(width);
    let p6 = spec_u32_to_le_bytes(radius);
    let p7 = spec_u32_to_le_bytes(bound_index);
    let p8: Seq<u8> = match mesh {
        Some(m) => mesh_bytes(m),
        None => Seq::empty(),
    };
    let t8 = p8 + rest;
    let t7 = p7 + t8;
    let t6 = p6 + t7;
    let t5 = p5 + t6;
    let t4 = p4 + t5;
    let t3 = p3 + t4;
    let t2 = p2 + t3;
    let l2 = p1 + p2;
    let l3 = l2 + p3;
    let l4 = l3 + p4;
    let l5 = l4 + p5;
    let l6 = l5 + p6;
    let l7 = l6 + p7;
    lemma_assoc(l7, p8, rest);
    lemma_assoc(l6, p7, t8);
    lemma_assoc(l5, p6, t7);
    lemma_assoc(l4, p5, t6);
    lemma_assoc(l3, p4, t5);
    lemma_assoc(l2, p3, t4);
    lemma_assoc(p1, p2, t3);
    crate::le::lemma_take_u32(steer, t2);
    lemma_take_u64(x, t3);
    lemma_take_u64(y, t4);
    lemma_take_u64(z, t5);
    crate::le::lemma_take_u32(width, t6);
    crate::le::lemma_take_u32(radius, t7);
    crate::le::lemma_take_u32(bound_index, t8);
    if let Some(m) = mesh {
        crate::mesh::lemma_take_mesh(m, rest);
    }
    let pos: [u32; 3] = [f32_of_f64_bits(x), f32_of_f64_bits(y), f32_of_f64_bits(z)];
    assert(pos@ =~= seq![f32_of_f64_bits(x), f32_of_f64_bits(y), f32_of_f64_bits(z)]);
}

/// A slot record: the three `i32` words of its position, then its angle; its
/// mesh and scale are not stored.
pub proof fn lemma_slot_record(sl: Slot<DrawMeshV>)
    ensures
        slot_bytes(sl) == spec_u32_to_le_bytes(sl.pos[0] as u32) + spec_u32_to_le_bytes(
            sl.pos[1] as u32,
        ) + spec_u32_to_le_bytes(sl.pos[2] as u32) + spec_u32_to_le_bytes(sl.angle as u32),
{
}

/// A debris record: the record of its drawn mesh, then that of its collision
/// mesh.
pub proof fn lemma_debrie_record(d: Debrie<DrawMeshV, CollisionMeshV>)
    ensures
        debrie_bytes(d) == mesh_bytes(d.mesh) + mesh_bytes(d.shape),
{
}

/// An M3D file: the body mesh; the three dimensions, the radius, the numbers
/// of wheels and of debris and the two colour words as `u32` words; the wheel
/// records; the debris records; the collision shape; a zero slot mask; and
/// the slot records.
pub proof fn lemma_model_file(m: FullModelV)
    ensures
        full_model_bytes(m) == mesh_bytes(m.body) + spec_u32_to_le_bytes(m.dimensions[0])
            + spec_u32_to_le_bytes(m.dimensions[1]) + spec_u32_to_le_bytes(m.dimensions[2])
            + spec_u32_to_le_bytes(m.max_radius) + spec_u32_to_le_bytes(m.wheels.len() as u32)
            + spec_u32_to_le_bytes(m.debris.len() as u32) + spec_u32_to_le_bytes(m.color[0])
            + spec_u32_to_le_bytes(m.color[1]) + many_bytes(
            m.wheels,
            |w: Wheel<DrawMeshV>| wheel_bytes(w),
        ) + many_bytes(m.debris, |d: Debrie<DrawMeshV, CollisionMeshV>| debrie_bytes(d))
            + mesh_bytes(m.shape) + spec_u32_to_le_bytes(0) + many_bytes(
            m.slots,
            |sl: Slot<DrawMeshV>| slot_bytes(sl),
        ),
{
    let ww = |w: Wheel<DrawMeshV>| wheel_bytes(w);
    let dw = |d: Debrie<DrawMeshV, CollisionMeshV>| debrie_bytes(d);
    let sw = |sl: Slot<DrawMeshV>| slot_bytes(sl);
    assert(crate::model::wheel_writer() =~= ww);
    assert(crate::model::debrie_writer() =~= dw);
    assert(crate::model::slot_writer() =~= sw);
    let body = mesh_bytes(m.body);
    let h1 = spec_u32_to_le_bytes(m.dimensions[0]);
    let h2 = spec_u32_to_le_bytes(m.dimensions[1]);
    let h3 = spec_u32_to_le_bytes(m.dimensions[2]);
    let h4 = spec_u32_to_le_bytes(m.max_radius);
    let h5 = spec_u32_to_le_bytes(m.wheels.len() as u32);
    let h6 = spec_u32_to_le_bytes(m.debris.len() as u32);
    let h7 = spec_u32_to_le_bytes(m.color[0]);
    let h8 = spec_u32_to_le_bytes(m.color[1]);
    let a = many_bytes(m.wheels, ww);
    let b = many_bytes(m.debris, dw);
    let c = mesh_bytes(m.shape);
    let d = spec_u32_to_le_bytes(0);
    let e = many_bytes(m.slots, sw);
    let k2 = h1 + h2;
    let k3 = k2 + h3;
    let k4 = k3 + h4;
    let k5 = k4 + h5;
    let k6 = k5 + h6;
    let k7 = k6 + h7;
    let k8 = k7 + h8;
    assert(crate::model::model_head_bytes(m) == k8);
    lemma_assoc(body, k7, h8);
    lemma_assoc(body, k6, h7);
    lemma_assoc(body, k5, h6);
    lemma_assoc(body, k4, h5);
    lemma_assoc(body, k3, h4);
    lemma_assoc(body, k2, h3);
    lemma_assoc(body, h1, h2);
    let x = body + k8;
    let q2 = a + b;
    let q3 = q2 + c;
    let q4 = q3 + d;
    let q5 = q4 + e;
    assert(crate::model::model_parts_bytes(m) == q5);
    lemma_assoc(x, q4, e);
    lemma_assoc(x, q3, d);
    lemma_assoc(x, q2, c);
    lemma_assoc(x, a, b);
}

} // verus!
