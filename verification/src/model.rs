//! Whole models: the body, its wheels, debris, collision shape and weapon
//! slots, and their record in an M3D file.

use vstd::prelude::*;
use vstd::bytes::spec_u32_to_le_bytes;
use crate::le::{
    Cursor, take_u32, take_i32, take_vec_i32, i32_bytes, vec_i32_bytes, read_vec_i32, write_u32,
    write_i32, write_vec_i32, lemma_take_u32, lemma_take_i32, lemma_take_vec_i32, take_u64,
};
use crate::float::{
    take_f32, f32_bytes, read_f32, write_f32, is_signaling, lemma_take_f32,
    lemma_narrow_not_signaling,
};
use crate::many::{
    take_many, many_bytes, lemma_take_many_fails, lemma_many_bytes_push, lemma_assoc,
    lemma_take_many_bytes_mapped, lemma_many_bytes_map_values, lemma_take_many_all,
};
use crate::geometry::{Geometry, GeometryV, DrawTriangle, CollisionQuad};
use crate::mesh::{
    Mesh, read_as_view, take_mesh, mesh_bytes, mesh_fits, mesh_total_fits, lemma_take_mesh,
    lemma_take_mesh_fits, u32_reader,
};

verus! {

/// The number of weapon slots of a model.
pub const MAX_SLOTS: usize = 3;

/// The bits of the 32-bit float 1.0: the scale of a slot read from a file.
pub const UNIT_SCALE: u32 = 0x3f80_0000;

/// A wheel: its mesh where it is drawn, whether it steers, its position (the
/// bits of three 32-bit floats, each stored in the file as a 64-bit float),
/// its width, radius and bounding polygon.
#[derive(Clone, Debug, PartialEq, Eq)]
pub struct Wheel<M> {
    pub mesh: Option<M>,
    pub steer: u32,
    pub pos: [u32; 3],
    pub width: u32,
    pub radius: u32,
    pub bound_index: u32,
}

/// A piece of debris: a drawn mesh and a collision mesh.
#[derive(Clone, Debug, PartialEq, Eq)]
pub struct Debrie<M, S> {
    pub mesh: M,
    pub shape: S,
}

/// A weapon slot: the mesh mounted there, its scale (the bits of a 32-bit
/// float), position and angle.
#[derive(Clone, Debug, PartialEq, Eq)]
pub struct Slot<M> {
    pub mesh: Option<M>,
    pub scale: u32,
    pub pos: [i32; 3],
    pub angle: i32,
}

/// A model: body and collision shape, dimensions, radius, colour, wheels,
/// debris and weapon slots.
#[derive(Clone, Debug, PartialEq, Eq)]
pub struct Model<M, S> {
    pub body: M,
    pub shape: S,
    pub dimensions: [u32; 3],
    pub max_radius: u32,
    pub color: [u32; 2],
    pub wheels: Vec<Wheel<M>>,
    pub debris: Vec<Debrie<M, S>>,
    pub slots: [Slot<M>; MAX_SLOTS],
}

/// The contents of a [`Model`], its parts taken by their views.
pub struct ModelV<M, S> {
    pub body: M,
    pub shape: S,
    pub dimensions: [u32; 3],
    pub max_radius: u32,
    pub color: [u32; 2],
    pub wheels: Seq<Wheel<M>>,
    pub debris: Seq<Debrie<M, S>>,
    pub slots: Seq<Slot<M>>,
}

/// A mesh of drawn triangles.
pub type DrawMesh = Mesh<Geometry<DrawTriangle>>;

/// A mesh of collision quads.
pub type CollisionMesh = Mesh<Geometry<CollisionQuad>>;

/// A model as an M3D file holds it.
pub type FullModel = Model<DrawMesh, CollisionMesh>;

/// The content of a drawn mesh.
pub type DrawMeshV = Mesh<GeometryV<DrawTriangle>>;

/// The content of a collision mesh.
pub type CollisionMeshV = Mesh<GeometryV<CollisionQuad>>;

/// The content of a model as an M3D file holds it.
pub type FullModelV = ModelV<DrawMeshV, CollisionMeshV>;

/// An optional part taken by its view.
pub open spec fn opt_view<M: View>(o: Option<M>) -> Option<M::V> {
    match o {
        Some(m) => Some(m@),
        None => None,
    }
}

impl<M: View> View for Wheel<M> {
    type V = Wheel<M::V>;

    open spec fn view(&self) -> Wheel<M::V> {
        Wheel {
            mesh: opt_view(self.mesh),
            steer: self.steer,
            pos: self.pos,
            width: self.width,
            radius: self.radius,
            bound_index: self.bound_index,
        }
    }
}

impl<M: View, S: View> View for Debrie<M, S> {
    type V = Debrie<M::V, S::V>;

    open spec fn view(&self) -> Debrie<M::V, S::V> {
        Debrie { mesh: self.mesh@, shape: self.shape@ }
    }
}

impl<M: View> View for Slot<M> {
    type V = Slot<M::V>;

    open spec fn view(&self) -> Slot<M::V> {
        Slot { mesh: opt_view(self.mesh), scale: self.scale, pos: self.pos, angle: self.angle }
    }
}

impl<M: View, S: View> View for Model<M, S> {
    type V = ModelV<M::V, S::V>;

    open spec fn view(&self) -> ModelV<M::V, S::V> {
        ModelV {
            body: self.body@,
            shape: self.shape@,
            dimensions: self.dimensions,
            max_radius: self.max_radius,
            color: self.color,
            wheels: self.wheels@.map_values(|w: Wheel<M>| w@),
            debris: self.debris@.map_values(|d: Debrie<M, S>| d@),
            slots: self.slots@.map_values(|s: Slot<M>| s@),
        }
    }
}


// ----------------------------------------------------------------------------
// Record layouts

/// A wheel record: whether it steers, its position as three 64-bit floats,
/// each read as the nearest 32-bit float, its width, radius and bounding
/// polygon, then the record of its mesh where it steers.
pub open spec fn take_wheel(s: Seq<u8>) -> Option<(Wheel<DrawMeshV>, Seq<u8>)> {
    match take_u32(s) {
        None => None,
        Some((steer, s)) => match take_f32(s) {
            None => None,
            Some((x, s)) => match take_f32(s) {
                None => None,
                Some((y, s)) => match take_f32(s) {
                    None => None,
                    Some((z, s)) => match take_u32(s) {
                        None => None,
                        Some((width, s)) => match take_u32(s) {
                            None => None,
                            Some((radius, s)) => match take_u32(s) {
                                None => None,
                                Some((bound_index, s)) => if steer != 0 {
                                    match take_mesh::<DrawTriangle>(s) {
                                        None => None,
                                        Some((mesh, s)) => Some(
                                            (
                                                Wheel {
                                                    mesh: Some(mesh),
                                                    steer,
                                                    pos: [x, y, z],
                                                    width,
                                                    radius,
                                                    bound_index,
                                                },
                                                s,
                                            ),
                                        ),
                                    }
                                } else {
                                    Some(
                                        (
                                            Wheel {
                                                mesh: None,
                                                steer,
                                                pos: [x, y, z],
                                                width,
                                                radius,
                                                bound_index,
                                            },
                                            s,
                                        ),
                                    )
                                },
                            },
                        },
                    },
                },
            },
        },
    }
}

/// The bytes of a wheel record: the mesh record follows where the wheel has
/// a mesh.
pub open spec fn wheel_bytes(w: Wheel<DrawMeshV>) -> Seq<u8> {
    spec_u32_to_le_bytes(w.steer) + f32_bytes(w.pos[0]) + f32_bytes(w.pos[1])
        + f32_bytes(w.pos[2]) + spec_u32_to_le_bytes(w.width) + spec_u32_to_le_bytes(
        w.radius,
    ) + spec_u32_to_le_bytes(w.bound_index) + match w.mesh {
        Some(m) => mesh_bytes(m),
        None => Seq::empty(),
    }
}

/// Reads wheel records.
pub open spec fn wheel_reader() -> spec_fn(Seq<u8>) -> Option<(Wheel<DrawMeshV>, Seq<u8>)> {
    |s: Seq<u8>| take_wheel(s)
}

/// Writes wheel records.
pub open spec fn wheel_writer() -> spec_fn(Wheel<DrawMeshV>) -> Seq<u8> {
    |w: Wheel<DrawMeshV>| wheel_bytes(w)
}

/// A debris record: a drawn mesh, then a collision mesh.
pub open spec fn take_debrie(s: Seq<u8>) -> Option<(Debrie<DrawMeshV, CollisionMeshV>, Seq<u8>)> {
    match take_mesh::<DrawTriangle>(s) {
        None => None,
        Some((mesh, s)) => match take_mesh::<CollisionQuad>(s) {
            None => None,
            Some((shape, s)) => Some((Debrie { mesh, shape }, s)),
        },
    }
}

/// The bytes of a debris record.
pub open spec fn debrie_bytes(d: Debrie<DrawMeshV, CollisionMeshV>) -> Seq<u8> {
    mesh_bytes(d.mesh) + mesh_bytes(d.shape)
}

/// Reads debris records.
pub open spec fn debrie_reader() -> spec_fn(Seq<u8>) -> Option<
    (Debrie<DrawMeshV, CollisionMeshV>, Seq<u8>),
> {
    |s: Seq<u8>| take_debrie(s)
}

/// Writes debris records.
pub open spec fn debrie_writer() -> spec_fn(Debrie<DrawMeshV, CollisionMeshV>) -> Seq<u8> {
    |d: Debrie<DrawMeshV, CollisionMeshV>| debrie_bytes(d)
}

/// A slot record: the position and the angle. The slot read has no mesh and
/// scale 1.0.
pub open spec fn take_slot(s: Seq<u8>) -> Option<(Slot<DrawMeshV>, Seq<u8>)> {
    match take_vec_i32(s) {
        None => None,
        Some((pos, s)) => match take_i32(s) {
            None => None,
            Some((angle, s)) => Some((Slot { mesh: None, scale: UNIT_SCALE, pos, angle }, s)),
        },
    }
}

/// The bytes of a slot record.
pub open spec fn slot_bytes(sl: Slot<DrawMeshV>) -> Seq<u8> {
    vec_i32_bytes(sl.pos) + i32_bytes(sl.angle)
}

/// Reads slot records.
pub open spec fn slot_reader() -> spec_fn(Seq<u8>) -> Option<(Slot<DrawMeshV>, Seq<u8>)> {
    |s: Seq<u8>| take_slot(s)
}

/// Writes slot records.
pub open spec fn slot_writer() -> spec_fn(Slot<DrawMeshV>) -> Seq<u8> {
    |sl: Slot<DrawMeshV>| slot_bytes(sl)
}

/// An M3D file: the body mesh; the dimensions, radius, numbers of wheels and
/// of debris, and colour; the wheels; the debris; the collision shape; a slot
/// mask that is not kept; and the slots. Nothing is read where a mesh cannot
/// be read or the bytes end first; bytes after the slots are not read.
pub open spec fn take_full_model(s: Seq<u8>) -> Option<(FullModelV, Seq<u8>)> {
    match take_mesh::<DrawTriangle>(s) {
        None => None,
        Some((body, s)) => take_model_rest(s, body),
    }
}

/// The part of an M3D file after the body mesh.
pub open spec fn take_model_rest(s: Seq<u8>, body: DrawMeshV) -> Option<(FullModelV, Seq<u8>)> {
    match take_u32(s) {
        None => None,
        Some((d0, s)) => match take_u32(s) {
            None => None,
            Some((d1, s)) => match take_u32(s) {
                None => None,
                Some((d2, s)) => match take_u32(s) {
                    None => None,
                    Some((max_radius, s)) => match take_u32(s) {
                        None => None,
                        Some((num_wheels, s)) => match take_u32(s) {
                            None => None,
                            Some((num_debris, s)) => match take_u32(s) {
                                None => None,
                                Some((c0, s)) => match take_u32(s) {
                                    None => None,
                                    Some((c1, s)) => take_model_parts(
                                        s,
                                        body,
                                        [d0, d1, d2],
                                        max_radius,
                                        num_wheels,
                                        num_debris,
                                        [c0, c1],
                                    ),
                                },
                            },
                        },
                    },
                },
            },
        },
    }
}

/// The part of an M3D file after its header: wheels, debris, collision shape,
/// slot mask and slots.
#[verifier::opaque]
pub open spec fn take_model_parts(
    s: Seq<u8>,
    body: DrawMeshV,
    dimensions: [u32; 3],
    max_radius: u32,
    num_wheels: u32,
    num_debris: u32,
    color: [u32; 2],
) -> Option<(FullModelV, Seq<u8>)> {
    match take_many(s, num_wheels as nat, wheel_reader()) {
        None => None,
        Some((wheels, s)) => match take_many(s, num_debris as nat, debrie_reader()) {
            None => None,
            Some((debris, s)) => match take_mesh::<CollisionQuad>(s) {
                None => None,
                Some((shape, s)) => match take_u32(s) {
                    None => None,
                    Some((_slot_mask, s)) => match take_many(s, 3, slot_reader()) {
                        None => None,
                        Some((slots, s)) => Some(
                            (
                                ModelV {
                                    body,
                                    shape,
                                    dimensions,
                                    max_radius,
                                    color,
                                    wheels,
                                    debris,
                                    slots,
                                },
                                s,
                            ),
                        ),
                    },
                },
            },
        },
    }
}

/// The header of an M3D file after the body mesh.
pub open spec fn model_head_bytes(m: FullModelV) -> Seq<u8> {
    spec_u32_to_le_bytes(m.dimensions[0]) + spec_u32_to_le_bytes(m.dimensions[1])
        + spec_u32_to_le_bytes(m.dimensions[2]) + spec_u32_to_le_bytes(m.max_radius)
        + spec_u32_to_le_bytes(m.wheels.len() as u32) + spec_u32_to_le_bytes(m.debris.len() as u32)
        + spec_u32_to_le_bytes(m.color[0]) + spec_u32_to_le_bytes(m.color[1])
}

/// The rest of an M3D file: wheels, debris, collision shape, a zero slot
/// mask and the slots.
pub open spec fn model_parts_bytes(m: FullModelV) -> Seq<u8> {
    many_bytes(m.wheels, wheel_writer()) + many_bytes(m.debris, debrie_writer()) + mesh_bytes(
        m.shape,
    ) + spec_u32_to_le_bytes(0) + many_bytes(m.slots, slot_writer())
}

/// The bytes of the M3D file of a model.
pub open spec fn full_model_bytes(m: FullModelV) -> Seq<u8> {
    mesh_bytes(m.body) + model_head_bytes(m) + model_parts_bytes(m)
}


// ----------------------------------------------------------------------------
// Reading

/// Reads a wheel record.
fn read_wheel(input: &mut Cursor) -> (r: Option<Wheel<DrawMesh>>)
    ensures
        read_as_view(r, final(input).rest(), take_wheel(old(input).rest())),
{
    let steer = input.read_u32()?;
    let x = read_f32(input)?;
    let y = read_f32(input)?;
    let z = read_f32(input)?;
    let width = input.read_u32()?;
    let radius = input.read_u32()?;
    let bound_index = input.read_u32()?;
    let mesh: Option<DrawMesh> = if steer != 0 {
        Some(Mesh::load(input)?)
    } else {
        None
    };
    Some(Wheel { mesh, steer, pos: [x, y, z], width, radius, bound_index })
}

/// Reads a debris record.
fn read_debrie(input: &mut Cursor) -> (r: Option<Debrie<DrawMesh, CollisionMesh>>)
    ensures
        read_as_view(r, final(input).rest(), take_debrie(old(input).rest())),
{
    let mesh: DrawMesh = Mesh::load(input)?;
    let shape: CollisionMesh = Mesh::load(input)?;
    Some(Debrie { mesh, shape })
}

/// Reads a slot record.
fn read_slot(input: &mut Cursor) -> (r: Option<Slot<DrawMesh>>)
    ensures
        read_as_view(r, final(input).rest(), take_slot(old(input).rest())),
{
    let pos = read_vec_i32(input)?;
    let angle = input.read_i32()?;
    Some(Slot { mesh: None, scale: UNIT_SCALE, pos, angle })
}

/// Reads `n` wheel records.
#[verifier::loop_isolation(false)]
fn read_wheels(input: &mut Cursor, n: u32) -> (r: Option<Vec<Wheel<DrawMesh>>>)
    ensures
        match take_many(old(input).rest(), n as nat, wheel_reader()) {
            Some((ws, rest)) => r is Some && r.unwrap()@.map_values(|w: Wheel<DrawMesh>| w@) == ws
                && final(input).rest() == rest,
            None => r is None,
        },
{
    let ghost s0 = input.rest();
    let mut v: Vec<Wheel<DrawMesh>> = Vec::new();
    let mut i: u32 = 0;
    while i < n
        invariant
            i <= n,
            take_many(s0, i as nat, wheel_reader()) == Some(
                (v@.map_values(|w: Wheel<DrawMesh>| w@), input.rest()),
            ),
        decreases n - i,
    {
        let w = match read_wheel(input) {
            Some(w) => w,
            None => {
                proof {
                    assert(take_many(s0, (i + 1) as nat, wheel_reader()) is None);
                    lemma_take_many_fails(s0, (i + 1) as nat, n as nat, wheel_reader());
                }
                return None;
            },
        };
        let ghost old_v = v@;
        v.push(w);
        i = i + 1;
        assert(v@.map_values(|w: Wheel<DrawMesh>| w@) =~= old_v.map_values(
            |w: Wheel<DrawMesh>| w@,
        ).push(w@));
    }
    Some(v)
}

/// Reads `n` debris records.
#[verifier::loop_isolation(false)]
fn read_debris(input: &mut Cursor, n: u32) -> (r: Option<Vec<Debrie<DrawMesh, CollisionMesh>>>)
    ensures
        match take_many(old(input).rest(), n as nat, debrie_reader()) {
            Some((ds, rest)) => r is Some && r.unwrap()@.map_values(
                |d: Debrie<DrawMesh, CollisionMesh>| d@,
            ) == ds && final(input).rest() == rest,
            None => r is None,
        },
{
    let ghost s0 = input.rest();
    let mut v: Vec<Debrie<DrawMesh, CollisionMesh>> = Vec::new();
    let mut i: u32 = 0;
    while i < n
        invariant
            i <= n,
            take_many(s0, i as nat, debrie_reader()) == Some(
                (v@.map_values(|d: Debrie<DrawMesh, CollisionMesh>| d@), input.rest()),
            ),
        decreases n - i,
    {
        let d = match read_debrie(input) {
            Some(d) => d,
            None => {
                proof {
                    assert(take_many(s0, (i + 1) as nat, debrie_reader()) is None);
                    lemma_take_many_fails(s0, (i + 1) as nat, n as nat, debrie_reader());
                }
                return None;
            },
        };
        let ghost old_v = v@;
        v.push(d);
        i = i + 1;
        assert(v@.map_values(|d: Debrie<DrawMesh, CollisionMesh>| d@) =~= old_v.map_values(
            |d: Debrie<DrawMesh, CollisionMesh>| d@,
        ).push(d@));
    }
    Some(v)
}


/// Reads the three slot records.
fn read_slots(input: &mut Cursor) -> (r: Option<[Slot<DrawMesh>; MAX_SLOTS]>)
    ensures
        match take_many(old(input).rest(), 3, slot_reader()) {
            Some((ss, rest)) => r is Some && r.unwrap()@.map_values(|sl: Slot<DrawMesh>| sl@) == ss
                && final(input).rest() == rest,
            None => r is None,
        },
{
    let ghost s0 = input.rest();
    assert(take_many(s0, 0, slot_reader()) == Some((Seq::<Slot<DrawMeshV>>::empty(), s0)));
    let a = match read_slot(input) {
        Some(a) => a,
        None => {
            proof {
                assert(take_many(s0, 1, slot_reader()) is None);
                lemma_take_many_fails(s0, 1, 3, slot_reader());
            }
            return None;
        },
    };
    let ghost s1 = input.rest();
    assert(Seq::<Slot<DrawMeshV>>::empty().push(a@) =~= seq![a@]);
    assert(take_many(s0, 1, slot_reader()) == Some((seq![a@], s1)));
    let b = match read_slot(input) {
        Some(b) => b,
        None => {
            proof {
                assert(take_many(s0, 2, slot_reader()) is None);
                lemma_take_many_fails(s0, 2, 3, slot_reader());
            }
            return None;
        },
    };
    let ghost s2 = input.rest();
    assert(seq![a@].push(b@) =~= seq![a@, b@]);
    assert(take_many(s0, 2, slot_reader()) == Some((seq![a@, b@], s2)));
    let c = match read_slot(input) {
        Some(c) => c,
        None => {
            proof {
                assert(take_many(s0, 3, slot_reader()) is None);
            }
            return None;
        },
    };
    assert(seq![a@, b@].push(c@) =~= seq![a@, b@, c@]);
    assert(take_many(s0, 3, slot_reader()) == Some((seq![a@, b@, c@], input.rest())));
    let slots = [a, b, c];
    assert(slots@.map_values(|sl: Slot<DrawMesh>| sl@) =~= seq![a@, b@, c@]);
    Some(slots)
}

/// Reads the part of an M3D file after its header.
fn read_model_parts(
    input: &mut Cursor,
    body: DrawMesh,
    dimensions: [u32; 3],
    max_radius: u32,
    num_wheels: u32,
    num_debris: u32,
    color: [u32; 2],
) -> (r: Option<FullModel>)
    ensures
        match take_model_parts(
            old(input).rest(),
            body@,
            dimensions,
            max_radius,
            num_wheels,
            num_debris,
            color,
        ) {
            Some((m, rest)) => r is Some && r.unwrap()@ == m && final(input).rest() == rest,
            None => r is None,
        },
{
    reveal(take_model_parts);
    let wheels = read_wheels(input, num_wheels)?;
    let debris = read_debris(input, num_debris)?;
    let shape: CollisionMesh = Mesh::load(input)?;
    let _slot_mask = input.read_u32()?;
    let slots = read_slots(input)?;
    let m = Model { body, shape, dimensions, max_radius, color, wheels, debris, slots };
    Some(m)
}

impl Model<DrawMesh, CollisionMesh> {
    /// Reads a model from the bytes of an M3D file; `None` where a mesh
    /// cannot be read (its version is wrong or a polygon has the wrong number
    /// of corners) or the bytes end before the slots do. These are errors
    /// returned to the caller, by design: a malformed file never makes the
    /// reader panic, and a program that wants to stop on one does so itself.
    pub fn load(data: &[u8]) -> (r: Option<Self>)
        ensures
            match take_full_model(data@) {
                Some((m, _)) => r is Some && r.unwrap()@ == m,
                None => r is None,
            },
    {
        let mut input = Cursor::new(data);
        let body: DrawMesh = Mesh::load(&mut input)?;
        let d0 = input.read_u32()?;
        let d1 = input.read_u32()?;
        let d2 = input.read_u32()?;
        let max_radius = input.read_u32()?;
        let num_wheels = input.read_u32()?;
        let num_debris = input.read_u32()?;
        let c0 = input.read_u32()?;
        let c1 = input.read_u32()?;
        read_model_parts(&mut input, body, [d0, d1, d2], max_radius, num_wheels, num_debris, [c0, c1])
    }
}


// ----------------------------------------------------------------------------
// Writing

/// Whether every mesh of a model can have its corner total computed in 32
/// bits, as writing it does.
pub open spec fn full_model_total_fits(m: FullModelV) -> bool {
    &&& mesh_total_fits(m.body)
    &&& mesh_total_fits(m.shape)
    &&& forall|i: int|
        0 <= i < m.wheels.len() && (#[trigger] m.wheels[i]).mesh is Some ==> mesh_total_fits(
            m.wheels[i].mesh.unwrap(),
        )
    &&& forall|i: int|
        0 <= i < m.debris.len() ==> mesh_total_fits((#[trigger] m.debris[i]).mesh)
            && mesh_total_fits(m.debris[i].shape)
}

/// Appends a wheel record.
fn write_wheel(output: &mut Vec<u8>, wheel: &Wheel<DrawMesh>)
    requires
        wheel@.mesh is Some ==> mesh_total_fits(wheel@.mesh.unwrap()),
    ensures
        final(output)@ == old(output)@ + wheel_bytes(wheel@),
{
    let ghost o0 = output@;
    write_u32(output, wheel.steer);
    write_f32(output, wheel.pos[0]);
    write_f32(output, wheel.pos[1]);
    write_f32(output, wheel.pos[2]);
    write_u32(output, wheel.width);
    write_u32(output, wheel.radius);
    write_u32(output, wheel.bound_index);
    let ghost o1 = output@;
    if let Some(ref mesh) = wheel.mesh {
        mesh.save(output);
    }
    proof {
        let w = wheel@;
        let head = spec_u32_to_le_bytes(w.steer) + f32_bytes(w.pos[0])
            + f32_bytes(w.pos[1]) + f32_bytes(w.pos[2])
            + spec_u32_to_le_bytes(w.width) + spec_u32_to_le_bytes(w.radius)
            + spec_u32_to_le_bytes(w.bound_index);
        assert(o1 =~= o0 + head);
        let tail = match w.mesh {
            Some(m) => mesh_bytes(m),
            None => Seq::empty(),
        };
        assert(output@ =~= o1 + tail);
        lemma_assoc(o0, head, tail);
    }
}

/// Appends a debris record.
fn write_debrie(output: &mut Vec<u8>, debrie: &Debrie<DrawMesh, CollisionMesh>)
    requires
        mesh_total_fits(debrie@.mesh),
        mesh_total_fits(debrie@.shape),
    ensures
        final(output)@ == old(output)@ + debrie_bytes(debrie@),
{
    let ghost o0 = output@;
    debrie.mesh.save(output);
    debrie.shape.save(output);
    proof {
        lemma_assoc(o0, mesh_bytes(debrie@.mesh), mesh_bytes(debrie@.shape));
    }
}

/// Appends a slot record.
fn write_slot(output: &mut Vec<u8>, slot: &Slot<DrawMesh>)
    ensures
        final(output)@ == old(output)@ + slot_bytes(slot@),
{
    write_vec_i32(output, slot.pos);
    write_i32(output, slot.angle);
    assert(final(output)@ =~= old(output)@ + slot_bytes(slot@));
}

/// Appends the records of the wheels `v`.
fn write_wheels(output: &mut Vec<u8>, v: &Vec<Wheel<DrawMesh>>)
    requires
        forall|i: int|
            0 <= i < v.len() && (#[trigger] v@[i])@.mesh is Some ==> mesh_total_fits(
                v@[i]@.mesh.unwrap(),
            ),
    ensures
        final(output)@ == old(output)@ + many_bytes(
            v@.map_values(|w: Wheel<DrawMesh>| w@),
            wheel_writer(),
        ),
{
    let ghost head = output@;
    let ghost vs = v@.map_values(|w: Wheel<DrawMesh>| w@);
    let mut i: usize = 0;
    while i < v.len()
        invariant
            i <= v.len(),
            vs == v@.map_values(|w: Wheel<DrawMesh>| w@),
            forall|i: int|
                0 <= i < v.len() && (#[trigger] v@[i])@.mesh is Some ==> mesh_total_fits(
                    v@[i]@.mesh.unwrap(),
                ),
            output@ == head + many_bytes(vs.take(i as int), wheel_writer()),
        decreases v.len() - i,
    {
        write_wheel(output, &v[i]);
        proof {
            lemma_many_bytes_push(vs.take(i as int), vs[i as int], wheel_writer());
            assert(vs.take(i as int).push(vs[i as int]) =~= vs.take(i + 1));
            lemma_assoc(head, many_bytes(vs.take(i as int), wheel_writer()), wheel_bytes(vs[i as int]));
        }
        i = i + 1;
    }
    assert(vs.take(v.len() as int) =~= vs);
}

/// Appends the records of the debris `v`.
fn write_debris(output: &mut Vec<u8>, v: &Vec<Debrie<DrawMesh, CollisionMesh>>)
    requires
        forall|i: int|
            0 <= i < v.len() ==> mesh_total_fits((#[trigger] v@[i])@.mesh) && mesh_total_fits(
                v@[i]@.shape,
            ),
    ensures
        final(output)@ == old(output)@ + many_bytes(
            v@.map_values(|d: Debrie<DrawMesh, CollisionMesh>| d@),
            debrie_writer(),
        ),
{
    let ghost head = output@;
    let ghost vs = v@.map_values(|d: Debrie<DrawMesh, CollisionMesh>| d@);
    let mut i: usize = 0;
    while i < v.len()
        invariant
            i <= v.len(),
            vs == v@.map_values(|d: Debrie<DrawMesh, CollisionMesh>| d@),
            forall|i: int|
                0 <= i < v.len() ==> mesh_total_fits((#[trigger] v@[i])@.mesh) && mesh_total_fits(
                    v@[i]@.shape,
                ),
            output@ == head + many_bytes(vs.take(i as int), debrie_writer()),
        decreases v.len() - i,
    {
        write_debrie(output, &v[i]);
        proof {
            lemma_many_bytes_push(vs.take(i as int), vs[i as int], debrie_writer());
            assert(vs.take(i as int).push(vs[i as int]) =~= vs.take(i + 1));
            lemma_assoc(head, many_bytes(vs.take(i as int), debrie_writer()), debrie_bytes(vs[i as int]));
        }
        i = i + 1;
    }
    assert(vs.take(v.len() as int) =~= vs);
}

/// Appends the records of the slots.
fn write_slots(output: &mut Vec<u8>, slots: &[Slot<DrawMesh>; MAX_SLOTS])
    ensures
        final(output)@ == old(output)@ + many_bytes(
            slots@.map_values(|sl: Slot<DrawMesh>| sl@),
            slot_writer(),
        ),
{
    let ghost head = output@;
    let ghost vs = slots@.map_values(|sl: Slot<DrawMesh>| sl@);
    let mut i: usize = 0;
    while i < MAX_SLOTS
        invariant
            i <= MAX_SLOTS,
            vs == slots@.map_values(|sl: Slot<DrawMesh>| sl@),
            output@ == head + many_bytes(vs.take(i as int), slot_writer()),
        decreases MAX_SLOTS - i,
    {
        write_slot(output, &slots[i]);
        proof {
            lemma_many_bytes_push(vs.take(i as int), vs[i as int], slot_writer());
            assert(vs.take(i as int).push(vs[i as int]) =~= vs.take(i + 1));
            lemma_assoc(head, many_bytes(vs.take(i as int), slot_writer()), slot_bytes(vs[i as int]));
        }
        i = i + 1;
    }
    assert(vs.take(MAX_SLOTS as int) =~= vs);
}

/// Appends the header of an M3D file after the body mesh.
fn write_model_head(output: &mut Vec<u8>, model: &FullModel)
    ensures
        final(output)@ == old(output)@ + model_head_bytes(model@),
{
    write_u32(output, model.dimensions[0]);
    write_u32(output, model.dimensions[1]);
    write_u32(output, model.dimensions[2]);
    write_u32(output, model.max_radius);
    write_u32(output, model.wheels.len() as u32);
    write_u32(output, model.debris.len() as u32);
    write_u32(output, model.color[0]);
    write_u32(output, model.color[1]);
    assert(final(output)@ =~= old(output)@ + model_head_bytes(model@));
}

/// Appends the part of an M3D file after its header.
fn write_model_parts(output: &mut Vec<u8>, model: &FullModel)
    requires
        full_model_total_fits(model@),
    ensures
        final(output)@ == old(output)@ + model_parts_bytes(model@),
{
    let ghost m = model@;
    proof {
        assert forall|i: int|
            0 <= i < model.wheels.len() && (#[trigger] model.wheels@[i])@.mesh is Some implies mesh_total_fits(
            model.wheels@[i]@.mesh.unwrap()) by {
            assert(m.wheels[i] == model.wheels@[i]@);
        }
        assert forall|i: int|
            0 <= i < model.debris.len() implies mesh_total_fits((#[trigger] model.debris@[i])@.mesh)
            && mesh_total_fits(model.debris@[i]@.shape) by {
            assert(m.debris[i] == model.debris@[i]@);
        }
    }
    let ghost o0 = output@;
    write_wheels(output, &model.wheels);
    let ghost a = many_bytes(m.wheels, wheel_writer());
    write_debris(output, &model.debris);
    let ghost b = many_bytes(m.debris, debrie_writer());
    model.shape.save(output);
    let ghost c = mesh_bytes(m.shape);
    let slot_mask: u32 = 0;
    write_u32(output, slot_mask);
    let ghost d = spec_u32_to_le_bytes(0);
    write_slots(output, &model.slots);
    let ghost e = many_bytes(m.slots, slot_writer());
    proof {
        lemma_assoc(o0, a, b);
        lemma_assoc(o0, a + b, c);
        lemma_assoc(o0, a + b + c, d);
        lemma_assoc(o0, a + b + c + d, e);
    }
}

impl Model<DrawMesh, CollisionMesh> {
    /// Appends the M3D file of the model.
    pub fn save(&self, output: &mut Vec<u8>)
        requires
            full_model_total_fits(self@),
        ensures
            final(output)@ == old(output)@ + full_model_bytes(self@),
    {
        let ghost o0 = output@;
        let ghost m = self@;
        self.body.save(output);
        write_model_head(output, self);
        write_model_parts(output, self);
        proof {
            lemma_assoc(o0, mesh_bytes(m.body), model_head_bytes(m));
            lemma_assoc(o0 + mesh_bytes(m.body), model_head_bytes(m), model_parts_bytes(m));
            lemma_assoc(o0, mesh_bytes(m.body) + model_head_bytes(m), model_parts_bytes(m));
        }
    }
}


// ----------------------------------------------------------------------------
// A saved model loads back

/// Whether a wheel reads back from its record: it has a mesh exactly where it
/// steers, that mesh reads back, and no coordinate of its position is a
/// signalling NaN.
pub open spec fn wheel_fits(w: Wheel<DrawMeshV>) -> bool {
    &&& (w.mesh is Some) == (w.steer != 0)
    &&& forall|i: int| 0 <= i < 3 ==> !is_signaling(#[trigger] w.pos[i])
    &&& w.mesh is Some ==> mesh_fits(w.mesh.unwrap())
}

/// Whether a model can be stored so that it reads back: its counts fit their
/// fields, each wheel can be stored, and it has [`MAX_SLOTS`] slots.
pub open spec fn full_model_fits(m: FullModelV) -> bool {
    &&& mesh_fits(m.body)
    &&& mesh_fits(m.shape)
    &&& m.wheels.len() <= u32::MAX
    &&& m.debris.len() <= u32::MAX
    &&& forall|i: int| 0 <= i < m.wheels.len() ==> wheel_fits(#[trigger] m.wheels[i])
    &&& forall|i: int|
        0 <= i < m.debris.len() ==> mesh_fits((#[trigger] m.debris[i]).mesh) && mesh_fits(
            m.debris[i].shape,
        )
    &&& m.slots.len() == MAX_SLOTS
}

/// A slot as it reads back from its record: no mesh, scale 1.0, the same
/// position and angle.
pub open spec fn reloaded_slot(sl: Slot<DrawMeshV>) -> Slot<DrawMeshV> {
    Slot { mesh: None, scale: UNIT_SCALE, pos: sl.pos, angle: sl.angle }
}

/// A model as it reads back from its file: its slots as they read back, all
/// else unchanged.
pub open spec fn reloaded(m: FullModelV) -> FullModelV {
    ModelV {
        body: m.body,
        shape: m.shape,
        dimensions: m.dimensions,
        max_radius: m.max_radius,
        color: m.color,
        wheels: m.wheels,
        debris: m.debris,
        slots: m.slots.map_values(|sl: Slot<DrawMeshV>| reloaded_slot(sl)),
    }
}

/// A wheel that can be stored reads back from its record as itself.
pub proof fn lemma_take_wheel(w: Wheel<DrawMeshV>, rest: Seq<u8>)
    requires
        wheel_fits(w),
    ensures
        take_wheel(wheel_bytes(w) + rest) == Some((w, rest)),
{
    let p1 = spec_u32_to_le_bytes(w.steer);
    let p2 = f32_bytes(w.pos[0]);
    let p3 = f32_bytes(w.pos[1]);
    let p4 = f32_bytes(w.pos[2]);
    let p5 = spec_u32_to_le_bytes(w.width);
    let p6 = spec_u32_to_le_bytes(w.radius);
    let p7 = spec_u32_to_le_bytes(w.bound_index);
    let p8 = match w.mesh {
        Some(m) => mesh_bytes(m),
        None => Seq::<u8>::empty(),
    };
    let t8 = p8 + rest;
    let t7 = p7 + t8;
    let t6 = p6 + t7;
    let t5 = p5 + t6;
    let t4 = p4 + t5;
    let t3 = p3 + t4;
    let t2 = p2 + t3;
    let l2 = p1 + p2;
    let l3 = l2 + p3;
    let l4 = l3 + p4;
    let l5 = l4 + p5;
    let l6 = l5 + p6;
    let l7 = l6 + p7;
    lemma_assoc(l7, p8, rest);
    lemma_assoc(l6, p7, t8);
    lemma_assoc(l5, p6, t7);
    lemma_assoc(l4, p5, t6);
    lemma_assoc(l3, p4, t5);
    lemma_assoc(l2, p3, t4);
    lemma_assoc(p1, p2, t3);
    assert(wheel_bytes(w) + rest == p1 + t2);
    lemma_take_u32(w.steer, t2);
    assert(!is_signaling(w.pos[0]) && !is_signaling(w.pos[1]) && !is_signaling(w.pos[2]));
    lemma_take_f32(w.pos[0], t3);
    lemma_take_f32(w.pos[1], t4);
    lemma_take_f32(w.pos[2], t5);
    lemma_take_u32(w.width, t6);
    lemma_take_u32(w.radius, t7);
    lemma_take_u32(w.bound_index, t8);
    let pos: [u32; 3] = [w.pos[0], w.pos[1], w.pos[2]];
    assert(pos =~= w.pos);
    match w.mesh {
        Some(m) => {
            lemma_take_mesh(m, rest);
        },
        None => {
            assert(t8 =~= rest);
        },
    }
}

/// A debris record reads back as the debris written, where its counts fit.
pub proof fn lemma_take_debrie(d: Debrie<DrawMeshV, CollisionMeshV>, rest: Seq<u8>)
    requires
        mesh_fits(d.mesh),
        mesh_fits(d.shape),
    ensures
        take_debrie(debrie_bytes(d) + rest) == Some((d, rest)),
{
    lemma_assoc(mesh_bytes(d.mesh), mesh_bytes(d.shape), rest);
    lemma_take_mesh(d.mesh, mesh_bytes(d.shape) + rest);
    lemma_take_mesh(d.shape, rest);
}

/// A slot record reads back as the slot without mesh and with scale 1.0.
pub proof fn lemma_take_slot(sl: Slot<DrawMeshV>, rest: Seq<u8>)
    ensures
        take_slot(slot_bytes(sl) + rest) == Some((reloaded_slot(sl), rest)),
{
    lemma_assoc(vec_i32_bytes(sl.pos), i32_bytes(sl.angle), rest);
    lemma_take_vec_i32(sl.pos, i32_bytes(sl.angle) + rest);
    lemma_take_i32(sl.angle, rest);
}

/// The part of the file of a model after its header reads back.
pub proof fn lemma_take_model_parts(m: FullModelV, rest: Seq<u8>)
    requires
        full_model_fits(m),
    ensures
        take_model_parts(
            model_parts_bytes(m) + rest,
            m.body,
            m.dimensions,
            m.max_radius,
            m.wheels.len() as u32,
            m.debris.len() as u32,
            m.color,
        ) == Some((reloaded(m), rest)),
{
    reveal(take_model_parts);
    let a = many_bytes(m.wheels, wheel_writer());
    let b = many_bytes(m.debris, debrie_writer());
    let c = mesh_bytes(m.shape);
    let d = spec_u32_to_le_bytes(0);
    let e = many_bytes(m.slots, slot_writer());
    let t4 = e + rest;
    let t3 = d + t4;
    let t2 = c + t3;
    let t1 = b + t2;
    lemma_assoc(a + b + c + d, e, rest);
    lemma_assoc(a + b + c, d, t4);
    lemma_assoc(a + b, c, t3);
    lemma_assoc(a, b, t2);
    assert(model_parts_bytes(m) + rest == a + t1);
    assert forall|i: int, r: Seq<u8>| 0 <= i < m.wheels.len() implies #[trigger] wheel_reader()(
        wheel_writer()(m.wheels[i]) + r,
    ) == Some(((|w: Wheel<DrawMeshV>| w)(m.wheels[i]), r)) by {
        lemma_take_wheel(m.wheels[i], r);
    }
    lemma_take_many_bytes_mapped(m.wheels, t1, wheel_reader(), wheel_writer(), |w: Wheel<DrawMeshV>| w);
    assert(m.wheels.map_values(|w: Wheel<DrawMeshV>| w) =~= m.wheels);
    assert forall|i: int, r: Seq<u8>| 0 <= i < m.debris.len() implies #[trigger] debrie_reader()(
        debrie_writer()(m.debris[i]) + r,
    ) == Some(((|d: Debrie<DrawMeshV, CollisionMeshV>| d)(m.debris[i]), r)) by {
        lemma_take_debrie(m.debris[i], r);
    }
    lemma_take_many_bytes_mapped(
        m.debris,
        t2,
        debrie_reader(),
        debrie_writer(),
        |d: Debrie<DrawMeshV, CollisionMeshV>| d,
    );
    assert(m.debris.map_values(|d: Debrie<DrawMeshV, CollisionMeshV>| d) =~= m.debris);
    lemma_take_mesh(m.shape, t3);
    lemma_take_u32(0, t4);
    assert forall|i: int, r: Seq<u8>| 0 <= i < m.slots.len() implies #[trigger] slot_reader()(
        slot_writer()(m.slots[i]) + r,
    ) == Some(((|sl: Slot<DrawMeshV>| reloaded_slot(sl))(m.slots[i]), r)) by {
        lemma_take_slot(m.slots[i], r);
    }
    lemma_take_many_bytes_mapped(
        m.slots,
        rest,
        slot_reader(),
        slot_writer(),
        |sl: Slot<DrawMeshV>| reloaded_slot(sl),
    );
}

/// The header of the file of a model reads back as its fields, leaving what
/// follows it.
pub proof fn lemma_take_model_head(m: FullModelV, u: Seq<u8>)
    ensures
        take_model_rest(model_head_bytes(m) + u, m.body) == take_model_parts(
            u,
            m.body,
            m.dimensions,
            m.max_radius,
            m.wheels.len() as u32,
            m.debris.len() as u32,
            m.color,
        ),
{
    let h = model_head_bytes(m);
    let q1 = spec_u32_to_le_bytes(m.dimensions[0]);
    let q2 = spec_u32_to_le_bytes(m.dimensions[1]);
    let q3 = spec_u32_to_le_bytes(m.dimensions[2]);
    let q4 = spec_u32_to_le_bytes(m.max_radius);
    let q5 = spec_u32_to_le_bytes(m.wheels.len() as u32);
    let q6 = spec_u32_to_le_bytes(m.debris.len() as u32);
    let q7 = spec_u32_to_le_bytes(m.color[0]);
    let q8 = spec_u32_to_le_bytes(m.color[1]);
    let t8 = q8 + u;
    let t7 = q7 + t8;
    let t6 = q6 + t7;
    let t5 = q5 + t6;
    let t4 = q4 + t5;
    let t3 = q3 + t4;
    let t2 = q2 + t3;
    let l2 = q1 + q2;
    let l3 = l2 + q3;
    let l4 = l3 + q4;
    let l5 = l4 + q5;
    let l6 = l5 + q6;
    let l7 = l6 + q7;
    lemma_assoc(l7, q8, u);
    lemma_assoc(l6, q7, t8);
    lemma_assoc(l5, q6, t7);
    lemma_assoc(l4, q5, t6);
    lemma_assoc(l3, q4, t5);
    lemma_assoc(l2, q3, t4);
    lemma_assoc(q1, q2, t3);
    assert(h + u == q1 + t2);
    lemma_take_u32(m.dimensions[0], t2);
    lemma_take_u32(m.dimensions[1], t3);
    lemma_take_u32(m.dimensions[2], t4);
    lemma_take_u32(m.max_radius, t5);
    lemma_take_u32(m.wheels.len() as u32, t6);
    lemma_take_u32(m.debris.len() as u32, t7);
    lemma_take_u32(m.color[0], t8);
    lemma_take_u32(m.color[1], u);
    let dims: [u32; 3] = [m.dimensions[0], m.dimensions[1], m.dimensions[2]];
    assert(dims =~= m.dimensions);
    let color: [u32; 2] = [m.color[0], m.color[1]];
    assert(color =~= m.color);
}

/// The part of the file of a model after its body mesh reads back.
pub proof fn lemma_take_model_rest(m: FullModelV, rest: Seq<u8>)
    requires
        full_model_fits(m),
    ensures
        take_model_rest(model_head_bytes(m) + model_parts_bytes(m) + rest, m.body) == Some(
            (reloaded(m), rest),
        ),
{
    lemma_assoc(model_head_bytes(m), model_parts_bytes(m), rest);
    lemma_take_model_head(m, model_parts_bytes(m) + rest);
    lemma_take_model_parts(m, rest);
}

/// Saving then loading a model gives it back with its slots as they read back
/// (no mesh, scale 1.0), wherever its counts fit their fields, each wheel has
/// a mesh exactly where it steers, none of its floats is a signalling NaN,
/// and it has three slots; bytes after the file are not read.
pub proof fn lemma_save_load(m: FullModelV, rest: Seq<u8>)
    requires
        full_model_fits(m),
    ensures
        take_full_model(full_model_bytes(m) + rest) == Some((reloaded(m), rest)),
{
    let a = mesh_bytes(m.body);
    let h = model_head_bytes(m);
    let p = model_parts_bytes(m);
    lemma_assoc(a + h, p, rest);
    lemma_assoc(a, h, p + rest);
    lemma_assoc(h, p, rest);
    lemma_take_mesh(m.body, h + p + rest);
    lemma_take_model_rest(m, rest);
}


/// A model and the model it loads back as are saved as the same bytes: the
/// slots' meshes and scales are not stored.
pub proof fn lemma_save_reloaded(m: FullModelV)
    ensures
        full_model_bytes(reloaded(m)) == full_model_bytes(m),
{
    let h = |sl: Slot<DrawMeshV>| reloaded_slot(sl);
    assert forall|sl: Slot<DrawMeshV>| #[trigger] slot_writer()(h(sl)) == slot_writer()(sl) by {}
    lemma_many_bytes_map_values(m.slots, slot_writer(), h);
    assert(model_head_bytes(reloaded(m)) == model_head_bytes(m));
    assert(model_parts_bytes(reloaded(m)) == model_parts_bytes(m));
}

/// Saving a model, loading it and saving it again gives the bytes of the
/// first save, wherever the model can be stored so that it reads back.
pub proof fn lemma_resave(m: FullModelV)
    requires
        full_model_fits(m),
    ensures
        take_full_model(full_model_bytes(m)) matches Some((m2, rest)) && rest.len() == 0
            && full_model_bytes(m2) == full_model_bytes(m),
{
    assert(full_model_bytes(m) + Seq::<u8>::empty() =~= full_model_bytes(m));
    lemma_save_load(m, Seq::empty());
    lemma_save_reloaded(m);
}

// ----------------------------------------------------------------------------
// A loaded model saves and loads back as itself

/// A wheel read from bytes can be written so that it reads back.
proof fn lemma_take_wheel_fits(s: Seq<u8>)
    ensures
        take_wheel(s) matches Some((w, _)) ==> wheel_fits(w),
{
    assert forall|t: Seq<u8>| #[trigger] take_f32(t) is Some implies !is_signaling(
        take_f32(t).unwrap().0,
    ) by {
        lemma_narrow_not_signaling(take_u64(t).unwrap().0);
    }
    assert forall|t: Seq<u8>| #[trigger] take_mesh::<DrawTriangle>(t) is Some implies mesh_fits(
        take_mesh::<DrawTriangle>(t).unwrap().0,
    ) by {
        lemma_take_mesh_fits::<DrawTriangle>(t);
    }
    if let Some((w, _)) = take_wheel(s) {
        assert forall|i: int| 0 <= i < 3 implies !is_signaling(#[trigger] w.pos[i]) by {
            assert(!is_signaling(w.pos[0]) && !is_signaling(w.pos[1]) && !is_signaling(w.pos[2]));
        }
    }
}

/// A piece of debris read from bytes can be written so that it reads back.
proof fn lemma_take_debrie_fits(s: Seq<u8>)
    ensures
        take_debrie(s) matches Some((d, _)) ==> mesh_fits(d.mesh) && mesh_fits(d.shape),
{
    lemma_take_mesh_fits::<DrawTriangle>(s);
    if let Some((_, t)) = take_mesh::<DrawTriangle>(s) {
        lemma_take_mesh_fits::<CollisionQuad>(t);
    }
}

/// A model read from bytes can be written so that it reads back, and its
/// slots are already as they read back.
pub proof fn lemma_take_full_model_fits(s: Seq<u8>)
    ensures
        take_full_model(s) matches Some((m, _)) ==> full_model_fits(m) && reloaded(m) == m,
{
    reveal(take_model_parts);
    lemma_take_mesh_fits::<DrawTriangle>(s);
    assert forall|t: Seq<u8>| #[trigger] take_mesh::<CollisionQuad>(t) is Some implies mesh_fits(
        take_mesh::<CollisionQuad>(t).unwrap().0,
    ) by {
        lemma_take_mesh_fits::<CollisionQuad>(t);
    }
    let wheel_ok = |w: Wheel<DrawMeshV>| wheel_fits(w);
    let debrie_ok = |d: Debrie<DrawMeshV, CollisionMeshV>| mesh_fits(d.mesh) && mesh_fits(d.shape);
    let slot_ok = |sl: Slot<DrawMeshV>| reloaded_slot(sl) == sl;
    assert forall|t: Seq<u8>| #[trigger] wheel_reader()(t) is Some implies wheel_ok(
        wheel_reader()(t).unwrap().0,
    ) by {
        lemma_take_wheel_fits(t);
    }
    assert forall|t: Seq<u8>| #[trigger] debrie_reader()(t) is Some implies debrie_ok(
        debrie_reader()(t).unwrap().0,
    ) by {
        lemma_take_debrie_fits(t);
    }
    assert forall|t: Seq<u8>| #[trigger] slot_reader()(t) is Some implies slot_ok(
        slot_reader()(t).unwrap().0,
    ) by {}
    if let Some((body, s1)) = take_mesh::<DrawTriangle>(s) {
        if let Some((m, _)) = take_model_rest(s1, body) {
            let (_, t1) = take_u32(s1).unwrap();
            let (_, t2) = take_u32(t1).unwrap();
            let (_, t3) = take_u32(t2).unwrap();
            let (_, t4) = take_u32(t3).unwrap();
            let (nw, t5) = take_u32(t4).unwrap();
            let (nd, t6) = take_u32(t5).unwrap();
            let (_, t7) = take_u32(t6).unwrap();
            let (_, s2) = take_u32(t7).unwrap();
            lemma_take_many_all(s2, nw as nat, wheel_reader(), wheel_ok);
            let (ws, s3) = take_many(s2, nw as nat, wheel_reader()).unwrap();
            lemma_take_many_all(s3, nd as nat, debrie_reader(), debrie_ok);
            let (ds, s4) = take_many(s3, nd as nat, debrie_reader()).unwrap();
            let (shape, s5) = take_mesh::<CollisionQuad>(s4).unwrap();
            let (_, s6) = take_u32(s5).unwrap();
            lemma_take_many_all(s6, 3, slot_reader(), slot_ok);
            assert forall|i: int| 0 <= i < m.wheels.len() implies wheel_fits(
                #[trigger] m.wheels[i],
            ) by {
                assert(wheel_ok(ws[i]));
            }
            assert forall|i: int| 0 <= i < m.debris.len() implies mesh_fits(
                (#[trigger] m.debris[i]).mesh,
            ) && mesh_fits(m.debris[i].shape) by {
                assert(debrie_ok(ds[i]));
            }
            assert(m.slots.map_values(|sl: Slot<DrawMeshV>| reloaded_slot(sl)) =~= m.slots) by {
                assert forall|i: int| 0 <= i < m.slots.len() implies reloaded_slot(
                    #[trigger] m.slots[i],
                ) == m.slots[i] by {
                    assert(slot_ok(m.slots[i]));
                }
            }
        }
    }
}

/// Loading a file, saving the model and loading that again gives the model
/// first loaded: what loading makes of a file is kept by a save, all its
/// floats already rounded to 32 bits and its slots as they read back.
pub proof fn lemma_load_save_load(s: Seq<u8>)
    ensures
        take_full_model(s) matches Some((m, _)) ==> take_full_model(full_model_bytes(m)) == Some(
            (m, Seq::<u8>::empty()),
        ),
{
    lemma_take_full_model_fits(s);
    if let Some((m, _)) = take_full_model(s) {
        lemma_save_load(m, Seq::empty());
        assert(full_model_bytes(m) + Seq::<u8>::empty() =~= full_model_bytes(m));
    }
}

/// The header of an M3D file, after its body mesh: eight `u32` words, the
/// dimensions, the radius, the numbers of wheels and of debris, and the
/// colour.
pub open spec fn model_header(s: Seq<u8>) -> Option<Seq<u32>> {
    match take_mesh::<DrawTriangle>(s) {
        Some((_, t)) => match take_many(t, 8, u32_reader()) {
            Some((h, _)) => Some(h),
            None => None,
        },
        None => None,
    }
}

/// The header after the body mesh is eight `u32` words, and the rest of the
/// file is read with the counts and fields they hold.
proof fn lemma_model_rest_header(t: Seq<u8>, body: DrawMeshV)
    ensures
        take_model_rest(t, body) is Some ==> (take_many(t, 8, u32_reader()) matches Some((h, u))
            && h.len() == 8 && take_model_rest(t, body) == take_model_parts(
            u,
            body,
            [h[0], h[1], h[2]],
            h[3],
            h[4],
            h[5],
            [h[6], h[7]],
        )),
{
    if take_model_rest(t, body) is Some {
        let (w0, t1) = take_u32(t).unwrap();
        let (w1, t2) = take_u32(t1).unwrap();
        let (w2, t3) = take_u32(t2).unwrap();
        let (w3, t4) = take_u32(t3).unwrap();
        let (w4, t5) = take_u32(t4).unwrap();
        let (w5, t6) = take_u32(t5).unwrap();
        let (w6, t7) = take_u32(t6).unwrap();
        let (w7, u) = take_u32(t7).unwrap();
        reveal_with_fuel(take_many, 9);
        let h = seq![w0, w1, w2, w3, w4, w5, w6, w7];
        assert(take_many(t, 8, u32_reader()) == Some((h, u)));
    }
}

/// A model loaded from a file has as many wheels and pieces of debris as the
/// file's header says, and each of its wheels has a mesh exactly where it
/// steers.
pub proof fn lemma_loaded_counts(s: Seq<u8>)
    ensures
        take_full_model(s) matches Some((m, _)) ==> {
            &&& model_header(s) is Some
            &&& m.wheels.len() == model_header(s).unwrap()[4]
            &&& m.debris.len() == model_header(s).unwrap()[5]
            &&& forall|i: int|
                0 <= i < m.wheels.len() ==> ((#[trigger] m.wheels[i]).mesh is Some) == (
                m.wheels[i].steer != 0)
        },
{
    lemma_take_full_model_fits(s);
    if let Some((body, s1)) = take_mesh::<DrawTriangle>(s) {
        lemma_model_rest_header(s1, body);
        if let Some((m, _)) = take_model_rest(s1, body) {
            let (h, s2) = take_many(s1, 8, u32_reader()).unwrap();
            reveal(take_model_parts);
            let any_wheel = |w: Wheel<DrawMeshV>| true;
            let any_debrie = |d: Debrie<DrawMeshV, CollisionMeshV>| true;
            lemma_take_many_all(s2, h[4] as nat, wheel_reader(), any_wheel);
            let (_, s3) = take_many(s2, h[4] as nat, wheel_reader()).unwrap();
            lemma_take_many_all(s3, h[5] as nat, debrie_reader(), any_debrie);
            assert forall|i: int| 0 <= i < m.wheels.len() implies ((
            #[trigger] m.wheels[i]).mesh is Some) == (m.wheels[i].steer != 0) by {
                assert(wheel_fits(m.wheels[i]));
            }
        }
    }
}

/// Two models that differ only in the meshes and scales of their slots are
/// saved as the same bytes: neither is stored.
pub proof fn lemma_save_ignores_slot_meshes(m1: FullModelV, m2: FullModelV)
    requires
        m1.body == m2.body,
        m1.shape == m2.shape,
        m1.dimensions == m2.dimensions,
        m1.max_radius == m2.max_radius,
        m1.color == m2.color,
        m1.wheels == m2.wheels,
        m1.debris == m2.debris,
        m1.slots.len() == m2.slots.len(),
        forall|i: int|
            0 <= i < m1.slots.len() ==> (#[trigger] m1.slots[i]).pos == m2.slots[i].pos
                && m1.slots[i].angle == m2.slots[i].angle,
    ensures
        full_model_bytes(m1) == full_model_bytes(m2),
{
    lemma_save_reloaded(m1);
    lemma_save_reloaded(m2);
    assert(reloaded(m1).slots =~= reloaded(m2).slots) by {
        assert forall|i: int| 0 <= i < m1.slots.len() implies reloaded(m1).slots[i] == reloaded(
            m2,
        ).slots[i] by {
            assert(m1.slots[i].pos == m2.slots[i].pos);
        }
    }
    assert(reloaded(m1) == reloaded(m2));
}

// ----------------------------------------------------------------------------
// Replacing meshes

impl<M> Wheel<M> {
    /// The wheel with its mesh, where it has one, replaced by what `fun`
    /// makes of it.
    pub fn map<T, F: FnMut(M) -> T>(self, fun: F) -> (r: Wheel<T>)
        requires
            self.mesh is Some ==> call_requires(fun, (self.mesh.unwrap(),)),
        ensures
            r.mesh is Some == self.mesh is Some,
            self.mesh is Some ==> call_ensures(fun, (self.mesh.unwrap(),), r.mesh.unwrap()),
            r.steer == self.steer,
            r.pos == self.pos,
            r.width == self.width,
            r.radius == self.radius,
            r.bound_index == self.bound_index,
    {
        Wheel {
            mesh: self.mesh.map(fun),
            steer: self.steer,
            pos: self.pos,
            width: self.width,
            radius: self.radius,
            bound_index: self.bound_index,
        }
    }
}


impl<M> Slot<M> {
    /// A slot with no mesh, scale 0, at the origin, at angle 0.
    pub fn empty() -> (r: Self)
        ensures
            r.mesh is None,
            r.scale == 0,
            r.pos == [0i32, 0, 0],
            r.angle == 0,
    {
        Slot { mesh: None, scale: 0, pos: [0, 0, 0], angle: 0 }
    }

    /// The slot with its mesh, where it has one, replaced by what `fun` makes
    /// of it.
    pub fn map<T, F: FnMut(M) -> T>(self, fun: F) -> (r: Slot<T>)
        requires
            self.mesh is Some ==> call_requires(fun, (self.mesh.unwrap(),)),
        ensures
            r.mesh is Some == self.mesh is Some,
            self.mesh is Some ==> call_ensures(fun, (self.mesh.unwrap(),), r.mesh.unwrap()),
            r.scale == self.scale,
            r.pos == self.pos,
            r.angle == self.angle,
    {
        Slot { mesh: self.mesh.map(fun), scale: self.scale, pos: self.pos, angle: self.angle }
    }

    /// The slot, its mesh moved out: the slot left behind has no mesh.
    pub(crate) fn take(&mut self) -> (r: Self)
        ensures
            r.mesh == old(self).mesh,
            r.scale == old(self).scale,
            r.pos == old(self).pos,
            r.angle == old(self).angle,
            final(self).mesh is None,
            final(self).scale == old(self).scale,
            final(self).pos == old(self).pos,
            final(self).angle == old(self).angle,
    {
        Slot { mesh: self.mesh.take(), scale: self.scale, pos: self.pos, angle: self.angle }
    }

    /// The slots with the mesh of each, where it has one, replaced by what
    /// `fun` makes of it and of the slot's index.
    pub fn map_all<T, F: Fn(M, u8) -> T>(slots: [Self; MAX_SLOTS], fun: F) -> (r: [Slot<T>; MAX_SLOTS])
        requires
            forall|i: int|
                0 <= i < MAX_SLOTS && (#[trigger] slots[i]).mesh is Some ==> call_requires(
                    fun,
                    (slots[i].mesh.unwrap(), i as u8),
                ),
        ensures
            forall|i: int|
                0 <= i < MAX_SLOTS ==> {
                    &&& (#[trigger] r[i]).mesh is Some == slots[i].mesh is Some
                    &&& slots[i].mesh is Some ==> call_ensures(
                        fun,
                        (slots[i].mesh.unwrap(), i as u8),
                        r[i].mesh.unwrap(),
                    )
                    &&& r[i].scale == slots[i].scale
                    &&& r[i].pos == slots[i].pos
                    &&& r[i].angle == slots[i].angle
                },
    {
        let mut slots = slots;
        let a = slots[0].take();
        let b = slots[1].take();
        let c = slots[2].take();
        let ma = match a.mesh {
            Some(m) => Some(fun(m, 0)),
            None => None,
        };
        let mb = match b.mesh {
            Some(m) => Some(fun(m, 1)),
            None => None,
        };
        let mc = match c.mesh {
            Some(m) => Some(fun(m, 2)),
            None => None,
        };
        [
            Slot { mesh: ma, scale: a.scale, pos: a.pos, angle: a.angle },
            Slot { mesh: mb, scale: b.scale, pos: b.pos, angle: b.angle },
            Slot { mesh: mc, scale: c.scale, pos: c.pos, angle: c.angle },
        ]
    }
}

} // verus!
