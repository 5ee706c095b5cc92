//! Exchange of a model with separate geometry files: a description of the
//! model whose meshes name the files that hold their geometry, and the files
//! that go with it.

use vstd::prelude::*;
use crate::geometry::{Geometry, GeometryV, DrawTriangle, CollisionQuad};
use crate::mesh::Mesh;
use crate::model::{
    Model, ModelV, Wheel, Debrie, Slot, DrawMesh, CollisionMesh, DrawMeshV, CollisionMeshV,
    FullModelV, MAX_SLOTS,
};

verus! {

/// The character of a decimal digit.
pub open spec fn digit_char(d: nat) -> char {
    (48 + d) as char
}

/// The decimal digits of `n`, most significant first, without leading zeros.
pub open spec fn decimal(n: nat) -> Seq<char>
    decreases n,
{
    if n < 10 {
        seq![digit_char(n)]
    } else {
        decimal(n / 10).push(digit_char(n % 10))
    }
}

/// `format!` of `prefix`, the decimal digits of `i` and `suffix`: the three
/// one after the other.
#[verifier::external_body]
fn indexed_name(prefix: &str, i: usize, suffix: &str) -> (r: String)
    ensures
        r@ == prefix@ + decimal(i as nat) + suffix@,
{
    format!("{}{}{}", prefix, i, suffix)
}

/// The geometry of a mesh as a file holds it: triangles to draw, or collision
/// quads.
#[derive(Clone, Debug, PartialEq, Eq)]
pub enum ObjGeometry {
    Draw(Geometry<DrawTriangle>),
    Collision(Geometry<CollisionQuad>),
}

/// The contents of an [`ObjGeometry`].
pub enum ObjGeometryV {
    Draw(GeometryV<DrawTriangle>),
    Collision(GeometryV<CollisionQuad>),
}

impl View for ObjGeometry {
    type V = ObjGeometryV;

    open spec fn view(&self) -> ObjGeometryV {
        match self {
            ObjGeometry::Draw(g) => ObjGeometryV::Draw(g@),
            ObjGeometry::Collision(g) => ObjGeometryV::Collision(g@),
        }
    }
}

/// A geometry file to write: its name and the geometry it holds.
#[derive(Clone, Debug, PartialEq, Eq)]
pub struct ObjFile {
    pub name: String,
    pub geometry: ObjGeometry,
}

impl View for ObjFile {
    type V = (Seq<char>, ObjGeometryV);

    open spec fn view(&self) -> (Seq<char>, ObjGeometryV) {
        (self.name@, self.geometry@)
    }
}

/// A model whose meshes name the files of their geometry.
pub type RefModel = Model<Mesh<String>, Mesh<String>>;

/// The contents of a [`RefModel`].
pub type RefModelV = ModelV<Mesh<Seq<char>>, Mesh<Seq<char>>>;

/// The name of the body's geometry file.
pub open spec fn body_name() -> Seq<char> {
    "body.obj"@
}

/// The name of the collision shape's geometry file.
pub open spec fn shape_name() -> Seq<char> {
    "body-shape.obj"@
}

/// The name of the geometry file of wheel `i`.
pub open spec fn wheel_name(i: nat) -> Seq<char> {
    "wheel"@ + decimal(i) + ".obj"@
}

/// The name of the geometry file of the mesh of debris `i`.
pub open spec fn debrie_name(i: nat) -> Seq<char> {
    "debrie"@ + decimal(i) + ".obj"@
}

/// The name of the geometry file of the collision shape of debris `i`.
pub open spec fn debrie_shape_name(i: nat) -> Seq<char> {
    "debrie"@ + decimal(i) + "-shape.obj"@
}

/// The name of the geometry file of the mesh of slot `i`.
pub open spec fn slot_name(i: nat) -> Seq<char> {
    "slot"@ + decimal(i) + ".obj"@
}

/// The mesh `m` with its geometry replaced by the file name `name`.
pub open spec fn renamed<G>(m: Mesh<G>, name: Seq<char>) -> Mesh<Seq<char>> {
    Mesh {
        geometry: name,
        bounds: m.bounds,
        parent_off: m.parent_off,
        parent_rot: m.parent_rot,
        max_radius: m.max_radius,
        physics: m.physics,
    }
}

/// Wheel `i` with its mesh, where it has one, naming its file.
pub open spec fn ref_wheel(w: Wheel<DrawMeshV>, i: nat) -> Wheel<Mesh<Seq<char>>> {
    Wheel {
        mesh: match w.mesh {
            Some(m) => Some(renamed(m, wheel_name(i))),
            None => None,
        },
        steer: w.steer,
        pos: w.pos,
        width: w.width,
        radius: w.radius,
        bound_index: w.bound_index,
    }
}

/// Debris `i` with its meshes naming their files.
pub open spec fn ref_debrie(d: Debrie<DrawMeshV, CollisionMeshV>, i: nat) -> Debrie<
    Mesh<Seq<char>>,
    Mesh<Seq<char>>,
> {
    Debrie { mesh: renamed(d.mesh, debrie_name(i)), shape: renamed(d.shape, debrie_shape_name(i)) }
}

/// Slot `i` with its mesh, where it has one, naming its file.
pub open spec fn ref_slot(s: Slot<DrawMeshV>, i: nat) -> Slot<Mesh<Seq<char>>> {
    Slot {
        mesh: match s.mesh {
            Some(m) => Some(renamed(m, slot_name(i))),
            None => None,
        },
        scale: s.scale,
        pos: s.pos,
        angle: s.angle,
    }
}

/// The description of a model whose meshes name their geometry files.
pub open spec fn ref_model(m: FullModelV) -> RefModelV {
    ModelV {
        body: renamed(m.body, body_name()),
        shape: renamed(m.shape, shape_name()),
        dimensions: m.dimensions,
        max_radius: m.max_radius,
        color: m.color,
        wheels: Seq::new(m.wheels.len(), |i: int| ref_wheel(m.wheels[i], i as nat)),
        debris: Seq::new(m.debris.len(), |i: int| ref_debrie(m.debris[i], i as nat)),
        slots: Seq::new(m.slots.len(), |i: int| ref_slot(m.slots[i], i as nat)),
    }
}

/// The geometry files of the first wheels `ws`, in order: one for each wheel
/// that has a mesh.
pub open spec fn wheel_files(ws: Seq<Wheel<DrawMeshV>>) -> Seq<(Seq<char>, ObjGeometryV)>
    decreases ws.len(),
{
    if ws.len() == 0 {
        Seq::empty()
    } else {
        wheel_files(ws.drop_last()) + match ws.last().mesh {
            Some(m) => seq![(wheel_name((ws.len() - 1) as nat), ObjGeometryV::Draw(m.geometry))],
            None => Seq::empty(),
        }
    }
}

/// The geometry files of the first debris `ds`, in order: the mesh's, then
/// the collision shape's, of each.
pub open spec fn debris_files(ds: Seq<Debrie<DrawMeshV, CollisionMeshV>>) -> Seq<
    (Seq<char>, ObjGeometryV),
>
    decreases ds.len(),
{
    if ds.len() == 0 {
        Seq::empty()
    } else {
        let i = (ds.len() - 1) as nat;
        debris_files(ds.drop_last()) + seq![
            (debrie_name(i), ObjGeometryV::Draw(ds.last().mesh.geometry)),
            (debrie_shape_name(i), ObjGeometryV::Collision(ds.last().shape.geometry)),
        ]
    }
}

/// The geometry files of the first slots `ss`, in order: one for each slot
/// that has a mesh.
pub open spec fn slot_files(ss: Seq<Slot<DrawMeshV>>) -> Seq<(Seq<char>, ObjGeometryV)>
    decreases ss.len(),
{
    if ss.len() == 0 {
        Seq::empty()
    } else {
        slot_files(ss.drop_last()) + match ss.last().mesh {
            Some(m) => seq![(slot_name((ss.len() - 1) as nat), ObjGeometryV::Draw(m.geometry))],
            None => Seq::empty(),
        }
    }
}

/// The geometry files of a model, in order: body, collision shape, wheels,
/// debris, slots.
pub open spec fn export_files(m: FullModelV) -> Seq<(Seq<char>, ObjGeometryV)> {
    seq![
        (body_name(), ObjGeometryV::Draw(m.body.geometry)),
        (shape_name(), ObjGeometryV::Collision(m.shape.geometry)),
    ] + wheel_files(m.wheels) + debris_files(m.debris) + slot_files(m.slots)
}


/// The views of a run of geometry files.
pub open spec fn files_view(fs: Seq<ObjFile>) -> Seq<(Seq<char>, ObjGeometryV)> {
    fs.map_values(|f: ObjFile| f@)
}

/// Pushing a file appends its view.
proof fn lemma_files_push(fs: Seq<ObjFile>, f: ObjFile)
    ensures
        files_view(fs.push(f)) == files_view(fs).push(f@),
{
    assert(files_view(fs.push(f)) =~= files_view(fs).push(f@));
}

/// Splits a mesh into its description, which names the file `name`, and its
/// geometry.
fn detach<G>(m: Mesh<G>, name: String) -> (r: (Mesh<String>, G))
    ensures
        r.0@ == renamed(m, name@),
        r.1 == m.geometry,
{
    let Mesh { geometry, bounds, parent_off, parent_rot, max_radius, physics } = m;
    (Mesh { geometry: name, bounds, parent_off, parent_rot, max_radius, physics }, geometry)
}

/// Splits the wheels into their descriptions, appending the geometry files of
/// their meshes to `files`.
fn export_wheels(wheels: Vec<Wheel<DrawMesh>>, files: &mut Vec<ObjFile>) -> (r: Vec<
    Wheel<Mesh<String>>,
>)
    ensures
        r@.map_values(|w: Wheel<Mesh<String>>| w@) == Seq::new(
            wheels@.len(),
            |i: int| ref_wheel(wheels@[i]@, i as nat),
        ),
        files_view(final(files)@) == files_view(old(files)@) + wheel_files(
            wheels@.map_values(|w: Wheel<DrawMesh>| w@),
        ),
{
    let ghost ws = wheels@.map_values(|w: Wheel<DrawMesh>| w@);
    let ghost f0 = files_view(files@);
    let n = wheels.len();
    let mut rest = wheels;
    let mut out: Vec<Wheel<Mesh<String>>> = Vec::new();
    let mut i: usize = 0;
    assert(ws.take(0) =~= Seq::<Wheel<DrawMeshV>>::empty());
    assert(rest@.map_values(|w: Wheel<DrawMesh>| w@) =~= ws.skip(0));
    while rest.len() > 0
        invariant
            i + rest.len() == ws.len(),
            ws.len() == wheels@.len(),
            ws.len() == n,
            out.len() == i,
            forall|k: int| 0 <= k < ws.len() ==> #[trigger] ws[k] == wheels@[k]@,
            rest@.map_values(|w: Wheel<DrawMesh>| w@) == ws.skip(i as int),
            out@.map_values(|w: Wheel<Mesh<String>>| w@) == Seq::new(
                i as nat,
                |k: int| ref_wheel(ws[k], k as nat),
            ),
            files_view(files@) == f0 + wheel_files(ws.take(i as int)),
        decreases rest.len(),
    {
        let ghost old_rest = rest@;
        let ghost old_out = out@;
        let ghost old_files = files@;
        let w = rest.remove(0);
        assert(w@ == ws[i as int]) by {
            assert(old_rest.map_values(|w: Wheel<DrawMesh>| w@)[0] == ws.skip(i as int)[0]);
        }
        let mesh = match w.mesh {
            Some(m) => {
                let name = indexed_name("wheel", i, ".obj");
                let (mr, g) = detach(m, name.clone());
                let f = ObjFile { name, geometry: ObjGeometry::Draw(g) };
                files.push(f);
                proof {
                    lemma_files_push(old_files, f);
                }
                Some(mr)
            },
            None => None,
        };
        let rw = Wheel {
            mesh,
            steer: w.steer,
            pos: w.pos,
            width: w.width,
            radius: w.radius,
            bound_index: w.bound_index,
        };
        out.push(rw);
        i = i + 1;
        proof {
            assert forall|k: int| 0 <= k < rest@.len() implies #[trigger] rest@[k]@ == ws.skip(
                i as int,
            )[k] by {
                assert(rest@[k] == old_rest[k + 1]);
                assert(old_rest.map_values(|w: Wheel<DrawMesh>| w@)[k + 1] == ws.skip(i - 1)[k + 1]);
            }
            assert(rest@.map_values(|w: Wheel<DrawMesh>| w@) =~= ws.skip(i as int));
            assert(out@.map_values(|w: Wheel<Mesh<String>>| w@) =~= Seq::new(
                i as nat,
                |k: int| ref_wheel(ws[k], k as nat),
            )) by {
                assert(out@[i - 1]@ == ref_wheel(ws[i - 1], (i - 1) as nat));
                assert forall|k: int| 0 <= k < i - 1 implies out@[k]@ == ref_wheel(ws[k], k as nat) by {
                    assert(old_out.map_values(|w: Wheel<Mesh<String>>| w@)[k] == ref_wheel(ws[k], k as nat));
                }
            }
            assert(ws.take(i as int).drop_last() =~= ws.take(i - 1));
            assert(files_view(files@) =~= f0 + wheel_files(ws.take(i as int)));
        }
    }
    assert(ws.take(ws.len() as int) =~= ws);
    assert(out@.map_values(|w: Wheel<Mesh<String>>| w@) =~= Seq::new(
        wheels@.len(),
        |i: int| ref_wheel(wheels@[i]@, i as nat),
    ));
    out
}


/// Splits the debris into their descriptions, appending the geometry files of
/// their meshes to `files`.
fn export_debris(debris: Vec<Debrie<DrawMesh, CollisionMesh>>, files: &mut Vec<ObjFile>) -> (r:
    Vec<Debrie<Mesh<String>, Mesh<String>>>)
    ensures
        r@.map_values(|d: Debrie<Mesh<String>, Mesh<String>>| d@) == Seq::new(
            debris@.len(),
            |i: int| ref_debrie(debris@[i]@, i as nat),
        ),
        files_view(final(files)@) == files_view(old(files)@) + debris_files(
            debris@.map_values(|d: Debrie<DrawMesh, CollisionMesh>| d@),
        ),
{
    let ghost ds = debris@.map_values(|d: Debrie<DrawMesh, CollisionMesh>| d@);
    let ghost f0 = files_view(files@);
    let n = debris.len();
    let mut rest = debris;
    let mut out: Vec<Debrie<Mesh<String>, Mesh<String>>> = Vec::new();
    let mut i: usize = 0;
    assert(ds.take(0) =~= Seq::<Debrie<DrawMeshV, CollisionMeshV>>::empty());
    assert(rest@.map_values(|d: Debrie<DrawMesh, CollisionMesh>| d@) =~= ds.skip(0));
    while rest.len() > 0
        invariant
            i + rest.len() == ds.len(),
            ds.len() == debris@.len(),
            ds.len() == n,
            out.len() == i,
            forall|k: int| 0 <= k < ds.len() ==> #[trigger] ds[k] == debris@[k]@,
            rest@.map_values(|d: Debrie<DrawMesh, CollisionMesh>| d@) == ds.skip(i as int),
            out@.map_values(|d: Debrie<Mesh<String>, Mesh<String>>| d@) == Seq::new(
                i as nat,
                |k: int| ref_debrie(ds[k], k as nat),
            ),
            files_view(files@) == f0 + debris_files(ds.take(i as int)),
        decreases rest.len(),
    {
        let ghost old_rest = rest@;
        let ghost old_out = out@;
        let ghost old_files = files@;
        let d = rest.remove(0);
        assert(d@ == ds[i as int]) by {
            assert(old_rest.map_values(|d: Debrie<DrawMesh, CollisionMesh>| d@)[0] == ds.skip(
                i as int,
            )[0]);
        }
        let name = indexed_name("debrie", i, ".obj");
        let (mr, g) = detach(d.mesh, name.clone());
        let f1 = ObjFile { name, geometry: ObjGeometry::Draw(g) };
        files.push(f1);
        let shape_name = indexed_name("debrie", i, "-shape.obj");
        let (sr, h) = detach(d.shape, shape_name.clone());
        let f2 = ObjFile { name: shape_name, geometry: ObjGeometry::Collision(h) };
        files.push(f2);
        proof {
            lemma_files_push(old_files, f1);
            lemma_files_push(old_files.push(f1), f2);
        }
        out.push(Debrie { mesh: mr, shape: sr });
        i = i + 1;
        proof {
            assert forall|k: int| 0 <= k < rest@.len() implies #[trigger] rest@[k]@ == ds.skip(
                i as int,
            )[k] by {
                assert(rest@[k] == old_rest[k + 1]);
                assert(old_rest.map_values(|d: Debrie<DrawMesh, CollisionMesh>| d@)[k + 1]
                    == ds.skip(i - 1)[k + 1]);
            }
            assert(rest@.map_values(|d: Debrie<DrawMesh, CollisionMesh>| d@) =~= ds.skip(
                i as int,
            ));
            assert(out@.map_values(|d: Debrie<Mesh<String>, Mesh<String>>| d@) =~= Seq::new(
                i as nat,
                |k: int| ref_debrie(ds[k], k as nat),
            )) by {
                assert forall|k: int| 0 <= k < i - 1 implies out@[k]@ == ref_debrie(ds[k], k as nat) by {
                    assert(old_out.map_values(|d: Debrie<Mesh<String>, Mesh<String>>| d@)[k]
                        == ref_debrie(ds[k], k as nat));
                }
            }
            assert(ds.take(i as int).drop_last() =~= ds.take(i - 1));
            assert(files_view(files@) =~= f0 + debris_files(ds.take(i as int)));
        }
    }
    assert(ds.take(ds.len() as int) =~= ds);
    assert(out@.map_values(|d: Debrie<Mesh<String>, Mesh<String>>| d@) =~= Seq::new(
        debris@.len(),
        |i: int| ref_debrie(debris@[i]@, i as nat),
    ));
    out
}

/// Splits slot `i` into its description, appending the geometry file of its
/// mesh, where it has one, to `files`.
fn export_slot(slot: Slot<DrawMesh>, i: usize, files: &mut Vec<ObjFile>) -> (r: Slot<Mesh<String>>)
    ensures
        r@ == ref_slot(slot@, i as nat),
        files_view(final(files)@) == files_view(old(files)@) + match slot@.mesh {
            Some(m) => seq![(slot_name(i as nat), ObjGeometryV::Draw(m.geometry))],
            None => Seq::<(Seq<char>, ObjGeometryV)>::empty(),
        },
{
    let mesh = match slot.mesh {
        Some(m) => {
            let name = indexed_name("slot", i, ".obj");
            let (mr, g) = detach(m, name.clone());
            let f = ObjFile { name, geometry: ObjGeometry::Draw(g) };
            let ghost old_files = files@;
            files.push(f);
            proof {
                lemma_files_push(old_files, f);
            }
            Some(mr)
        },
        None => {
            assert(files_view(files@) =~= files_view(old(files)@) + Seq::<
                (Seq<char>, ObjGeometryV),
            >::empty());
            None
        },
    };
    Slot { mesh, scale: slot.scale, pos: slot.pos, angle: slot.angle }
}

impl Model<DrawMesh, CollisionMesh> {
    /// Splits the model into its description, whose meshes name the files of
    /// their geometry, and those files: `body.obj` and `body-shape.obj`,
    /// `wheel<i>.obj` for each wheel with a mesh, `debrie<i>.obj` and
    /// `debrie<i>-shape.obj` for each debris, `slot<i>.obj` for each slot with
    /// a mesh.
    pub fn export_obj(self) -> (r: (RefModel, Vec<ObjFile>))
        ensures
            r.0@ == ref_model(self@),
            files_view(r.1@) == export_files(self@),
    {
        let ghost m = self@;
        let Model { body, shape, dimensions, max_radius, color, wheels, debris, slots } = self;
        let mut files: Vec<ObjFile> = Vec::new();
        let body_path = "body.obj".to_owned();
        let (body_ref, body_geom) = detach(body, body_path.clone());
        files.push(ObjFile { name: body_path, geometry: ObjGeometry::Draw(body_geom) });
        let shape_path = "body-shape.obj".to_owned();
        let (shape_ref, shape_geom) = detach(shape, shape_path.clone());
        files.push(ObjFile { name: shape_path, geometry: ObjGeometry::Collision(shape_geom) });
        let ghost f2 = files_view(files@);
        assert(f2 =~= seq![
            (body_name(), ObjGeometryV::Draw(m.body.geometry)),
            (shape_name(), ObjGeometryV::Collision(m.shape.geometry)),
        ]);
        let wheels_ref = export_wheels(wheels, &mut files);
        let debris_ref = export_debris(debris, &mut files);
        let ghost f4 = files_view(files@);
        let mut slots = slots;
        let ghost ss = slots@.map_values(|s: Slot<DrawMesh>| s@);
        assert(ss.len() == 3);
        assert(slot_files(ss.take(0)) =~= Seq::<(Seq<char>, ObjGeometryV)>::empty());
        assert(files_view(files@) =~= f4 + slot_files(ss.take(0)));
        let a = slots[0].take();
        assert(a@ == ss[0]);
        let s0 = export_slot(a, 0, &mut files);
        proof {
            assert(ss.take(1).drop_last() =~= ss.take(0));
            assert(files_view(files@) =~= f4 + slot_files(ss.take(1)));
        }
        let b = slots[1].take();
        assert(b@ == ss[1]);
        let s1 = export_slot(b, 1, &mut files);
        proof {
            assert(ss.take(2).drop_last() =~= ss.take(1));
            assert(files_view(files@) =~= f4 + slot_files(ss.take(2)));
        }
        let c = slots[2].take();
        assert(c@ == ss[2]);
        let s2 = export_slot(c, 2, &mut files);
        proof {
            assert(ss.take(3).drop_last() =~= ss.take(2));
            assert(ss.take(3) =~= ss);
            assert(files_view(files@) =~= f4 + slot_files(ss));
        }
        let slots_ref = [s0, s1, s2];
        let r = Model {
            body: body_ref,
            shape: shape_ref,
            dimensions,
            max_radius,
            color,
            wheels: wheels_ref,
            debris: debris_ref,
            slots: slots_ref,
        };
        proof {
            assert(r@.wheels =~= ref_model(m).wheels);
            assert(r@.debris =~= ref_model(m).debris);
            assert(r@.slots =~= ref_model(m).slots);
        }
        (r, files)
    }
}


/// `to` is the mesh `from` with its geometry loaded by `load` from the file
/// that `from` names.
pub open spec fn resolved<G, F: Fn(String) -> G>(from: Mesh<String>, to: Mesh<G>, load: F) -> bool {
    &&& call_ensures(load, (from.geometry,), to.geometry)
    &&& to.bounds == from.bounds
    &&& to.parent_off == from.parent_off
    &&& to.parent_rot == from.parent_rot
    &&& to.max_radius == from.max_radius
    &&& to.physics == from.physics
}

/// `to` is the model that the description `from` names, the geometry of each
/// drawn mesh loaded by `load_draw` and of each collision mesh by `load_coll`.
pub open spec fn imported<FD, FC>(
    from: RefModel,
    to: Model<DrawMesh, CollisionMesh>,
    load_draw: FD,
    load_coll: FC,
) -> bool where FD: Fn(String) -> Geometry<DrawTriangle>, FC: Fn(String) -> Geometry<CollisionQuad> {
    &&& resolved(from.body, to.body, load_draw)
    &&& resolved(from.shape, to.shape, load_coll)
    &&& to.dimensions == from.dimensions
    &&& to.max_radius == from.max_radius
    &&& to.color == from.color
    &&& to.wheels.len() == from.wheels.len()
    &&& forall|i: int|
        0 <= i < to.wheels.len() ==> wheel_resolved(from.wheels@[i], #[trigger] to.wheels@[i], load_draw)
    &&& to.debris.len() == from.debris.len()
    &&& forall|i: int|
        0 <= i < to.debris.len() ==> resolved(from.debris@[i].mesh, (#[trigger] to.debris@[i]).mesh, load_draw)
            && resolved(from.debris@[i].shape, to.debris@[i].shape, load_coll)
    &&& forall|i: int| 0 <= i < MAX_SLOTS ==> slot_resolved(from.slots[i], #[trigger] to.slots[i], load_draw)
}

/// Loads the geometry of a mesh from the file it names.
fn resolve<G, F: Fn(String) -> G>(m: Mesh<String>, load: &F) -> (r: Mesh<G>)
    requires
        forall|n: String| call_requires(*load, (n,)),
    ensures
        resolved(m, r, *load),
{
    let Mesh { geometry, bounds, parent_off, parent_rot, max_radius, physics } = m;
    let g = load(geometry);
    Mesh { geometry: g, bounds, parent_off, parent_rot, max_radius, physics }
}


/// `to` is the wheel `from` with its mesh, where it has one, loaded.
pub open spec fn wheel_resolved<F: Fn(String) -> Geometry<DrawTriangle>>(
    from: Wheel<Mesh<String>>,
    to: Wheel<DrawMesh>,
    load: F,
) -> bool {
    &&& (to.mesh is Some) == (from.mesh is Some)
    &&& from.mesh is Some ==> resolved(from.mesh.unwrap(), to.mesh.unwrap(), load)
    &&& to.steer == from.steer
    &&& to.pos == from.pos
    &&& to.width == from.width
    &&& to.radius == from.radius
    &&& to.bound_index == from.bound_index
}

/// `to` is the slot `from` with its mesh, where it has one, loaded.
pub open spec fn slot_resolved<F: Fn(String) -> Geometry<DrawTriangle>>(
    from: Slot<Mesh<String>>,
    to: Slot<DrawMesh>,
    load: F,
) -> bool {
    &&& (to.mesh is Some) == (from.mesh is Some)
    &&& from.mesh is Some ==> resolved(from.mesh.unwrap(), to.mesh.unwrap(), load)
    &&& to.scale == from.scale
    &&& to.pos == from.pos
    &&& to.angle == from.angle
}

/// Loads the meshes of the wheels.
fn import_wheels<F: Fn(String) -> Geometry<DrawTriangle>>(
    wheels: Vec<Wheel<Mesh<String>>>,
    load: &F,
) -> (r: Vec<Wheel<DrawMesh>>)
    requires
        forall|n: String| call_requires(*load, (n,)),
    ensures
        r.len() == wheels.len(),
        forall|i: int| 0 <= i < r.len() ==> wheel_resolved(wheels@[i], #[trigger] r@[i], *load),
{
    let ghost ws = wheels@;
    let n = wheels.len();
    let mut rest = wheels;
    let mut out: Vec<Wheel<DrawMesh>> = Vec::new();
    let mut i: usize = 0;
    assert(rest@ =~= ws.skip(0));
    while rest.len() > 0
        invariant
            i + rest.len() == ws.len(),
            ws.len() == n,
            out.len() == i,
            rest@ == ws.skip(i as int),
            forall|n: String| call_requires(*load, (n,)),
            forall|k: int| 0 <= k < i ==> wheel_resolved(ws[k], #[trigger] out@[k], *load),
        decreases rest.len(),
    {
        let ghost old_rest = rest@;
        let w = rest.remove(0);
        assert(w == ws[i as int]);
        let mesh = match w.mesh {
            Some(m) => Some(resolve(m, load)),
            None => None,
        };
        out.push(Wheel {
            mesh,
            steer: w.steer,
            pos: w.pos,
            width: w.width,
            radius: w.radius,
            bound_index: w.bound_index,
        });
        i = i + 1;
        assert(rest@ =~= ws.skip(i as int));
    }
    out
}

/// Loads the meshes of the debris.
fn import_debris<FD, FC>(
    debris: Vec<Debrie<Mesh<String>, Mesh<String>>>,
    load_draw: &FD,
    load_coll: &FC,
) -> (r: Vec<Debrie<DrawMesh, CollisionMesh>>)
    where
        FD: Fn(String) -> Geometry<DrawTriangle>,
        FC: Fn(String) -> Geometry<CollisionQuad>,
    requires
        forall|n: String| call_requires(*load_draw, (n,)),
        forall|n: String| call_requires(*load_coll, (n,)),
    ensures
        r.len() == debris.len(),
        forall|i: int|
            0 <= i < r.len() ==> resolved(debris@[i].mesh, (#[trigger] r@[i]).mesh, *load_draw)
                && resolved(debris@[i].shape, r@[i].shape, *load_coll),
{
    let ghost ds = debris@;
    let n = debris.len();
    let mut rest = debris;
    let mut out: Vec<Debrie<DrawMesh, CollisionMesh>> = Vec::new();
    let mut i: usize = 0;
    assert(rest@ =~= ds.skip(0));
    while rest.len() > 0
        invariant
            i + rest.len() == ds.len(),
            ds.len() == n,
            out.len() == i,
            rest@ == ds.skip(i as int),
            forall|n: String| call_requires(*load_draw, (n,)),
            forall|n: String| call_requires(*load_coll, (n,)),
            forall|k: int|
                0 <= k < i ==> resolved(ds[k].mesh, (#[trigger] out@[k]).mesh, *load_draw)
                    && resolved(ds[k].shape, out@[k].shape, *load_coll),
        decreases rest.len(),
    {
        let d = rest.remove(0);
        assert(d == ds[i as int]);
        let mesh = resolve(d.mesh, load_draw);
        let shape = resolve(d.shape, load_coll);
        out.push(Debrie { mesh, shape });
        i = i + 1;
        assert(rest@ =~= ds.skip(i as int));
    }
    out
}

/// Loads the mesh of a slot, where it has one.
fn import_slot<F: Fn(String) -> Geometry<DrawTriangle>>(slot: Slot<Mesh<String>>, load: &F) -> (r:
    Slot<DrawMesh>)
    requires
        forall|n: String| call_requires(*load, (n,)),
    ensures
        slot_resolved(slot, r, *load),
{
    let mesh = match slot.mesh {
        Some(m) => Some(resolve(m, load)),
        None => None,
    };
    Slot { mesh, scale: slot.scale, pos: slot.pos, angle: slot.angle }
}

impl Model<Mesh<String>, Mesh<String>> {
    /// Builds the model that the description names, loading the geometry of
    /// each drawn mesh with `load_draw` and of each collision mesh with
    /// `load_coll` from the file that the mesh names.
    pub fn import_obj<FD, FC>(self, load_draw: &FD, load_coll: &FC) -> (r: Model<
        DrawMesh,
        CollisionMesh,
    >)
        where
            FD: Fn(String) -> Geometry<DrawTriangle>,
            FC: Fn(String) -> Geometry<CollisionQuad>,
        requires
            forall|n: String| call_requires(*load_draw, (n,)),
            forall|n: String| call_requires(*load_coll, (n,)),
        ensures
            imported(self, r, *load_draw, *load_coll),
    {
        let Model { body, shape, dimensions, max_radius, color, wheels, debris, slots } = self;
        let body = resolve(body, load_draw);
        let shape = resolve(shape, load_coll);
        let wheels = import_wheels(wheels, load_draw);
        let debris = import_debris(debris, load_draw, load_coll);
        let mut slots = slots;
        let ghost old_slots = slots;
        let a = import_slot(slots[0].take(), load_draw);
        let b = import_slot(slots[1].take(), load_draw);
        let c = import_slot(slots[2].take(), load_draw);
        let slots = [a, b, c];
        assert forall|i: int| 0 <= i < MAX_SLOTS implies slot_resolved(
            old_slots[i],
            #[trigger] slots[i],
            *load_draw,
        ) by {
            if i == 0 {
            } else if i == 1 {
            } else {
            }
        }
        Model { body, shape, dimensions, max_radius, color, wheels, debris, slots }
    }
}



// ----------------------------------------------------------------------------
// The names of the geometry files

/// Whether `c` is a decimal digit.
pub open spec fn is_digit(c: char) -> bool {
    '0' <= c <= '9'
}

/// The decimal digits of a number are digits, and there is one of them exactly
/// where the number is below ten.
pub proof fn lemma_decimal_digits(n: nat)
    ensures
        decimal(n).len() >= 1,
        (decimal(n).len() == 1) == (n < 10),
        forall|k: int| 0 <= k < decimal(n).len() ==> is_digit(#[trigger] decimal(n)[k]),
    decreases n,
{
    if n >= 10 {
        lemma_decimal_digits(n / 10);
    }
}

/// Different numbers have different decimal digits.
pub proof fn lemma_decimal_injective(i: nat, j: nat)
    requires
        decimal(i) == decimal(j),
    ensures
        i == j,
    decreases i,
{
    lemma_decimal_digits(i);
    lemma_decimal_digits(j);
    if i < 10 {
        assert(j < 10);
        assert(decimal(i) == seq![digit_char(i)]);
        assert(decimal(j) == seq![digit_char(j)]);
        assert(seq![digit_char(i)][0] == digit_char(i));
        assert(seq![digit_char(j)][0] == digit_char(j));
        assert(decimal(i)[0] == decimal(j)[0]);
        assert(digit_char(i) == digit_char(j));
    } else {
        assert(j >= 10);
        assert(decimal(i) == decimal(i / 10).push(digit_char(i % 10)));
        assert(decimal(j) == decimal(j / 10).push(digit_char(j % 10)));
        assert(decimal(i).drop_last() =~= decimal(i / 10));
        assert(decimal(j).drop_last() =~= decimal(j / 10));
        lemma_decimal_injective(i / 10, j / 10);
        assert(decimal(i).last() == decimal(j).last());
        assert(decimal(i / 10).push(digit_char(i % 10)).last() == digit_char(i % 10));
        assert(decimal(j / 10).push(digit_char(j % 10)).last() == digit_char(j % 10));
        assert(digit_char(i % 10) == digit_char(j % 10));
        assert(i % 10 == j % 10);
    }
}

/// Two names made of the same prefix and suffix around different numbers
/// differ.
pub proof fn lemma_names_differ(prefix: Seq<char>, suffix: Seq<char>, i: nat, j: nat)
    requires
        i != j,
    ensures
        prefix + decimal(i) + suffix != prefix + decimal(j) + suffix,
{
    if prefix + decimal(i) + suffix == prefix + decimal(j) + suffix {
        let a = prefix + decimal(i) + suffix;
        let b = prefix + decimal(j) + suffix;
        assert(a.len() == b.len());
        assert(decimal(i).len() == decimal(j).len());
        assert(decimal(i) =~= a.subrange(prefix.len() as int, (prefix.len() + decimal(i).len()) as int));
        assert(decimal(j) =~= b.subrange(prefix.len() as int, (prefix.len() + decimal(j).len()) as int));
        lemma_decimal_injective(i, j);
    }
}

/// The name of the mesh file of a piece of debris differs from that of the
/// shape file of any piece of debris.
pub proof fn lemma_debrie_names_differ(i: nat, j: nat)
    ensures
        debrie_name(i) != debrie_shape_name(j),
{
    reveal_strlit("debrie");
    reveal_strlit(".obj");
    reveal_strlit("-shape.obj");
    lemma_decimal_digits(i);
    lemma_decimal_digits(j);
    let a = debrie_name(i);
    let b = debrie_shape_name(j);
    let li = decimal(i).len();
    let lj = decimal(j).len();
    let p = 6 + lj;
    assert(b[p as int] == '-');
    if a.len() == b.len() {
        if p < 6 + li {
            assert(a[p as int] == decimal(i)[lj as int]);
        } else if p == 6 + li {
            assert(a[p as int] == '.');
        } else {
            assert(a[p as int] == ".obj"@[(p - 6 - li) as int]);
        }
    }
}

/// The first character of a file name.
pub open spec fn initial(name: Seq<char>) -> char {
    name[0]
}

/// The initials of the names of the files of an export.
pub proof fn lemma_initials(i: nat)
    ensures
        initial(body_name()) == 'b',
        initial(shape_name()) == 'b',
        initial(wheel_name(i)) == 'w',
        initial(debrie_name(i)) == 'd',
        initial(debrie_shape_name(i)) == 'd',
        initial(slot_name(i)) == 's',
        body_name().len() == 8,
        shape_name().len() == 14,
{
    reveal_strlit("body.obj");
    reveal_strlit("body-shape.obj");
    reveal_strlit("wheel");
    reveal_strlit("debrie");
    reveal_strlit("slot");
}


/// Whether the files `files` hold one named `name` with geometry `g`.
pub open spec fn holds_file(files: Seq<(Seq<char>, ObjGeometryV)>, name: Seq<char>, g: ObjGeometryV) -> bool {
    exists|k: int| 0 <= k < files.len() && files[k] == (name, g)
}

/// Whether no two of the files `files` have the same name.
pub open spec fn names_distinct(files: Seq<(Seq<char>, ObjGeometryV)>) -> bool {
    forall|k1: int, k2: int|
        0 <= k1 < files.len() && 0 <= k2 < files.len() && k1 != k2 ==> (#[trigger] files[k1]).0
            != (#[trigger] files[k2]).0
}

/// Among files with distinct names, a name gives one geometry.
pub proof fn lemma_unique_file(
    files: Seq<(Seq<char>, ObjGeometryV)>,
    name: Seq<char>,
    g1: ObjGeometryV,
    g2: ObjGeometryV,
)
    requires
        names_distinct(files),
        holds_file(files, name, g1),
        holds_file(files, name, g2),
    ensures
        g1 == g2,
{
    let k1 = choose|k: int| 0 <= k < files.len() && files[k] == (name, g1);
    let k2 = choose|k: int| 0 <= k < files.len() && files[k] == (name, g2);
    if k1 != k2 {
        assert(files[k1].0 != files[k2].0);
    }
}

/// Whether `name` is that of the file of one of the first `n` wheels.
pub open spec fn wheel_named(name: Seq<char>, n: nat) -> bool {
    exists|i: nat| i < n && name == #[trigger] wheel_name(i)
}

/// The files of the wheels are named after wheels, differently, and hold the
/// mesh of each wheel that has one.
pub proof fn lemma_wheel_files(ws: Seq<Wheel<DrawMeshV>>)
    ensures
        forall|k: int|
            0 <= k < wheel_files(ws).len() ==> wheel_named((#[trigger] wheel_files(ws)[k]).0, ws.len()),
        names_distinct(wheel_files(ws)),
        forall|i: int|
            0 <= i < ws.len() && (#[trigger] ws[i]).mesh is Some ==> holds_file(
                wheel_files(ws),
                wheel_name(i as nat),
                ObjGeometryV::Draw(ws[i].mesh.unwrap().geometry),
            ),
    decreases ws.len(),
{
    if ws.len() > 0 {
        let init = ws.drop_last();
        let n = (ws.len() - 1) as nat;
        lemma_wheel_files(init);
        let fi = wheel_files(init);
        let f = wheel_files(ws);
        let tail = match ws.last().mesh {
            Some(m) => seq![(wheel_name(n), ObjGeometryV::Draw(m.geometry))],
            None => Seq::<(Seq<char>, ObjGeometryV)>::empty(),
        };
        assert(f == fi + tail);
        assert forall|k: int| 0 <= k < f.len() implies wheel_named((#[trigger] f[k]).0, ws.len()) by {
            if k < fi.len() {
                assert(wheel_named(fi[k].0, init.len()));
                let i = choose|i: nat| i < init.len() && fi[k].0 == wheel_name(i);
                assert(f[k] == fi[k]);
                assert(i < ws.len() && f[k].0 == wheel_name(i));
            } else {
                assert(f[k].0 == wheel_name(n));
            }
        }
        assert forall|k1: int, k2: int|
            0 <= k1 < f.len() && 0 <= k2 < f.len() && k1 != k2 implies (#[trigger] f[k1]).0
            != (#[trigger] f[k2]).0 by {
            if k1 < fi.len() && k2 < fi.len() {
                assert(f[k1] == fi[k1] && f[k2] == fi[k2]);
                assert(fi[k1].0 != fi[k2].0);
            } else if k1 < fi.len() {
                assert(wheel_named(fi[k1].0, init.len()));
                let i = choose|i: nat| i < init.len() && fi[k1].0 == wheel_name(i);
                assert(f[k1] == fi[k1]);
                lemma_names_differ("wheel"@, ".obj"@, i, n);
            } else if k2 < fi.len() {
                assert(wheel_named(fi[k2].0, init.len()));
                let i = choose|i: nat| i < init.len() && fi[k2].0 == wheel_name(i);
                assert(f[k2] == fi[k2]);
                lemma_names_differ("wheel"@, ".obj"@, i, n);
            }
        }
        assert forall|i: int| 0 <= i < ws.len() && (#[trigger] ws[i]).mesh is Some implies holds_file(
            f,
            wheel_name(i as nat),
            ObjGeometryV::Draw(ws[i].mesh.unwrap().geometry),
        ) by {
            if i < init.len() {
                assert(init[i] == ws[i]);
                let k = choose|k: int| 0 <= k < fi.len() && fi[k] == (
                    wheel_name(i as nat),
                    ObjGeometryV::Draw(init[i].mesh.unwrap().geometry),
                );
                assert(f[k] == fi[k]);
            } else {
                assert(f[fi.len() as int] == tail[0]);
            }
        }
    } else {
        assert(wheel_files(ws).len() == 0);
    }
}

/// Whether `name` is that of the file of one of the first `n` slots.
pub open spec fn slot_named(name: Seq<char>, n: nat) -> bool {
    exists|i: nat| i < n && name == #[trigger] slot_name(i)
}

/// The files of the slots are named after slots, differently, and hold the
/// mesh of each slot that has one.
pub proof fn lemma_slot_files(ss: Seq<Slot<DrawMeshV>>)
    ensures
        forall|k: int|
            0 <= k < slot_files(ss).len() ==> slot_named((#[trigger] slot_files(ss)[k]).0, ss.len()),
        names_distinct(slot_files(ss)),
        forall|i: int|
            0 <= i < ss.len() && (#[trigger] ss[i]).mesh is Some ==> holds_file(
                slot_files(ss),
                slot_name(i as nat),
                ObjGeometryV::Draw(ss[i].mesh.unwrap().geometry),
            ),
    decreases ss.len(),
{
    if ss.len() > 0 {
        let init = ss.drop_last();
        let n = (ss.len() - 1) as nat;
        lemma_slot_files(init);
        let fi = slot_files(init);
        let f = slot_files(ss);
        let tail = match ss.last().mesh {
            Some(m) => seq![(slot_name(n), ObjGeometryV::Draw(m.geometry))],
            None => Seq::<(Seq<char>, ObjGeometryV)>::empty(),
        };
        assert(f == fi + tail);
        assert forall|k: int| 0 <= k < f.len() implies slot_named((#[trigger] f[k]).0, ss.len()) by {
            if k < fi.len() {
                assert(slot_named(fi[k].0, init.len()));
                let i = choose|i: nat| i < init.len() && fi[k].0 == slot_name(i);
                assert(f[k] == fi[k]);
                assert(i < ss.len() && f[k].0 == slot_name(i));
            } else {
                assert(f[k].0 == slot_name(n));
            }
        }
        assert forall|k1: int, k2: int|
            0 <= k1 < f.len() && 0 <= k2 < f.len() && k1 != k2 implies (#[trigger] f[k1]).0
            != (#[trigger] f[k2]).0 by {
            if k1 < fi.len() && k2 < fi.len() {
                assert(f[k1] == fi[k1] && f[k2] == fi[k2]);
                assert(fi[k1].0 != fi[k2].0);
            } else if k1 < fi.len() {
                assert(slot_named(fi[k1].0, init.len()));
                let i = choose|i: nat| i < init.len() && fi[k1].0 == slot_name(i);
                assert(f[k1] == fi[k1]);
                lemma_names_differ("slot"@, ".obj"@, i, n);
            } else if k2 < fi.len() {
                assert(slot_named(fi[k2].0, init.len()));
                let i = choose|i: nat| i < init.len() && fi[k2].0 == slot_name(i);
                assert(f[k2] == fi[k2]);
                lemma_names_differ("slot"@, ".obj"@, i, n);
            }
        }
        assert forall|i: int| 0 <= i < ss.len() && (#[trigger] ss[i]).mesh is Some implies holds_file(
            f,
            slot_name(i as nat),
            ObjGeometryV::Draw(ss[i].mesh.unwrap().geometry),
        ) by {
            if i < init.len() {
                assert(init[i] == ss[i]);
                let k = choose|k: int| 0 <= k < fi.len() && fi[k] == (
                    slot_name(i as nat),
                    ObjGeometryV::Draw(init[i].mesh.unwrap().geometry),
                );
                assert(f[k] == fi[k]);
            } else {
                assert(f[fi.len() as int] == tail[0]);
            }
        }
    } else {
        assert(slot_files(ss).len() == 0);
    }
}

/// Whether `name` is that of a file of one of the first `n` pieces of debris.
pub open spec fn debrie_named(name: Seq<char>, n: nat) -> bool {
    exists|i: nat| i < n && (name == #[trigger] debrie_name(i) || name == debrie_shape_name(i))
}

/// The files of the debris are named after the debris, differently, and hold
/// the mesh and the collision shape of each.
pub proof fn lemma_debris_files(ds: Seq<Debrie<DrawMeshV, CollisionMeshV>>)
    ensures
        forall|k: int|
            0 <= k < debris_files(ds).len() ==> debrie_named(
                (#[trigger] debris_files(ds)[k]).0,
                ds.len(),
            ),
        names_distinct(debris_files(ds)),
        forall|i: int|
            0 <= i < ds.len() ==> holds_file(
                debris_files(ds),
                debrie_name(i as nat),
                ObjGeometryV::Draw((#[trigger] ds[i]).mesh.geometry),
            ) && holds_file(
                debris_files(ds),
                debrie_shape_name(i as nat),
                ObjGeometryV::Collision(ds[i].shape.geometry),
            ),
    decreases ds.len(),
{
    if ds.len() > 0 {
        let init = ds.drop_last();
        let n = (ds.len() - 1) as nat;
        lemma_debris_files(init);
        let fi = debris_files(init);
        let f = debris_files(ds);
        let tail = seq![
            (debrie_name(n), ObjGeometryV::Draw(ds.last().mesh.geometry)),
            (debrie_shape_name(n), ObjGeometryV::Collision(ds.last().shape.geometry)),
        ];
        assert(f == fi + tail);
        assert forall|k: int| 0 <= k < f.len() implies debrie_named((#[trigger] f[k]).0, ds.len()) by {
            if k < fi.len() {
                assert(debrie_named(fi[k].0, init.len()));
                let i = choose|i: nat|
                    i < init.len() && (fi[k].0 == debrie_name(i) || fi[k].0 == debrie_shape_name(i));
                assert(f[k] == fi[k]);
                assert(i < ds.len() && (f[k].0 == debrie_name(i) || f[k].0 == debrie_shape_name(i)));
            } else if k == fi.len() {
                assert(f[k].0 == debrie_name(n));
            } else {
                assert(f[k].0 == debrie_shape_name(n));
                assert(f[k].0 == debrie_name(n) || f[k].0 == debrie_shape_name(n));
            }
        }
        assert forall|k1: int, k2: int|
            0 <= k1 < f.len() && 0 <= k2 < f.len() && k1 != k2 implies (#[trigger] f[k1]).0
            != (#[trigger] f[k2]).0 by {
            if k1 < fi.len() && k2 < fi.len() {
                assert(f[k1] == fi[k1] && f[k2] == fi[k2]);
                assert(fi[k1].0 != fi[k2].0);
            } else if k1 >= fi.len() && k2 >= fi.len() {
                lemma_debrie_names_differ(n, n);
            } else {
                let (old_k, new_k) = if k1 < fi.len() {
                    (k1, k2)
                } else {
                    (k2, k1)
                };
                assert(debrie_named(fi[old_k].0, init.len()));
                let i = choose|i: nat|
                    i < init.len() && (fi[old_k].0 == debrie_name(i) || fi[old_k].0
                        == debrie_shape_name(i));
                assert(f[old_k] == fi[old_k]);
                lemma_names_differ("debrie"@, ".obj"@, i, n);
                lemma_names_differ("debrie"@, "-shape.obj"@, i, n);
                lemma_debrie_names_differ(i, n);
                lemma_debrie_names_differ(n, i);
                assert(f[new_k].0 == debrie_name(n) || f[new_k].0 == debrie_shape_name(n));
            }
        }
        assert forall|i: int| 0 <= i < ds.len() implies holds_file(
            f,
            debrie_name(i as nat),
            ObjGeometryV::Draw((#[trigger] ds[i]).mesh.geometry),
        ) && holds_file(
            f,
            debrie_shape_name(i as nat),
            ObjGeometryV::Collision(ds[i].shape.geometry),
        ) by {
            if i < init.len() {
                assert(init[i] == ds[i]);
                let k = choose|k: int| 0 <= k < fi.len() && fi[k] == (
                    debrie_name(i as nat),
                    ObjGeometryV::Draw(init[i].mesh.geometry),
                );
                assert(f[k] == fi[k]);
                let k2 = choose|k: int| 0 <= k < fi.len() && fi[k] == (
                    debrie_shape_name(i as nat),
                    ObjGeometryV::Collision(init[i].shape.geometry),
                );
                assert(f[k2] == fi[k2]);
            } else {
                assert(f[fi.len() as int] == tail[0]);
                assert(f[fi.len() + 1int] == tail[1]);
            }
        }
    } else {
        assert(debris_files(ds).len() == 0);
    }
}

/// Files with distinct names, followed by files with distinct names none of
/// which any earlier file has, have distinct names.
pub proof fn lemma_distinct_join(a: Seq<(Seq<char>, ObjGeometryV)>, b: Seq<(Seq<char>, ObjGeometryV)>)
    requires
        names_distinct(a),
        names_distinct(b),
        forall|i: int, j: int|
            0 <= i < a.len() && 0 <= j < b.len() ==> (#[trigger] a[i]).0 != (#[trigger] b[j]).0,
    ensures
        names_distinct(a + b),
{
    let f = a + b;
    assert forall|k1: int, k2: int|
        0 <= k1 < f.len() && 0 <= k2 < f.len() && k1 != k2 implies (#[trigger] f[k1]).0
        != (#[trigger] f[k2]).0 by {
        if k1 < a.len() && k2 < a.len() {
            assert(f[k1] == a[k1] && f[k2] == a[k2]);
        } else if k1 >= a.len() && k2 >= a.len() {
            assert(f[k1] == b[k1 - a.len()] && f[k2] == b[k2 - a.len()]);
        } else if k1 < a.len() {
            assert(f[k1] == a[k1] && f[k2] == b[k2 - a.len()]);
        } else {
            assert(f[k2] == a[k2] && f[k1] == b[k1 - a.len()]);
        }
    }
}

/// No two geometry files of an export have the same name, and each mesh of
/// the model is in the file that its description names.
pub proof fn lemma_export_files(m: FullModelV)
    ensures
        names_distinct(export_files(m)),
        holds_file(export_files(m), body_name(), ObjGeometryV::Draw(m.body.geometry)),
        holds_file(export_files(m), shape_name(), ObjGeometryV::Collision(m.shape.geometry)),
        forall|i: int|
            0 <= i < m.wheels.len() && (#[trigger] m.wheels[i]).mesh is Some ==> holds_file(
                export_files(m),
                wheel_name(i as nat),
                ObjGeometryV::Draw(m.wheels[i].mesh.unwrap().geometry),
            ),
        forall|i: int|
            0 <= i < m.debris.len() ==> holds_file(
                export_files(m),
                debrie_name(i as nat),
                ObjGeometryV::Draw((#[trigger] m.debris[i]).mesh.geometry),
            ) && holds_file(
                export_files(m),
                debrie_shape_name(i as nat),
                ObjGeometryV::Collision(m.debris[i].shape.geometry),
            ),
        forall|i: int|
            0 <= i < m.slots.len() && (#[trigger] m.slots[i]).mesh is Some ==> holds_file(
                export_files(m),
                slot_name(i as nat),
                ObjGeometryV::Draw(m.slots[i].mesh.unwrap().geometry),
            ),
{
    let p = seq![
        (body_name(), ObjGeometryV::Draw(m.body.geometry)),
        (shape_name(), ObjGeometryV::Collision(m.shape.geometry)),
    ];
    let w = wheel_files(m.wheels);
    let d = debris_files(m.debris);
    let s = slot_files(m.slots);
    lemma_wheel_files(m.wheels);
    lemma_debris_files(m.debris);
    lemma_slot_files(m.slots);
    lemma_initials(0);
    assert forall|k: int| 0 <= k < w.len() implies initial((#[trigger] w[k]).0) == 'w' by {
        let i = choose|i: nat| i < m.wheels.len() && w[k].0 == wheel_name(i);
        lemma_initials(i);
    }
    assert forall|k: int| 0 <= k < d.len() implies initial((#[trigger] d[k]).0) == 'd' by {
        let i = choose|i: nat|
            i < m.debris.len() && (d[k].0 == debrie_name(i) || d[k].0 == debrie_shape_name(i));
        lemma_initials(i);
    }
    assert forall|k: int| 0 <= k < s.len() implies initial((#[trigger] s[k]).0) == 's' by {
        let i = choose|i: nat| i < m.slots.len() && s[k].0 == slot_name(i);
        lemma_initials(i);
    }
    assert(names_distinct(p)) by {
        assert(p[0].0.len() != p[1].0.len());
    }
    let pw = p + w;
    lemma_distinct_join(p, w);
    let pwd = pw + d;
    assert forall|i: int, j: int| 0 <= i < pw.len() && 0 <= j < d.len() implies (#[trigger] pw[i]).0
        != (#[trigger] d[j]).0 by {
        if i < p.len() {
            assert(pw[i] == p[i]);
        } else {
            assert(pw[i] == w[i - p.len()]);
        }
        assert(initial(d[j].0) == 'd');
    }
    lemma_distinct_join(pw, d);
    assert forall|i: int, j: int| 0 <= i < pwd.len() && 0 <= j < s.len() implies (
    #[trigger] pwd[i]).0 != (#[trigger] s[j]).0 by {
        if i < pw.len() {
            assert(pwd[i] == pw[i]);
            if i < p.len() {
                assert(pw[i] == p[i]);
            } else {
                assert(pw[i] == w[i - p.len()]);
            }
        } else {
            assert(pwd[i] == d[i - pw.len()]);
        }
        assert(initial(s[j].0) == 's');
    }
    lemma_distinct_join(pwd, s);
    let f = export_files(m);
    assert(f == pwd + s);
    assert(f[0] == p[0]);
    assert(f[1] == p[1]);
    assert forall|i: int| 0 <= i < m.wheels.len() && (#[trigger] m.wheels[i]).mesh is Some implies holds_file(
        f,
        wheel_name(i as nat),
        ObjGeometryV::Draw(m.wheels[i].mesh.unwrap().geometry),
    ) by {
        let k = choose|k: int| 0 <= k < w.len() && w[k] == (
            wheel_name(i as nat),
            ObjGeometryV::Draw(m.wheels[i].mesh.unwrap().geometry),
        );
        assert(f[k + 2] == w[k]);
    }
    assert forall|i: int| 0 <= i < m.debris.len() implies holds_file(
        f,
        debrie_name(i as nat),
        ObjGeometryV::Draw((#[trigger] m.debris[i]).mesh.geometry),
    ) && holds_file(f, debrie_shape_name(i as nat), ObjGeometryV::Collision(m.debris[i].shape.geometry)) by {
        let k = choose|k: int| 0 <= k < d.len() && d[k] == (
            debrie_name(i as nat),
            ObjGeometryV::Draw(m.debris[i].mesh.geometry),
        );
        assert(f[k + pw.len()] == d[k]);
        let k2 = choose|k: int| 0 <= k < d.len() && d[k] == (
            debrie_shape_name(i as nat),
            ObjGeometryV::Collision(m.debris[i].shape.geometry),
        );
        assert(f[k2 + pw.len()] == d[k2]);
    }
    assert forall|i: int| 0 <= i < m.slots.len() && (#[trigger] m.slots[i]).mesh is Some implies holds_file(
        f,
        slot_name(i as nat),
        ObjGeometryV::Draw(m.slots[i].mesh.unwrap().geometry),
    ) by {
        let k = choose|k: int| 0 <= k < s.len() && s[k] == (
            slot_name(i as nat),
            ObjGeometryV::Draw(m.slots[i].mesh.unwrap().geometry),
        );
        assert(f[k + pwd.len()] == s[k]);
    }
}

/// Whether `load_draw` and `load_coll` give, for a name, the geometry of the
/// file of that name among `files`.
pub open spec fn loads_from<FD, FC>(
    files: Seq<(Seq<char>, ObjGeometryV)>,
    load_draw: FD,
    load_coll: FC,
) -> bool where FD: Fn(String) -> Geometry<DrawTriangle>, FC: Fn(String) -> Geometry<CollisionQuad> {
    &&& forall|n: String, g: Geometry<DrawTriangle>| #[trigger]
        call_ensures(load_draw, (n,), g) ==> holds_file(files, n@, ObjGeometryV::Draw(g@))
    &&& forall|n: String, g: Geometry<CollisionQuad>| #[trigger]
        call_ensures(load_coll, (n,), g) ==> holds_file(files, n@, ObjGeometryV::Collision(g@))
}

/// A drawn mesh loaded from the file that its description names is the mesh
/// exported under that name.
proof fn lemma_draw_mesh_back<FD, FC>(
    files: Seq<(Seq<char>, ObjGeometryV)>,
    from: Mesh<String>,
    to: DrawMesh,
    mv: DrawMeshV,
    name: Seq<char>,
    load_draw: FD,
    load_coll: FC,
)
    where
        FD: Fn(String) -> Geometry<DrawTriangle>,
        FC: Fn(String) -> Geometry<CollisionQuad>,
    requires
        names_distinct(files),
        loads_from(files, load_draw, load_coll),
        resolved(from, to, load_draw),
        from@ == renamed(mv, name),
        holds_file(files, name, ObjGeometryV::Draw(mv.geometry)),
    ensures
        to@ == mv,
{
    assert(call_ensures(load_draw, (from.geometry,), to.geometry));
    lemma_unique_file(files, name, ObjGeometryV::Draw(to.geometry@), ObjGeometryV::Draw(mv.geometry));
}

/// A collision mesh loaded from the file that its description names is the
/// mesh exported under that name.
proof fn lemma_coll_mesh_back<FD, FC>(
    files: Seq<(Seq<char>, ObjGeometryV)>,
    from: Mesh<String>,
    to: CollisionMesh,
    mv: CollisionMeshV,
    name: Seq<char>,
    load_draw: FD,
    load_coll: FC,
)
    where
        FD: Fn(String) -> Geometry<DrawTriangle>,
        FC: Fn(String) -> Geometry<CollisionQuad>,
    requires
        names_distinct(files),
        loads_from(files, load_draw, load_coll),
        resolved(from, to, load_coll),
        from@ == renamed(mv, name),
        holds_file(files, name, ObjGeometryV::Collision(mv.geometry)),
    ensures
        to@ == mv,
{
    assert(call_ensures(load_coll, (from.geometry,), to.geometry));
    lemma_unique_file(
        files,
        name,
        ObjGeometryV::Collision(to.geometry@),
        ObjGeometryV::Collision(mv.geometry),
    );
}

/// Exporting a model and importing the description it gives, with loaders
/// that give for a name the geometry of the exported file of that name, gives
/// back the model.
pub proof fn lemma_import_export<FD, FC>(
    m: FullModelV,
    r: RefModel,
    back: Model<DrawMesh, CollisionMesh>,
    load_draw: FD,
    load_coll: FC,
)
    where
        FD: Fn(String) -> Geometry<DrawTriangle>,
        FC: Fn(String) -> Geometry<CollisionQuad>,
    requires
        m.slots.len() == MAX_SLOTS,
        r@ == ref_model(m),
        loads_from(export_files(m), load_draw, load_coll),
        imported(r, back, load_draw, load_coll),
    ensures
        back@ == m,
{
    let f = export_files(m);
    lemma_export_files(m);
    lemma_draw_mesh_back(f, r.body, back.body, m.body, body_name(), load_draw, load_coll);
    lemma_coll_mesh_back(f, r.shape, back.shape, m.shape, shape_name(), load_draw, load_coll);
    assert(r@.wheels.len() == r.wheels.len());
    assert forall|i: int| 0 <= i < m.wheels.len() implies back.wheels@[i]@ == m.wheels[i] by {
        assert(r@.wheels[i] == r.wheels@[i]@);
        assert(r@.wheels[i] == ref_wheel(m.wheels[i], i as nat));
        assert(wheel_resolved(r.wheels@[i], back.wheels@[i], load_draw));
        if m.wheels[i].mesh is Some {
            lemma_draw_mesh_back(
                f,
                r.wheels@[i].mesh.unwrap(),
                back.wheels@[i].mesh.unwrap(),
                m.wheels[i].mesh.unwrap(),
                wheel_name(i as nat),
                load_draw,
                load_coll,
            );
        }
    }
    assert(back@.wheels =~= m.wheels);
    assert(r@.debris.len() == r.debris.len());
    assert forall|i: int| 0 <= i < m.debris.len() implies back.debris@[i]@ == m.debris[i] by {
        assert(r@.debris[i] == r.debris@[i]@);
        assert(r@.debris[i] == ref_debrie(m.debris[i], i as nat));
        assert(resolved(r.debris@[i].mesh, back.debris@[i].mesh, load_draw));
        lemma_draw_mesh_back(
            f,
            r.debris@[i].mesh,
            back.debris@[i].mesh,
            m.debris[i].mesh,
            debrie_name(i as nat),
            load_draw,
            load_coll,
        );
        lemma_coll_mesh_back(
            f,
            r.debris@[i].shape,
            back.debris@[i].shape,
            m.debris[i].shape,
            debrie_shape_name(i as nat),
            load_draw,
            load_coll,
        );
    }
    assert(back@.debris =~= m.debris);
    assert forall|i: int| 0 <= i < MAX_SLOTS implies back.slots[i]@ == m.slots[i] by {
        assert(r@.slots[i] == r.slots[i]@);
        assert(r@.slots[i] == ref_slot(m.slots[i], i as nat));
        assert(slot_resolved(r.slots[i], back.slots[i], load_draw));
        if m.slots[i].mesh is Some {
            lemma_draw_mesh_back(
                f,
                r.slots[i].mesh.unwrap(),
                back.slots[i].mesh.unwrap(),
                m.slots[i].mesh.unwrap(),
                slot_name(i as nat),
                load_draw,
                load_coll,
            );
        }
    }
    assert(back@.slots =~= m.slots);
}

// ----------------------------------------------------------------------------
// Descriptions keep what they describe

/// Whether the mesh `d` carries the bounds, the offset from and rotation
/// against the parent, the radius and the physics of the mesh `m`.
pub open spec fn placement_kept<G, H>(d: Mesh<G>, m: Mesh<H>) -> bool {
    &&& d.bounds == m.bounds
    &&& d.parent_off == m.parent_off
    &&& d.parent_rot == m.parent_rot
    &&& d.max_radius == m.max_radius
    &&& d.physics == m.physics
}

/// The description of a model keeps every field of every mesh as it is: the
/// body, the shape, each wheel's mesh, each piece of debris and each slot's
/// mesh carry their bounds, offset, rotation, radius and physics unchanged,
/// and all else of the model is kept too.
pub proof fn lemma_export_keeps_fields(m: FullModelV)
    ensures
        ({
            let r = ref_model(m);
            &&& placement_kept(r.body, m.body)
            &&& placement_kept(r.shape, m.shape)
            &&& r.dimensions == m.dimensions
            &&& r.max_radius == m.max_radius
            &&& r.color == m.color
            &&& r.wheels.len() == m.wheels.len()
            &&& forall|i: int|
                0 <= i < m.wheels.len() ==> {
                    let (rw, w) = (#[trigger] r.wheels[i], m.wheels[i]);
                    &&& (rw.mesh is Some) == (w.mesh is Some)
                    &&& w.mesh is Some ==> placement_kept(rw.mesh.unwrap(), w.mesh.unwrap())
                    &&& rw.steer == w.steer
                    &&& rw.pos == w.pos
                    &&& rw.width == w.width
                    &&& rw.radius == w.radius
                    &&& rw.bound_index == w.bound_index
                }
            &&& r.debris.len() == m.debris.len()
            &&& forall|i: int|
                0 <= i < m.debris.len() ==> placement_kept((#[trigger] r.debris[i]).mesh, m.debris[i].mesh)
                    && placement_kept(r.debris[i].shape, m.debris[i].shape)
            &&& r.slots.len() == m.slots.len()
            &&& forall|i: int|
                0 <= i < m.slots.len() ==> {
                    let (rs, sl) = (#[trigger] r.slots[i], m.slots[i]);
                    &&& (rs.mesh is Some) == (sl.mesh is Some)
                    &&& sl.mesh is Some ==> placement_kept(rs.mesh.unwrap(), sl.mesh.unwrap())
                    &&& rs.scale == sl.scale
                    &&& rs.pos == sl.pos
                    &&& rs.angle == sl.angle
                }
        }),
{
}

/// A model imported from a description carries every mesh field that the
/// description gives: the body, the shape, each wheel's mesh, each piece of
/// debris and each slot's mesh keep their bounds, offset, rotation, radius
/// and physics.
pub proof fn lemma_import_keeps_fields<FD, FC>(
    from: RefModel,
    to: Model<DrawMesh, CollisionMesh>,
    load_draw: FD,
    load_coll: FC,
)
    where
        FD: Fn(String) -> Geometry<DrawTriangle>,
        FC: Fn(String) -> Geometry<CollisionQuad>,
    requires
        imported(from, to, load_draw, load_coll),
    ensures
        placement_kept(to.body, from.body),
        placement_kept(to.shape, from.shape),
        forall|i: int|
            0 <= i < to.wheels.len() && (#[trigger] to.wheels@[i]).mesh is Some ==> placement_kept(
                to.wheels@[i].mesh.unwrap(),
                from.wheels@[i].mesh.unwrap(),
            ),
        forall|i: int|
            0 <= i < to.debris.len() ==> placement_kept((#[trigger] to.debris@[i]).mesh, from.debris@[i].mesh)
                && placement_kept(to.debris@[i].shape, from.debris@[i].shape),
        forall|i: int|
            0 <= i < MAX_SLOTS && (#[trigger] to.slots[i]).mesh is Some ==> placement_kept(
                to.slots[i].mesh.unwrap(),
                from.slots[i].mesh.unwrap(),
            ),
{
    assert forall|i: int|
        0 <= i < to.wheels.len() && (#[trigger] to.wheels@[i]).mesh is Some implies placement_kept(
        to.wheels@[i].mesh.unwrap(),
        from.wheels@[i].mesh.unwrap(),
    ) by {
        assert(wheel_resolved(from.wheels@[i], to.wheels@[i], load_draw));
    }
    assert forall|i: int|
        0 <= i < MAX_SLOTS && (#[trigger] to.slots[i]).mesh is Some implies placement_kept(
        to.slots[i].mesh.unwrap(),
        from.slots[i].mesh.unwrap(),
    ) by {
        assert(slot_resolved(from.slots[i], to.slots[i], load_draw));
    }
}

} // verus!
