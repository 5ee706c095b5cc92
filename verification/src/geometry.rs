//! The geometry of a mesh: vertex positions, normals and polygons, and the
//! two kinds of polygon that models hold (drawn triangles and collision quads).

use vstd::prelude::*;

verus! {

/// A polygon corner: the indices of its position and of its normal.
#[derive(Clone, Copy, Debug, PartialEq, Eq)]
pub struct Vertex {
    pub pos: u16,
    pub normal: u16,
}

/// A drawn triangle: three corners, the face normal and the material.
#[derive(Clone, Copy, Debug, PartialEq, Eq)]
pub struct DrawTriangle {
    pub vertices: [Vertex; 3],
    pub flat_normal: [i8; 3],
    pub material: [u32; 2],
}

/// A collision quad: the position indices of four corners, its middle and its
/// face normal.
#[derive(Clone, Copy, Debug, PartialEq, Eq)]
pub struct CollisionQuad {
    pub vertices: [u16; 4],
    pub middle: [i8; 3],
    pub flat_normal: [i8; 3],
}

/// The geometry of a mesh.
#[derive(Clone, Debug, PartialEq, Eq)]
pub struct Geometry<P> {
    pub positions: Vec<[i8; 3]>,
    pub normals: Vec<[i8; 3]>,
    pub polygons: Vec<P>,
}

/// The contents of a [`Geometry`].
pub struct GeometryV<P> {
    pub positions: Seq<[i8; 3]>,
    pub normals: Seq<[i8; 3]>,
    pub polygons: Seq<P>,
}

impl<P> View for Geometry<P> {
    type V = GeometryV<P>;

    open spec fn view(&self) -> GeometryV<P> {
        GeometryV { positions: self.positions@, normals: self.normals@, polygons: self.polygons@ }
    }
}

/// A kind of polygon that a mesh holds. A file stores every polygon with its
/// middle, face normal, material and corners; a kind keeps what it needs of
/// them and gives back what it kept.
pub trait Polygon: Sized {
    /// How many corners a polygon of this kind has.
    spec fn spec_num_vertices() -> u32;

    /// The polygon made of a stored middle, face normal, material and corners.
    spec fn spec_new(
        middle: [i8; 3],
        flat_normal: [i8; 3],
        material: [u32; 2],
        vertices: Seq<Vertex>,
    ) -> Self;

    /// What a polygon stores: its middle, face normal, material and corners.
    spec fn spec_dump(&self) -> ([i8; 3], [i8; 3], [u32; 2], Seq<Vertex>);

    /// A polygon stored with the given parts reads back as itself.
    proof fn lemma_dump_new(p: Self)
        ensures
            p.spec_dump().3.len() == Self::spec_num_vertices(),
            Self::spec_new(p.spec_dump().0, p.spec_dump().1, p.spec_dump().2, p.spec_dump().3)
                == p,
    ;

    fn new(middle: [i8; 3], flat_normal: [i8; 3], material: [u32; 2], vertices: &[Vertex]) -> (r:
        Self)
        requires
            vertices@.len() == Self::spec_num_vertices(),
        ensures
            r == Self::spec_new(middle, flat_normal, material, vertices@),
    ;

    fn dump(&self, vertices: &mut Vec<Vertex>) -> (r: ([i8; 3], [i8; 3], [u32; 2]))
        ensures
            final(vertices)@ == old(vertices)@ + self.spec_dump().3,
            r == (self.spec_dump().0, self.spec_dump().1, self.spec_dump().2),
    ;

    fn num_vertices() -> (n: u32)
        ensures
            n == Self::spec_num_vertices(),
    ;
}

impl Polygon for DrawTriangle {
    open spec fn spec_num_vertices() -> u32 {
        3
    }

    open spec fn spec_new(
        middle: [i8; 3],
        flat_normal: [i8; 3],
        material: [u32; 2],
        vertices: Seq<Vertex>,
    ) -> Self {
        DrawTriangle { vertices: [vertices[0], vertices[1], vertices[2]], flat_normal, material }
    }

    open spec fn spec_dump(&self) -> ([i8; 3], [i8; 3], [u32; 2], Seq<Vertex>) {
        ([0, 0, 0], self.flat_normal, self.material, self.vertices@)
    }

    proof fn lemma_dump_new(p: Self) {
        let v = p.vertices@;
        let a: [Vertex; 3] = [v[0], v[1], v[2]];
        assert(a =~= p.vertices);
    }

    fn new(_middle: [i8; 3], flat_normal: [i8; 3], material: [u32; 2], v: &[Vertex]) -> (r: Self) {
        DrawTriangle { vertices: [v[0], v[1], v[2]], flat_normal, material }
    }

    fn dump(&self, vertices: &mut Vec<Vertex>) -> (r: ([i8; 3], [i8; 3], [u32; 2])) {
        vertices.push(self.vertices[0]);
        vertices.push(self.vertices[1]);
        vertices.push(self.vertices[2]);
        assert(vertices@ =~= old(vertices)@ + self.vertices@);
        ([0, 0, 0], self.flat_normal, self.material)
    }

    fn num_vertices() -> (n: u32) {
        3
    }
}

/// The corners that a collision quad stores: its position indices, with
/// normal index 0.
pub open spec fn quad_corners(q: CollisionQuad) -> Seq<Vertex> {
    seq![
        Vertex { pos: q.vertices[0], normal: 0 },
        Vertex { pos: q.vertices[1], normal: 0 },
        Vertex { pos: q.vertices[2], normal: 0 },
        Vertex { pos: q.vertices[3], normal: 0 },
    ]
}

impl Polygon for CollisionQuad {
    open spec fn spec_num_vertices() -> u32 {
        4
    }

    open spec fn spec_new(
        middle: [i8; 3],
        flat_normal: [i8; 3],
        material: [u32; 2],
        vertices: Seq<Vertex>,
    ) -> Self {
        CollisionQuad {
            vertices: [vertices[0].pos, vertices[1].pos, vertices[2].pos, vertices[3].pos],
            middle,
            flat_normal,
        }
    }

    open spec fn spec_dump(&self) -> ([i8; 3], [i8; 3], [u32; 2], Seq<Vertex>) {
        (self.middle, self.flat_normal, [0, 0], quad_corners(*self))
    }

    proof fn lemma_dump_new(p: Self) {
        let v = p.vertices@;
        let a: [u16; 4] = [v[0], v[1], v[2], v[3]];
        assert(a =~= p.vertices);
    }

    fn new(middle: [i8; 3], flat_normal: [i8; 3], _material: [u32; 2], v: &[Vertex]) -> (r: Self) {
        CollisionQuad { vertices: [v[0].pos, v[1].pos, v[2].pos, v[3].pos], middle, flat_normal }
    }

    fn dump(&self, vertices: &mut Vec<Vertex>) -> (r: ([i8; 3], [i8; 3], [u32; 2])) {
        vertices.push(Vertex { pos: self.vertices[0], normal: 0 });
        vertices.push(Vertex { pos: self.vertices[1], normal: 0 });
        vertices.push(Vertex { pos: self.vertices[2], normal: 0 });
        vertices.push(Vertex { pos: self.vertices[3], normal: 0 });
        assert(vertices@ =~= old(vertices)@ + quad_corners(*self));
        (self.middle, self.flat_normal, [0, 0])
    }

    fn num_vertices() -> (n: u32) {
        4
    }
}

/// A drawn triangle made of stored parts keeps its three corners in the order
/// stored, its face normal and its material; the middle is not kept.
pub proof fn lemma_triangle_from_parts(
    middle: [i8; 3],
    flat_normal: [i8; 3],
    material: [u32; 2],
    corners: Seq<Vertex>,
)
    requires
        corners.len() == 3,
    ensures
        ({
            let t = DrawTriangle::spec_new(middle, flat_normal, material, corners);
            &&& forall|i: int| 0 <= i < 3 ==> t.vertices[i] == corners[i]
            &&& t.flat_normal == flat_normal
            &&& t.material == material
        }),
{
}

/// A drawn triangle stores a zero middle, its face normal, its material and
/// its three corners in order.
pub proof fn lemma_triangle_parts(t: DrawTriangle)
    ensures
        t.spec_dump().0 == [0i8, 0i8, 0i8],
        t.spec_dump().1 == t.flat_normal,
        t.spec_dump().2 == t.material,
        t.spec_dump().3.len() == 3,
        forall|i: int| 0 <= i < 3 ==> t.spec_dump().3[i] == t.vertices[i],
{
    let z: [i8; 3] = [0, 0, 0];
    assert(z@ =~= seq![0i8, 0i8, 0i8]);
}

/// A collision quad made of stored parts keeps the position indices of its
/// four corners in the order stored, its middle and its face normal; the
/// material and the normal indices are not kept.
pub proof fn lemma_quad_from_parts(
    middle: [i8; 3],
    flat_normal: [i8; 3],
    material: [u32; 2],
    corners: Seq<Vertex>,
)
    requires
        corners.len() == 4,
    ensures
        ({
            let q = CollisionQuad::spec_new(middle, flat_normal, material, corners);
            &&& forall|i: int| 0 <= i < 4 ==> q.vertices[i] == corners[i].pos
            &&& q.middle == middle
            &&& q.flat_normal == flat_normal
        }),
{
}

/// A collision quad stores its middle, its face normal, a zero material and
/// its four corners in order, each with normal index 0.
pub proof fn lemma_quad_parts(q: CollisionQuad)
    ensures
        q.spec_dump().0 == q.middle,
        q.spec_dump().1 == q.flat_normal,
        q.spec_dump().2 == [0u32, 0u32],
        q.spec_dump().3.len() == 4,
        forall|i: int|
            0 <= i < 4 ==> q.spec_dump().3[i] == (Vertex { pos: q.vertices[i], normal: 0 }),
{
    let z: [u32; 2] = [0, 0];
    assert(z@ =~= seq![0u32, 0u32]);
}

} // verus!
