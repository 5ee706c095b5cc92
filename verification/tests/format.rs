use m3d::le::{read_vec_i32, read_vec_i8, write_i32, write_u32, write_u64, write_vec_i32, write_vec_i8};
use m3d::mesh::{read_polygon, write_polygon};
use m3d::{Bounds, CollisionQuad, Cursor, DrawTriangle, Geometry, Mesh, Physics, Polygon, Vertex, MAGIC_VERSION};

fn physics(seed: u32) -> Physics {
    let f = |k: u32| ((seed + k) as f32).to_bits();
    Physics {
        volume: f(0),
        rcm: [f(1), f(2), f(3)],
        jacobi: [[f(4), f(5), f(6)], [f(7), f(8), f(9)], [f(10), f(11), f(12)]],
    }
}

fn triangle(a: u16, b: u16, c: u16) -> DrawTriangle {
    DrawTriangle {
        vertices: [
            Vertex { pos: a, normal: 0 },
            Vertex { pos: b, normal: 1 },
            Vertex { pos: c, normal: 2 },
        ],
        flat_normal: [0, -127, 5],
        material: [7, 9],
    }
}

fn draw_mesh() -> Mesh<Geometry<DrawTriangle>> {
    Mesh {
        geometry: Geometry {
            positions: vec![[1, -2, 3], [-128, 127, 0], [4, 5, 6]],
            normals: vec![[0, 0, 127]],
            polygons: vec![triangle(0, 1, 2), triangle(2, 1, 0)],
        },
        bounds: Bounds { coord_min: [-10, -20, -30], coord_max: [10, 20, 30] },
        parent_off: [1, 2, 3],
        parent_rot: [-4, -5, -6],
        max_radius: 77,
        physics: physics(100),
    }
}

fn quad_mesh() -> Mesh<Geometry<CollisionQuad>> {
    Mesh {
        geometry: Geometry {
            positions: vec![[1, 1, 1], [2, 2, 2], [3, 3, 3], [4, 4, 4]],
            normals: vec![],
            polygons: vec![CollisionQuad { vertices: [0, 1, 2, 3], middle: [9, 8, 7], flat_normal: [0, 127, 0] }],
        },
        bounds: Bounds { coord_min: [0, 0, 0], coord_max: [4, 4, 4] },
        parent_off: [0, 0, 0],
        parent_rot: [0, 0, 0],
        max_radius: 5,
        physics: physics(200),
    }
}

#[test]
fn write_u32_is_little_endian() {
    let mut out = Vec::new();
    write_u32(&mut out, 0x1234_5678);
    assert_eq!(out, vec![0x78, 0x56, 0x34, 0x12]);
}

#[test]
fn write_i32_uses_twos_complement() {
    let mut out = Vec::new();
    write_i32(&mut out, -2);
    assert_eq!(out, vec![0xfe, 0xff, 0xff, 0xff]);
}

#[test]
fn write_u64_is_little_endian() {
    let mut out = vec![0xaa];
    write_u64(&mut out, 0x0102_0304_0506_0708);
    assert_eq!(out, vec![0xaa, 8, 7, 6, 5, 4, 3, 2, 1]);
}

#[test]
fn cursor_reads_fields_in_order() {
    let data = [0x78, 0x56, 0x34, 0x12, 0xfe, 0xff, 0xff, 0xff, 1, 0, 0, 0, 0, 0, 0, 0x80, 0xff, 0x05];
    let mut c = Cursor::new(&data);
    assert_eq!(c.read_u32(), Some(0x1234_5678));
    assert_eq!(c.read_i32(), Some(-2));
    assert_eq!(c.read_u64(), Some(0x8000_0000_0000_0001));
    assert_eq!(c.read_i8(), Some(-1));
    assert_eq!(c.position(), 17);
    assert_eq!(c.remaining(), 1);
    assert_eq!(c.read_u32(), None);
    assert_eq!(c.read_i8(), Some(5));
    assert_eq!(c.read_i8(), None);
}

#[test]
fn vec_fields_round_trip() {
    let mut out = Vec::new();
    write_vec_i32(&mut out, [-1, 0, i32::MAX]);
    write_vec_i8(&mut out, [-128, 0, 127]);
    assert_eq!(out.len(), 15);
    assert_eq!(&out[12..], &[0x80, 0, 0x7f]);
    let mut c = Cursor::new(&out);
    assert_eq!(read_vec_i32(&mut c), Some([-1, 0, i32::MAX]));
    assert_eq!(read_vec_i8(&mut c), Some([-128, 0, 127]));
    assert_eq!(read_vec_i8(&mut c), None);
}

#[test]
fn polygon_kinds_keep_what_they_store() {
    let t = triangle(3, 4, 5);
    let mut v = Vec::new();
    let (middle, flat, material) = t.dump(&mut v);
    assert_eq!(middle, [0, 0, 0]);
    assert_eq!(flat, [0, -127, 5]);
    assert_eq!(material, [7, 9]);
    assert_eq!(v.len(), 3);
    assert_eq!(DrawTriangle::new([1, 1, 1], flat, material, &v), t);
    assert_eq!(DrawTriangle::num_vertices(), 3);

    let q = CollisionQuad { vertices: [9, 8, 7, 6], middle: [1, 2, 3], flat_normal: [4, 5, 6] };
    let mut w = Vec::new();
    let (middle, flat, material) = q.dump(&mut w);
    assert_eq!(middle, [1, 2, 3]);
    assert_eq!(flat, [4, 5, 6]);
    assert_eq!(material, [0, 0]);
    assert_eq!(w, vec![
        Vertex { pos: 9, normal: 0 },
        Vertex { pos: 8, normal: 0 },
        Vertex { pos: 7, normal: 0 },
        Vertex { pos: 6, normal: 0 },
    ]);
    assert_eq!(CollisionQuad::new(middle, flat, [5, 5], &w), q);
    assert_eq!(CollisionQuad::num_vertices(), 4);
}

#[test]
fn polygon_record_layout() {
    let mut out = Vec::new();
    write_polygon(&mut out, &triangle(1, 2, 3));
    assert_eq!(out.len(), 23 + 3 * 8);
    assert_eq!(&out[0..4], &[3, 0, 0, 0]);
    assert_eq!(&out[4..8], &[0, 0, 0, 0]);
    assert_eq!(&out[8..16], &[7, 0, 0, 0, 9, 0, 0, 0]);
    assert_eq!(&out[16..23], &[0, 0x81, 5, 0, 0, 0, 0]);
    assert_eq!(&out[23..31], &[1, 0, 0, 0, 0, 0, 0, 0]);
    let mut c = Cursor::new(&out);
    assert_eq!(read_polygon::<DrawTriangle>(&mut c), Some(triangle(1, 2, 3)));
}

#[test]
fn vertex_indices_keep_their_low_bits() {
    let mut out = Vec::new();
    write_polygon(&mut out, &triangle(1, 2, 3));
    out[23..27].copy_from_slice(&0x0001_0005u32.to_le_bytes());
    let mut c = Cursor::new(&out);
    let t = read_polygon::<DrawTriangle>(&mut c).unwrap();
    assert_eq!(t.vertices[0].pos, 5);
}

#[test]
fn bounds_record_has_max_first() {
    let b = Bounds { coord_min: [-1, -2, -3], coord_max: [1, 2, 3] };
    let mut out = Vec::new();
    b.write(&mut out);
    assert_eq!(&out[0..4], &[1, 0, 0, 0]);
    assert_eq!(&out[12..16], &[0xff, 0xff, 0xff, 0xff]);
    let mut c = Cursor::new(&out);
    assert_eq!(Bounds::read(&mut c), Some(b));
}

#[test]
fn physics_words_are_column_major() {
    let p = physics(0);
    let mut out = Vec::new();
    p.write(&mut out);
    assert_eq!(out.len(), 13 * 8);
    let words: Vec<u64> = out.chunks(8).map(|c| u64::from_le_bytes(c.try_into().unwrap())).collect();
    let expected: Vec<u64> =
        [0u32, 1, 2, 3, 4, 7, 10, 5, 8, 11, 6, 9, 12].iter().map(|k| (*k as f64).to_bits()).collect();
    assert_eq!(words, expected);
    let mut c = Cursor::new(&out);
    assert_eq!(Physics::load(&mut c), Some(p));
}

#[test]
fn mesh_record_layout() {
    let m = draw_mesh();
    let mut out = Vec::new();
    m.save(&mut out);
    assert_eq!(out.len(), 176 + 3 * 19 + 8 + 2 * 47 + 3 * 2 * 4);
    let word = |i: usize| u32::from_le_bytes(out[4 * i..4 * i + 4].try_into().unwrap());
    assert_eq!(word(0), MAGIC_VERSION);
    assert_eq!(word(1), 3);
    assert_eq!(word(2), 1);
    assert_eq!(word(3), 2);
    assert_eq!(word(4), 6);
    // the first position record: the position widened to i32, then itself
    assert_eq!(&out[176..188], &[1, 0, 0, 0, 0xfe, 0xff, 0xff, 0xff, 3, 0, 0, 0]);
    assert_eq!(&out[188..195], &[1, 0xfe, 3, 0, 0, 0, 0]);
    // the words after the polygons are zero
    assert!(out[out.len() - 24..].iter().all(|b| *b == 0));
}

#[test]
fn mesh_round_trip() {
    let m = draw_mesh();
    let mut out = Vec::new();
    m.save(&mut out);
    out.extend_from_slice(&[1, 2, 3]);
    let mut c = Cursor::new(&out);
    let back = Mesh::<Geometry<DrawTriangle>>::load(&mut c).unwrap();
    assert_eq!(back, m);
    assert_eq!(c.remaining(), 3);

    let q = quad_mesh();
    let mut out = Vec::new();
    q.save(&mut out);
    let mut c = Cursor::new(&out);
    assert_eq!(Mesh::<Geometry<CollisionQuad>>::load(&mut c), Some(q));
    assert_eq!(c.remaining(), 0);
}

#[test]
fn mesh_with_wrong_version_is_refused() {
    let mut out = Vec::new();
    draw_mesh().save(&mut out);
    out[0] = 7;
    let mut c = Cursor::new(&out);
    assert_eq!(Mesh::<Geometry<DrawTriangle>>::load(&mut c), None);
}

#[test]
fn truncated_mesh_is_refused() {
    let mut out = Vec::new();
    draw_mesh().save(&mut out);
    for len in 0..out.len() {
        let mut c = Cursor::new(&out[..len]);
        assert_eq!(Mesh::<Geometry<DrawTriangle>>::load(&mut c), None, "prefix of {} bytes", len);
    }
}

#[test]
fn polygons_of_another_kind_are_refused() {
    let mut out = Vec::new();
    quad_mesh().save(&mut out);
    let mut c = Cursor::new(&out);
    assert_eq!(Mesh::<Geometry<DrawTriangle>>::load(&mut c), None);
}

#[test]
fn mesh_map_replaces_geometry_only() {
    let m = draw_mesh();
    let n = m.clone().map(|g: Geometry<DrawTriangle>| g.polygons.len());
    assert_eq!(n.geometry, 2);
    assert_eq!(n.bounds, m.bounds);
    assert_eq!(n.parent_off, m.parent_off);
    assert_eq!(n.parent_rot, m.parent_rot);
    assert_eq!(n.max_radius, m.max_radius);
    assert_eq!(n.physics, m.physics);
}
