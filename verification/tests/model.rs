use m3d::{
    Bounds, CollisionMesh, CollisionQuad, Debrie, DrawMesh, DrawTriangle, FullModel, Geometry,
    Mesh, Model, Physics, Slot, Vertex, Wheel, UNIT_SCALE,
};

fn physics(seed: u32) -> Physics {
    let f = |k: u32| (k as f32 * 0.5).to_bits();
    Physics { volume: f(seed), rcm: [f(seed); 3], jacobi: [[f(seed + 1); 3]; 3] }
}

fn draw_mesh(seed: i8) -> DrawMesh {
    Mesh {
        geometry: Geometry {
            positions: vec![[seed, 0, 0], [0, seed, 0], [0, 0, seed]],
            normals: vec![[seed, seed, seed]],
            polygons: vec![DrawTriangle {
                vertices: [
                    Vertex { pos: 0, normal: 0 },
                    Vertex { pos: 1, normal: 0 },
                    Vertex { pos: 2, normal: 0 },
                ],
                flat_normal: [0, 0, seed],
                material: [seed as u32, 1],
            }],
        },
        bounds: Bounds { coord_min: [-1, -1, -1], coord_max: [1, 1, 1] },
        parent_off: [seed as i32, 0, 0],
        parent_rot: [0, seed as i32, 0],
        max_radius: 3,
        physics: physics(seed as u32),
    }
}

fn coll_mesh(seed: i8) -> CollisionMesh {
    Mesh {
        geometry: Geometry {
            positions: vec![[seed, 1, 1], [1, seed, 1], [1, 1, seed], [seed, seed, seed]],
            normals: vec![],
            polygons: vec![CollisionQuad { vertices: [0, 1, 2, 3], middle: [seed, 0, 0], flat_normal: [0, 0, 1] }],
        },
        bounds: Bounds { coord_min: [0, 0, 0], coord_max: [2, 2, 2] },
        parent_off: [0, 0, 0],
        parent_rot: [0, 0, 0],
        max_radius: 2,
        physics: physics(50 + seed as u32),
    }
}

fn model() -> FullModel {
    Model {
        body: draw_mesh(1),
        shape: coll_mesh(2),
        dimensions: [10, 20, 30],
        max_radius: 40,
        color: [5, 6],
        wheels: vec![
            Wheel { mesh: None, steer: 0, pos: [1, 2, 3], width: 4, radius: 5, bound_index: 6 },
            Wheel { mesh: Some(draw_mesh(3)), steer: 1, pos: [7, 8, 9], width: 10, radius: 11, bound_index: 12 },
        ],
        debris: vec![Debrie { mesh: draw_mesh(4), shape: coll_mesh(5) }],
        slots: [
            Slot { mesh: None, scale: 0, pos: [1, 2, 3], angle: 4 },
            Slot { mesh: Some(draw_mesh(6)), scale: 0x4000_0000, pos: [-1, -2, -3], angle: -4 },
            Slot::empty(),
        ],
    }
}

fn saved(m: &FullModel) -> Vec<u8> {
    let mut out = Vec::new();
    m.save(&mut out);
    out
}

#[test]
fn saved_model_loads_back() {
    let m = model();
    let back = FullModel::load(&saved(&m)).unwrap();
    assert_eq!(back.body, m.body);
    assert_eq!(back.shape, m.shape);
    assert_eq!(back.dimensions, m.dimensions);
    assert_eq!(back.max_radius, m.max_radius);
    assert_eq!(back.color, m.color);
    assert_eq!(back.wheels, m.wheels);
    assert_eq!(back.debris, m.debris);
    for i in 0..3 {
        assert_eq!(back.slots[i].mesh, None);
        assert_eq!(back.slots[i].scale, UNIT_SCALE);
        assert_eq!(back.slots[i].pos, m.slots[i].pos);
        assert_eq!(back.slots[i].angle, m.slots[i].angle);
    }
}

#[test]
fn loaded_model_saves_to_the_same_bytes() {
    let bytes = saved(&model());
    let back = FullModel::load(&bytes).unwrap();
    assert_eq!(saved(&back), bytes);
}

#[test]
fn bytes_after_the_model_are_not_read() {
    let mut bytes = saved(&model());
    bytes.extend_from_slice(&[9; 7]);
    assert!(FullModel::load(&bytes).is_some());
}

#[test]
fn truncated_model_is_refused() {
    let bytes = saved(&model());
    let mut len = 0;
    while len < bytes.len() {
        assert!(FullModel::load(&bytes[..len]).is_none(), "prefix of {} bytes", len);
        len += 7;
    }
    assert!(FullModel::load(&bytes[..bytes.len() - 1]).is_none());
    assert!(FullModel::load(&[]).is_none());
}

#[test]
fn model_header_layout() {
    let m = model();
    let bytes = saved(&m);
    let mut body = Vec::new();
    m.body.save(&mut body);
    let h = body.len();
    let word = |i: usize| u32::from_le_bytes(bytes[h + 4 * i..h + 4 * i + 4].try_into().unwrap());
    assert_eq!([word(0), word(1), word(2)], [10, 20, 30]);
    assert_eq!(word(3), 40);
    assert_eq!(word(4), 2);
    assert_eq!(word(5), 1);
    assert_eq!([word(6), word(7)], [5, 6]);
    // the slots: position and angle of each, after a zero slot mask
    let tail = &bytes[bytes.len() - 52..];
    assert_eq!(&tail[0..4], &[0, 0, 0, 0]);
    assert_eq!(&tail[4..20], &[1, 0, 0, 0, 2, 0, 0, 0, 3, 0, 0, 0, 4, 0, 0, 0]);
}

#[test]
fn steering_wheel_without_mesh_is_read_with_the_next_record() {
    // A wheel that steers but was saved without a mesh: loading takes the
    // following bytes for its mesh, which here fails.
    let mut m = model();
    m.wheels[0].steer = 1;
    assert!(FullModel::load(&saved(&m)).is_none());
}

#[test]
fn wheel_map_keeps_fields() {
    let w = Wheel { mesh: Some(5u32), steer: 1, pos: [1, 2, 3], width: 4, radius: 5, bound_index: 6 };
    let v = w.map(|x| x * 2);
    assert_eq!(v.mesh, Some(10u32));
    assert_eq!((v.steer, v.pos, v.width, v.radius, v.bound_index), (1, [1, 2, 3], 4, 5, 6));
    let none: Wheel<u32> = Wheel { mesh: None, steer: 0, pos: [0; 3], width: 0, radius: 0, bound_index: 0 };
    assert_eq!(none.map(|x| x + 1).mesh, None);
}

#[test]
fn slot_map_all_passes_indices() {
    let slots = [
        Slot { mesh: Some(10u32), scale: 1, pos: [1, 1, 1], angle: 1 },
        Slot { mesh: None, scale: 2, pos: [2, 2, 2], angle: 2 },
        Slot { mesh: Some(30u32), scale: 3, pos: [3, 3, 3], angle: 3 },
    ];
    let r = Slot::map_all(slots, |m, i| (m, i));
    assert_eq!(r[0].mesh, Some((10, 0)));
    assert_eq!(r[1].mesh, None);
    assert_eq!(r[2].mesh, Some((30, 2)));
    assert_eq!((r[1].scale, r[1].pos, r[1].angle), (2, [2, 2, 2], 2));
}

#[test]
fn empty_slot() {
    let s: Slot<u8> = Slot::empty();
    assert_eq!((s.mesh, s.scale, s.pos, s.angle), (None, 0, [0, 0, 0], 0));
}

#[test]
fn loaded_model_rounds_floats_and_reloads_as_itself() {
    let mut bytes = saved(&model());
    // The body's physics starts after 72 bytes of mesh header: its volume.
    bytes[72..80].copy_from_slice(&0.1f64.to_le_bytes());
    let first = FullModel::load(&bytes).unwrap();
    assert_eq!(first.body.physics.volume, 0.1f32.to_bits());
    let resaved = saved(&first);
    assert_ne!(resaved, bytes);
    assert_eq!(&resaved[72..80], &((0.1f32) as f64).to_le_bytes());
    let second = FullModel::load(&resaved).unwrap();
    assert_eq!(second, first);
    assert_eq!(saved(&second), resaved);
}

#[test]
fn signalling_nan_position_loads_quiet() {
    let mut m = model();
    m.wheels[0].pos = [0x7f80_0001, 0, 0];
    let back = FullModel::load(&saved(&m)).unwrap();
    assert_eq!(back.wheels[0].pos, [0x7fc0_0001, 0, 0]);
}

#[test]
fn loaded_counts_follow_the_header() {
    let m = model();
    let bytes = saved(&m);
    let mut body = Vec::new();
    m.body.save(&mut body);
    let at = body.len();
    let word = |k: usize| u32::from_le_bytes(bytes[at + 4 * k..at + 4 * k + 4].try_into().unwrap());
    let back = FullModel::load(&bytes).unwrap();
    assert_eq!(word(4), 2);
    assert_eq!(word(5), 1);
    assert_eq!(back.wheels.len(), word(4) as usize);
    assert_eq!(back.debris.len(), word(5) as usize);
    for w in &back.wheels {
        assert_eq!(w.mesh.is_some(), w.steer != 0);
    }
}

#[test]
fn slot_meshes_and_scales_are_not_saved() {
    let m1 = model();
    let mut m2 = model();
    m2.slots[0].mesh = Some(draw_mesh(9));
    m2.slots[0].scale = 0x4040_0000;
    m2.slots[1].mesh = None;
    m2.slots[2].scale = 0;
    assert_eq!(saved(&m1), saved(&m2));
}
