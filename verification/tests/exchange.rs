use m3d::{
    Bounds, CollisionMesh, CollisionQuad, Debrie, DrawMesh, DrawTriangle, FullModel, Geometry,
    Mesh, Model, ObjFile, ObjGeometry, Physics, Slot, Vertex, Wheel,
};

fn draw_mesh(seed: i8) -> DrawMesh {
    Mesh {
        geometry: Geometry {
            positions: vec![[seed, 0, 0], [0, seed, 0], [0, 0, seed]],
            normals: vec![[seed, 1, 1]],
            polygons: vec![DrawTriangle {
                vertices: [
                    Vertex { pos: 0, normal: 0 },
                    Vertex { pos: 1, normal: 0 },
                    Vertex { pos: 2, normal: 0 },
                ],
                flat_normal: [0, 0, 1],
                material: [seed as u32, 2],
            }],
        },
        bounds: Bounds { coord_min: [-1, -1, -1], coord_max: [1, 1, 1] },
        parent_off: [seed as i32, 0, 0],
        parent_rot: [0, 0, seed as i32],
        max_radius: seed as u32,
        physics: Physics { volume: (seed as f32).to_bits(), rcm: [1, 2, 3], jacobi: [[4; 3]; 3] },
    }
}

fn coll_mesh(seed: i8) -> CollisionMesh {
    Mesh {
        geometry: Geometry {
            positions: vec![[seed, seed, seed]],
            normals: vec![],
            polygons: vec![CollisionQuad { vertices: [0, 0, 0, 0], middle: [seed, 0, 0], flat_normal: [1, 0, 0] }],
        },
        bounds: Bounds { coord_min: [0, 0, 0], coord_max: [1, 1, 1] },
        parent_off: [0, 0, 0],
        parent_rot: [0, 0, 0],
        max_radius: 1,
        physics: Physics { volume: 9, rcm: [0; 3], jacobi: [[0; 3]; 3] },
    }
}

fn model(num_debris: usize) -> FullModel {
    Model {
        body: draw_mesh(1),
        shape: coll_mesh(2),
        dimensions: [1, 2, 3],
        max_radius: 4,
        color: [5, 6],
        wheels: vec![
            Wheel { mesh: None, steer: 0, pos: [1, 2, 3], width: 4, radius: 5, bound_index: 6 },
            Wheel { mesh: Some(draw_mesh(3)), steer: 1, pos: [7, 8, 9], width: 10, radius: 11, bound_index: 12 },
        ],
        debris: (0..num_debris)
            .map(|i| Debrie { mesh: draw_mesh(10 + i as i8), shape: coll_mesh(40 + i as i8) })
            .collect(),
        slots: [
            Slot { mesh: None, scale: 7, pos: [1, 2, 3], angle: 4 },
            Slot { mesh: Some(draw_mesh(6)), scale: 8, pos: [-1, -2, -3], angle: -4 },
            Slot { mesh: Some(draw_mesh(7)), scale: 9, pos: [0, 0, 0], angle: 0 },
        ],
    }
}

fn names(files: &[ObjFile]) -> Vec<&str> {
    files.iter().map(|f| f.name.as_str()).collect()
}

#[test]
fn export_names_the_geometry_files() {
    let m = model(2);
    let (r, files) = m.clone().export_obj();
    assert_eq!(
        names(&files),
        vec![
            "body.obj",
            "body-shape.obj",
            "wheel1.obj",
            "debrie0.obj",
            "debrie0-shape.obj",
            "debrie1.obj",
            "debrie1-shape.obj",
            "slot1.obj",
            "slot2.obj",
        ]
    );
    assert_eq!(r.body.geometry, "body.obj");
    assert_eq!(r.shape.geometry, "body-shape.obj");
    assert_eq!(r.wheels[0].mesh, None);
    assert_eq!(r.wheels[1].mesh.as_ref().unwrap().geometry, "wheel1.obj");
    assert_eq!(r.debris[1].mesh.geometry, "debrie1.obj");
    assert_eq!(r.debris[1].shape.geometry, "debrie1-shape.obj");
    assert_eq!(r.slots[0].mesh, None);
    assert_eq!(r.slots[2].mesh.as_ref().unwrap().geometry, "slot2.obj");
    assert_eq!(r.body.bounds, m.body.bounds);
    assert_eq!(r.body.physics, m.body.physics);
    assert_eq!(r.wheels[1].pos, [7, 8, 9]);
    assert_eq!(r.slots[1].scale, 8);
    assert_eq!(files[0].geometry, ObjGeometry::Draw(m.body.geometry.clone()));
    assert_eq!(files[1].geometry, ObjGeometry::Collision(m.shape.geometry.clone()));
    assert_eq!(files[4].geometry, ObjGeometry::Collision(m.debris[0].shape.geometry.clone()));
}

#[test]
fn export_names_use_decimal_indices() {
    let (r, files) = model(12).export_obj();
    assert_eq!(r.debris[11].mesh.geometry, "debrie11.obj");
    assert_eq!(r.debris[10].shape.geometry, "debrie10-shape.obj");
    assert!(names(&files).contains(&"debrie11-shape.obj"));
}

#[test]
fn import_of_export_gives_the_model_back() {
    let m = model(3);
    let (r, files) = m.clone().export_obj();
    let load_draw = |name: String| -> Geometry<DrawTriangle> {
        match &files.iter().find(|f| f.name == name).unwrap().geometry {
            ObjGeometry::Draw(g) => g.clone(),
            ObjGeometry::Collision(_) => panic!("{} holds collision quads", name),
        }
    };
    let load_coll = |name: String| -> Geometry<CollisionQuad> {
        match &files.iter().find(|f| f.name == name).unwrap().geometry {
            ObjGeometry::Collision(g) => g.clone(),
            ObjGeometry::Draw(_) => panic!("{} holds triangles", name),
        }
    };
    let back = r.import_obj(&load_draw, &load_coll);
    assert_eq!(back, m);
}
