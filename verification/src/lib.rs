//! Reading and writing of M3D model files: the binary format in which the
//! game stores a vehicle's meshes, wheels, debris and weapon slots, with its
//! 32-bit floats stored as 64-bit ones; the exchange of models with separate
//! geometry files; palettes and their PNG images; the choice of conversion
//! of the resource converter; and the input decisions of the game loop.

pub mod le;
pub mod many;
pub mod geometry;
pub mod mesh;
pub mod model;
pub mod exchange;
pub mod convert;
pub mod control;
pub mod palette;
pub mod float;
pub mod layout;

pub use self::geometry::{CollisionQuad, DrawTriangle, Geometry, Polygon, Vertex};
pub use self::mesh::{Bounds, Mesh, Physics, MAGIC_VERSION};
pub use self::model::{
    CollisionMesh, Debrie, DrawMesh, FullModel, Model, Slot, Wheel, MAX_SLOTS, UNIT_SCALE,
};
pub use self::exchange::{ObjFile, ObjGeometry, RefModel};
pub use self::le::Cursor;
pub use self::palette::{palette_to_png, png_to_palette, PngColor};
