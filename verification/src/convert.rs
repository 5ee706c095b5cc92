//! The conversions of the resource converter, chosen by the extensions of the
//! input and output files.

use vstd::prelude::*;

verus! {

/// A conversion between two kinds of resource file.
#[derive(Clone, Copy, Debug, PartialEq, Eq)]
pub enum Conversion {
    /// An M3D model to a description with geometry files (`m3d` to `ron`).
    M3dToRon,
    /// A description with geometry files to an M3D model (`ron` to `md3`).
    RonToM3d,
    /// A level to images of its layers (`ini` to `ron`).
    LevelToPngs,
    /// A level to a TIFF of its layers (`ini` to `tiff`).
    LevelToTiff,
    /// A level to a VMP map (`ini` to `vmp`).
    LevelToVmp,
    /// Images of layers to a VMP map (`ron` to `vmp`).
    PngsToVmp,
    /// A palette to an image (`pal` to `png`).
    PaletteToPng,
    /// An image to a palette (`png` to `pal`).
    PngToPalette,
}

/// The conversion from a file with extension `src` to one with extension
/// `dst`, where there is one.
pub open spec fn conversion_spec(src: Seq<char>, dst: Seq<char>) -> Option<Conversion> {
    if src == "m3d"@ && dst == "ron"@ {
        Some(Conversion::M3dToRon)
    } else if src == "ron"@ && dst == "md3"@ {
        Some(Conversion::RonToM3d)
    } else if src == "ini"@ && dst == "ron"@ {
        Some(Conversion::LevelToPngs)
    } else if src == "ini"@ && dst == "tiff"@ {
        Some(Conversion::LevelToTiff)
    } else if src == "ini"@ && dst == "vmp"@ {
        Some(Conversion::LevelToVmp)
    } else if src == "ron"@ && dst == "vmp"@ {
        Some(Conversion::PngsToVmp)
    } else if src == "pal"@ && dst == "png"@ {
        Some(Conversion::PaletteToPng)
    } else if src == "png"@ && dst == "pal"@ {
        Some(Conversion::PngToPalette)
    } else {
        None
    }
}

/// Whether two strings hold the same characters.
#[verifier::loop_isolation(false)]
fn same_text(a: &str, b: &str) -> (r: bool)
    ensures
        r == (a@ == b@),
{
    let x = a.as_bytes();
    let y = b.as_bytes();
    proof {
        vstd::utf8::encode_utf8_decode_utf8(a@);
        vstd::utf8::encode_utf8_decode_utf8(b@);
    }
    if x.len() != y.len() {
        return false;
    }
    let mut i: usize = 0;
    while i < x.len()
        invariant
            i <= x@.len(),
            x@.len() == y@.len(),
            forall|k: int| 0 <= k < i ==> x@[k] == y@[k],
        decreases x@.len() - i,
    {
        if x[i] != y[i] {
            return false;
        }
        i = i + 1;
    }
    assert(x@ =~= y@);
    true
}

/// The conversion from a file with extension `src` to one with extension
/// `dst`; nothing where the converter knows none.
pub fn conversion(src: &str, dst: &str) -> (r: Option<Conversion>)
    ensures
        r == conversion_spec(src@, dst@),
{
    if same_text(src, "m3d") && same_text(dst, "ron") {
        Some(Conversion::M3dToRon)
    } else if same_text(src, "ron") && same_text(dst, "md3") {
        Some(Conversion::RonToM3d)
    } else if same_text(src, "ini") && same_text(dst, "ron") {
        Some(Conversion::LevelToPngs)
    } else if same_text(src, "ini") && same_text(dst, "tiff") {
        Some(Conversion::LevelToTiff)
    } else if same_text(src, "ini") && same_text(dst, "vmp") {
        Some(Conversion::LevelToVmp)
    } else if same_text(src, "ron") && same_text(dst, "vmp") {
        Some(Conversion::PngsToVmp)
    } else if same_text(src, "pal") && same_text(dst, "png") {
        Some(Conversion::PaletteToPng)
    } else if same_text(src, "png") && same_text(dst, "pal") {
        Some(Conversion::PngToPalette)
    } else {
        None
    }
}

} // verus!
