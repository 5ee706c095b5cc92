use m3d::convert::{conversion, Conversion};

#[test]
fn conversions_by_extension() {
    assert_eq!(conversion("m3d", "ron"), Some(Conversion::M3dToRon));
    assert_eq!(conversion("ron", "md3"), Some(Conversion::RonToM3d));
    assert_eq!(conversion("ini", "ron"), Some(Conversion::LevelToPngs));
    assert_eq!(conversion("ini", "tiff"), Some(Conversion::LevelToTiff));
    assert_eq!(conversion("ini", "vmp"), Some(Conversion::LevelToVmp));
    assert_eq!(conversion("ron", "vmp"), Some(Conversion::PngsToVmp));
    assert_eq!(conversion("pal", "png"), Some(Conversion::PaletteToPng));
    assert_eq!(conversion("png", "pal"), Some(Conversion::PngToPalette));
}

#[test]
fn unknown_conversions() {
    assert_eq!(conversion("ron", "m3d"), None);
    assert_eq!(conversion("m3d", "m3d"), None);
    assert_eq!(conversion("", ""), None);
    assert_eq!(conversion("M3D", "ron"), None);
    assert_eq!(conversion("m3dx", "ron"), None);
}
