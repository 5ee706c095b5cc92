use m3d::float::{narrow_f64_bits, read_f32, widen_f32_bits, write_f32};
use m3d::mesh::Physics;
use m3d::Cursor;

fn sample_f64s() -> Vec<f64> {
    let mut v = vec![
        0.0,
        -0.0,
        1.0,
        -1.0,
        0.1,
        -0.1,
        1.0 / 3.0,
        2.5,
        1e-30,
        1e-38,
        1e-40,
        1e-45,
        7e-46,
        1.4e-45,
        1e-300,
        5e-324,
        f32::MAX as f64,
        f32::MAX as f64 * (1.0 + 1e-9),
        f32::MAX as f64 * 1.0000001,
        3.5e38,
        1e39,
        1e300,
        f64::MAX,
        f64::MIN_POSITIVE,
        f64::INFINITY,
        f64::NEG_INFINITY,
        f32::MIN_POSITIVE as f64,
        f32::MIN_POSITIVE as f64 * 0.5,
        16777217.0,
        16777219.0,
        0.5 + f64::EPSILON,
    ];
    let mut state: u64 = 0x9e37_79b9_7f4a_7c15;
    for _ in 0..20000 {
        state ^= state << 13;
        state ^= state >> 7;
        state ^= state << 17;
        let x = f64::from_bits(state);
        if !x.is_nan() {
            v.push(x);
        }
        let near = f64::from_bits((state & 0x800f_ffff_ffff_ffff) | (((state >> 52) % 320 + 800) << 52));
        v.push(near);
    }
    v
}

#[test]
fn narrowing_matches_conversion_to_f32() {
    for x in sample_f64s() {
        assert_eq!(narrow_f64_bits(x.to_bits()), (x as f32).to_bits(), "{:e}", x);
    }
}

#[test]
fn narrowing_rounds_ties_to_even() {
    // 1 + 2^-24 lies halfway between 1 and the next float: it rounds down.
    assert_eq!(narrow_f64_bits((1.0f64 + 2f64.powi(-24)).to_bits()), 0x3f80_0000);
    // 1 + 3 * 2^-24 lies halfway above an odd float: it rounds up.
    assert_eq!(narrow_f64_bits((1.0f64 + 3.0 * 2f64.powi(-24)).to_bits()), 0x3f80_0002);
    assert_eq!(narrow_f64_bits(0.1f64.to_bits()), 0x3dcc_cccd);
}

#[test]
fn narrowing_overflows_to_infinity_and_underflows_to_zero() {
    assert_eq!(narrow_f64_bits(1e39f64.to_bits()), 0x7f80_0000);
    assert_eq!(narrow_f64_bits((-1e39f64).to_bits()), 0xff80_0000);
    assert_eq!(narrow_f64_bits(1e-50f64.to_bits()), 0);
    assert_eq!(narrow_f64_bits((-1e-50f64).to_bits()), 0x8000_0000);
    assert_eq!(narrow_f64_bits(1e-40f64.to_bits()), (1e-40f64 as f32).to_bits());
}

#[test]
fn narrowing_keeps_nan_quiet() {
    let quiet = narrow_f64_bits(0x7ff8_0000_0000_0001);
    assert_eq!(quiet, 0x7fc0_0000);
    let signalling = narrow_f64_bits(0xfff0_0000_0000_0001);
    assert_eq!(signalling, 0xffc0_0000);
    assert!(f32::from_bits(narrow_f64_bits(0x7ff4_0000_2000_0000)).is_nan());
}

#[test]
fn widening_matches_conversion_to_f64() {
    let mut bits: Vec<u32> = vec![0, 1, 2, 3, 0x7f_ffff, 0x80_0000, 0x3f80_0000, 0x7f7f_ffff, 0x7f80_0000];
    let mut state: u32 = 0x1234_5678;
    for _ in 0..50000 {
        state ^= state << 13;
        state ^= state >> 17;
        state ^= state << 5;
        bits.push(state);
        bits.push(state & 0x807f_ffff);
    }
    for b in bits {
        let x = f32::from_bits(b);
        if !x.is_nan() {
            assert_eq!(widen_f32_bits(b), (x as f64).to_bits(), "{:#x}", b);
        } else {
            assert!(f64::from_bits(widen_f32_bits(b)).is_nan());
        }
        if !(x.is_nan() && b & 0x40_0000 == 0) {
            assert_eq!(narrow_f64_bits(widen_f32_bits(b)), b, "{:#x}", b);
        }
    }
}

#[test]
fn widening_a_subnormal_normalises_it() {
    assert_eq!(widen_f32_bits(1), 0x36a0_0000_0000_0000);
    assert_eq!(widen_f32_bits(0x8000_0001), 0xb6a0_0000_0000_0000);
    assert_eq!(widen_f32_bits(0x40_0000), (f32::from_bits(0x40_0000) as f64).to_bits());
}

#[test]
fn widening_quietens_a_signalling_nan() {
    assert_eq!(widen_f32_bits(0x7f80_0001), 0x7ff8_0000_2000_0000);
    assert_eq!(widen_f32_bits(0x7fc0_0000), 0x7ff8_0000_0000_0000);
    assert_eq!(narrow_f64_bits(widen_f32_bits(0x7f80_0001)), 0x7fc0_0001);
}

#[test]
fn float_field_reads_nearest_f32() {
    let mut out = Vec::new();
    out.extend_from_slice(&0.1f64.to_le_bytes());
    let mut c = Cursor::new(&out);
    assert_eq!(read_f32(&mut c), Some(0.1f32.to_bits()));
    assert_eq!(c.remaining(), 0);
    assert_eq!(read_f32(&mut c), None);
}

#[test]
fn float_field_writes_f64() {
    let mut out = Vec::new();
    write_f32(&mut out, 0.1f32.to_bits());
    assert_eq!(out, (0.1f32 as f64).to_le_bytes().to_vec());
}

#[test]
fn physics_load_rounds_to_f32() {
    let mut out = Vec::new();
    for k in 0..13 {
        out.extend_from_slice(&(0.1f64 * k as f64).to_le_bytes());
    }
    let mut c = Cursor::new(&out);
    let p = Physics::load(&mut c).unwrap();
    assert_eq!(p.volume, 0.0f32.to_bits());
    assert_eq!(p.rcm, [(0.1f64 as f32).to_bits(), (0.2f64 as f32).to_bits(), ((0.1f64 * 3.0) as f32).to_bits()]);
    assert_eq!(p.jacobi[0][0], ((0.1f64 * 4.0) as f32).to_bits());
    assert_eq!(p.jacobi[0][1], ((0.1f64 * 7.0) as f32).to_bits());
    let mut again = Vec::new();
    p.write(&mut again);
    assert_eq!(&again[8..16], &((0.1f64 as f32) as f64).to_le_bytes());
    assert_ne!(again, out);
}
