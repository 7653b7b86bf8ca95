use libnoise::Generator;
use libnoise::Perlin;
use libnoise::Simplex;
use libnoise::Worley;

use noisefield::errors::NoiseError;
use noisefield::map2d::NoiseMap2D;
use noisefield::map3d::NoiseMap3D;

#[test]
fn save_2d_exact_bytes() {
    let mut m = NoiseMap2D::from_values(2, 1);
    m.set_value_at(0, 0, 1.5f32.to_bits()).unwrap();
    m.set_value_at(1, 0, (-2.0f32).to_bits()).unwrap();
    let bytes = m.save("field.noise2d").unwrap();

    let mut expected: Vec<u8> = Vec::new();
    expected.extend_from_slice(&2u64.to_le_bytes());
    expected.extend_from_slice(&1u64.to_le_bytes());
    expected.extend_from_slice(&1.5f32.to_le_bytes());
    expected.extend_from_slice(&(-2.0f32).to_le_bytes());
    assert_eq!(bytes, expected);
}

#[test]
fn save_3d_exact_bytes() {
    let mut m = NoiseMap3D::from_values(1, 1, 2);
    m.set_value_at(0, 0, 0, 0.25f32.to_bits()).unwrap();
    m.set_value_at(0, 0, 1, 8.0f32.to_bits()).unwrap();
    let bytes = m.save("field.noise3d").unwrap();

    let mut expected: Vec<u8> = Vec::new();
    expected.extend_from_slice(&1u64.to_le_bytes());
    expected.extend_from_slice(&1u64.to_le_bytes());
    expected.extend_from_slice(&2u64.to_le_bytes());
    expected.extend_from_slice(&0.25f32.to_le_bytes());
    expected.extend_from_slice(&8.0f32.to_le_bytes());
    assert_eq!(bytes, expected);
}

#[test]
fn round_trip_2d_bit_exact() {
    let mut m = NoiseMap2D::from_values(3, 2);
    let specials = [
        0.0f32,
        -0.0f32,
        f32::NAN,
        f32::INFINITY,
        f32::MIN_POSITIVE,
        -123.456f32,
    ];
    for (i, v) in specials.iter().enumerate() {
        let x = (i % 3) as u32;
        let y = (i / 3) as u32;
        m.set_value_at(x, y, v.to_bits()).unwrap();
    }
    let bytes = m.save("round.noise2d").unwrap();
    let back = NoiseMap2D::load("round.noise2d", &bytes).unwrap();
    assert_eq!(back.width, m.width);
    assert_eq!(back.height, m.height);
    assert_eq!(back.buffer, m.buffer);
}

#[test]
fn round_trip_3d_bit_exact() {
    let mut m = NoiseMap3D::from_values(2, 2, 2);
    for i in 0..8u32 {
        let x = i % 2;
        let y = (i / 2) % 2;
        let z = i / 4;
        let v = (i as f32) * 0.125 - 0.33;
        m.set_value_at(x, y, z, v.to_bits()).unwrap();
    }
    let bytes = m.save("round.noise3d").unwrap();
    let back = NoiseMap3D::load("round.noise3d", &bytes).unwrap();
    assert_eq!(back.width, m.width);
    assert_eq!(back.height, m.height);
    assert_eq!(back.depth, m.depth);
    assert_eq!(back.buffer, m.buffer);
}

#[test]
fn round_trip_empty_2d() {
    let m = NoiseMap2D::from_values(0, 0);
    let bytes = m.save("empty.noise2d").unwrap();
    assert_eq!(bytes.len(), 16);
    let back = NoiseMap2D::load("empty.noise2d", &bytes).unwrap();
    assert_eq!(back.width, 0);
    assert_eq!(back.height, 0);
    assert_eq!(back.buffer.len(), 0);
}

#[test]
fn save_wrong_extension_rejected() {
    let m2 = NoiseMap2D::from_values(2, 2);
    assert_eq!(m2.save("t.txt").err(), Some(NoiseError::InvalidExtension));
    assert_eq!(
        m2.save("t.noise3d").err(),
        Some(NoiseError::InvalidExtension)
    );
    let m3 = NoiseMap3D::from_values(2, 2, 2);
    assert_eq!(m3.save("t.txt").err(), Some(NoiseError::InvalidExtension));
    assert_eq!(
        m3.save("t.noise2d").err(),
        Some(NoiseError::InvalidExtension)
    );
}

#[test]
fn extension_needs_a_stem() {
    let m = NoiseMap2D::from_values(1, 1);
    assert_eq!(
        m.save(".noise2d").err(),
        Some(NoiseError::InvalidExtension)
    );
    assert!(m.save("a.noise2d").is_ok());
}

#[test]
fn load_wrong_extension_rejected() {
    let m = NoiseMap2D::from_values(2, 2);
    let bytes = m.save("ok.noise2d").unwrap();
    assert_eq!(
        NoiseMap2D::load("ok.txt", &bytes).err(),
        Some(NoiseError::InvalidExtension)
    );
    assert_eq!(
        NoiseMap3D::load("ok.noise2d", &bytes).err(),
        Some(NoiseError::InvalidExtension)
    );
}

#[test]
fn load_truncated_2d_rejected() {
    let mut m = NoiseMap2D::from_values(3, 3);
    m.set_value_at(2, 2, 1.0f32.to_bits()).unwrap();
    let bytes = m.save("cut.noise2d").unwrap();
    // one byte short of 8 + 8 + width * height * 4
    let cut = &bytes[..bytes.len() - 1];
    assert_eq!(
        NoiseMap2D::load("cut.noise2d", cut).err(),
        Some(NoiseError::TruncatedFile)
    );
    // cut into the header itself
    assert_eq!(
        NoiseMap2D::load("cut.noise2d", &bytes[..10]).err(),
        Some(NoiseError::TruncatedFile)
    );
    assert_eq!(
        NoiseMap2D::load("cut.noise2d", &[]).err(),
        Some(NoiseError::TruncatedFile)
    );
}

#[test]
fn load_truncated_3d_rejected() {
    let m = NoiseMap3D::from_values(2, 2, 2);
    let bytes = m.save("cut.noise3d").unwrap();
    let cut = &bytes[..bytes.len() - 3];
    assert_eq!(
        NoiseMap3D::load("cut.noise3d", cut).err(),
        Some(NoiseError::TruncatedFile)
    );
    assert_eq!(
        NoiseMap3D::load("cut.noise3d", &bytes[..23]).err(),
        Some(NoiseError::TruncatedFile)
    );
}

#[test]
fn load_ignores_trailing_bytes() {
    let mut m = NoiseMap2D::from_values(2, 2);
    m.set_value_at(0, 1, 4.5f32.to_bits()).unwrap();
    let mut bytes = m.save("extra.noise2d").unwrap();
    bytes.push(0xAB);
    let back = NoiseMap2D::load("extra.noise2d", &bytes).unwrap();
    assert_eq!(back.buffer, m.buffer);
}

/// One octave of each source at the scales the combined generator
/// uses, blended as an equally weighted mean; the volumetric axis runs
/// at its own reduced frequency.
fn combined_sample(
    perlin: &Perlin<3>,
    simplex: &Simplex<3>,
    worley: &Worley<3>,
    x: u32,
    y: u32,
    z: u32,
) -> f32 {
    let scale = 0.075f32;
    let depth_scale = 0.142f32;
    let px = (x as f32 * scale) as f64;
    let py = (y as f32 * scale) as f64;
    let pz = (z as f32 * scale * depth_scale) as f64;
    let p = perlin.sample([px, py, pz]) as f32;
    let s = simplex.sample([px, py, pz]) as f32;
    let w = -(worley.sample([px, py, pz]) as f32);
    (p * 1.0 + s * 1.0 + w * 1.0) * (1.0 / 3.0)
}

#[test]
fn scenario_populate_save_load_slice() {
    let perlin = Perlin::<3>::new(3127812567548u64);
    let simplex = Simplex::<3>::new(3127812567548u64);
    let worley = Worley::<3>::new(3127812567548u64);

    let mut volume = NoiseMap3D::from_values(4, 4, 4);
    let mut samples: Vec<u32> = Vec::with_capacity(64);
    for z in 0..4u32 {
        for y in 0..4u32 {
            for x in 0..4u32 {
                let v = combined_sample(&perlin, &simplex, &worley, x, y, z);
                samples.push(v.to_bits());
            }
        }
    }
    volume.populate(&samples).unwrap();

    let bytes = volume.save("t.noise3d").unwrap();
    let reloaded = NoiseMap3D::load("t.noise3d", &bytes).unwrap();
    assert_eq!(reloaded.buffer, volume.buffer);

    let slice = reloaded.get_slice_z(2).unwrap();
    assert_eq!(slice.width, 4);
    assert_eq!(slice.height, 4);
    for y in 0..4u32 {
        for x in 0..4u32 {
            assert_eq!(slice.get_value_at(x, y), volume.get_value_at(x, y, 2));
        }
    }
}
