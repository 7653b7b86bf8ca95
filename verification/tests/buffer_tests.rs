use noisefield::errors::NoiseError;
use noisefield::map2d::NoiseMap2D;
use noisefield::map3d::NoiseMap3D;
use noisefield::weights::validate_weights;

#[test]
fn from_values_zero_filled_2d() {
    let m = NoiseMap2D::from_values(3, 2);
    assert_eq!(m.width, 3);
    assert_eq!(m.height, 2);
    assert_eq!(m.buffer.len(), 6);
    for y in 0..2u32 {
        for x in 0..3u32 {
            assert_eq!(m.get_value_at(x, y), Ok(0u32));
        }
    }
}

#[test]
fn set_get_round_trip_2d() {
    let mut m = NoiseMap2D::from_values(4, 4);
    let bits = 0.5f32.to_bits();
    assert_eq!(m.set_value_at(2, 1, bits), Ok(()));
    assert_eq!(m.get_value_at(2, 1), Ok(bits));
    assert_eq!(f32::from_bits(m.get_value_at(2, 1).unwrap()), 0.5f32);
}

#[test]
fn boundary_2d() {
    let mut m = NoiseMap2D::from_values(5, 3);
    assert_eq!(m.get_value_at(4, 2), Ok(0u32));
    assert_eq!(m.set_value_at(4, 2, 7), Ok(()));
    assert_eq!(m.get_value_at(5, 0), Err(NoiseError::IndexOutOfRange));
    assert_eq!(m.get_value_at(0, 3), Err(NoiseError::IndexOutOfRange));
    assert_eq!(m.set_value_at(5, 0, 7), Err(NoiseError::IndexOutOfRange));
    assert_eq!(m.set_value_at(0, 3, 7), Err(NoiseError::IndexOutOfRange));
}

#[test]
fn initialize_resets_2d() {
    let mut m = NoiseMap2D::from_values(2, 2);
    m.set_value_at(1, 1, 99).unwrap();
    m.initialize();
    assert_eq!(m.buffer.len(), 4);
    assert_eq!(m.get_value_at(1, 1), Ok(0u32));
}

#[test]
fn row_major_layout_2d() {
    let mut m = NoiseMap2D::from_values(4, 3);
    m.set_value_at(1, 2, 42).unwrap();
    assert_eq!(m.buffer[2 * 4 + 1], 42);
}

#[test]
fn from_values_zero_filled_3d() {
    let m = NoiseMap3D::from_values(2, 3, 4);
    assert_eq!(m.width, 2);
    assert_eq!(m.height, 3);
    assert_eq!(m.depth, 4);
    assert_eq!(m.buffer.len(), 24);
    assert_eq!(m.get_value_at(1, 2, 3), Ok(0u32));
}

#[test]
fn boundary_3d() {
    let mut m = NoiseMap3D::from_values(2, 3, 4);
    assert_eq!(m.set_value_at(1, 2, 3, 5), Ok(()));
    assert_eq!(m.get_value_at(1, 2, 3), Ok(5u32));
    assert_eq!(m.get_value_at(2, 0, 0), Err(NoiseError::IndexOutOfRange));
    assert_eq!(m.get_value_at(0, 3, 0), Err(NoiseError::IndexOutOfRange));
    assert_eq!(m.get_value_at(0, 0, 4), Err(NoiseError::IndexOutOfRange));
    assert_eq!(m.set_value_at(2, 0, 0, 5), Err(NoiseError::IndexOutOfRange));
}

#[test]
fn row_major_layout_3d() {
    let mut m = NoiseMap3D::from_values(4, 3, 5);
    m.set_value_at(1, 2, 3, 42).unwrap();
    // index = z * height * width + y * width + x
    assert_eq!(m.buffer[3 * 3 * 4 + 2 * 4 + 1], 42);
}

#[test]
fn initialize_resets_3d() {
    let mut m = NoiseMap3D::from_values(2, 2, 2);
    m.set_value_at(0, 1, 1, 13).unwrap();
    m.initialize();
    assert_eq!(m.get_value_at(0, 1, 1), Ok(0u32));
}

#[test]
fn populate_3d_copies_in_canonical_order() {
    let mut m = NoiseMap3D::from_values(3, 2, 2);
    let samples: Vec<u32> = (0..12u32).collect();
    assert_eq!(m.populate(&samples), Ok(()));
    for z in 0..2u32 {
        for y in 0..2u32 {
            for x in 0..3u32 {
                let idx = (z as usize) * 2 * 3 + (y as usize) * 3 + (x as usize);
                assert_eq!(m.get_value_at(x, y, z), Ok(samples[idx]));
            }
        }
    }
}

#[test]
fn populate_3d_rejects_wrong_length() {
    let mut m = NoiseMap3D::from_values(3, 2, 2);
    let samples: Vec<u32> = vec![0; 11];
    assert_eq!(m.populate(&samples), Err(NoiseError::IndexOutOfRange));
    assert_eq!(m.get_value_at(0, 0, 0), Ok(0u32));
}

#[test]
fn slice_z_matches_volume() {
    let mut v = NoiseMap3D::from_values(3, 3, 3);
    let mut next: u32 = 0;
    for z in 0..3u32 {
        for y in 0..3u32 {
            for x in 0..3u32 {
                v.set_value_at(x, y, z, next).unwrap();
                next += 1;
            }
        }
    }
    let s = v.get_slice_z(1).unwrap();
    assert_eq!(s.width, 3);
    assert_eq!(s.height, 3);
    for y in 0..3u32 {
        for x in 0..3u32 {
            assert_eq!(s.get_value_at(x, y), v.get_value_at(x, y, 1));
        }
    }
}

#[test]
fn slice_x_orientation() {
    let mut v = NoiseMap3D::from_values(2, 3, 4);
    let mut next: u32 = 0;
    for z in 0..4u32 {
        for y in 0..3u32 {
            for x in 0..2u32 {
                v.set_value_at(x, y, z, next).unwrap();
                next += 1;
            }
        }
    }
    let s = v.get_slice_x(1).unwrap();
    assert_eq!(s.width, 3);
    assert_eq!(s.height, 4);
    for z in 0..4u32 {
        for y in 0..3u32 {
            assert_eq!(s.get_value_at(y, z), v.get_value_at(1, y, z));
        }
    }
}

#[test]
fn slice_y_orientation() {
    let mut v = NoiseMap3D::from_values(2, 3, 4);
    let mut next: u32 = 1000;
    for z in 0..4u32 {
        for y in 0..3u32 {
            for x in 0..2u32 {
                v.set_value_at(x, y, z, next).unwrap();
                next += 1;
            }
        }
    }
    let s = v.get_slice_y(2).unwrap();
    assert_eq!(s.width, 2);
    assert_eq!(s.height, 4);
    for z in 0..4u32 {
        for x in 0..2u32 {
            assert_eq!(s.get_value_at(x, z), v.get_value_at(x, 2, z));
        }
    }
}

#[test]
fn slice_boundary() {
    let v = NoiseMap3D::from_values(2, 3, 4);
    assert!(v.get_slice_z(3).is_ok());
    assert_eq!(
        v.get_slice_z(4).err(),
        Some(NoiseError::IndexOutOfRange)
    );
    assert!(v.get_slice_x(1).is_ok());
    assert_eq!(
        v.get_slice_x(2).err(),
        Some(NoiseError::IndexOutOfRange)
    );
    assert!(v.get_slice_y(2).is_ok());
    assert_eq!(
        v.get_slice_y(3).err(),
        Some(NoiseError::IndexOutOfRange)
    );
}

#[test]
fn weights_all_zero_rejected() {
    let z = 0.0f32.to_bits();
    let nz = (-0.0f32).to_bits();
    assert_eq!(validate_weights(z, z, z), Err(NoiseError::InvalidWeights));
    assert_eq!(validate_weights(z, nz, z), Err(NoiseError::InvalidWeights));
}

#[test]
fn weights_one_positive_accepted() {
    let z = 0.0f32.to_bits();
    let one = 1.0f32.to_bits();
    assert_eq!(validate_weights(one, z, z), Ok(()));
    assert_eq!(validate_weights(one, one, one), Ok(()));
    assert_eq!(validate_weights(z, 0.25f32.to_bits(), z), Ok(()));
}
