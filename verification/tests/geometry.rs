use kor_engine::geometry::{Quaternion, Scalar, Transform, Vec3};

fn scalar(value: f32) -> Scalar {
    Scalar::from_bits(value.to_bits())
}

fn number(value: Scalar) -> f32 {
    f32::from_bits(value.to_bits())
}

fn sample_transform() -> Transform {
    Transform {
        rotation_scale: [
            [scalar(1.0), scalar(2.0), scalar(3.0)],
            [scalar(4.0), scalar(5.0), scalar(6.0)],
            [scalar(7.0), scalar(8.0), scalar(9.0)],
        ],
        translation: [scalar(10.0), scalar(11.0), scalar(12.0)],
    }
}

#[test]
fn vec3_from_array_keeps_the_order() {
    let v = Vec3::from([scalar(1.0), scalar(2.0), scalar(3.0)]);
    assert_eq!(number(v.x), 1.0);
    assert_eq!(number(v.y), 2.0);
    assert_eq!(number(v.z), 3.0);
}

#[test]
fn quaternion_from_array_keeps_the_order() {
    let q = Quaternion::from([scalar(1.0), scalar(2.0), scalar(3.0), scalar(4.0)]);
    assert_eq!(number(q.x), 1.0);
    assert_eq!(number(q.y), 2.0);
    assert_eq!(number(q.z), 3.0);
    assert_eq!(number(q.w), 4.0);
}

#[test]
fn vec3_to_bytes_is_little_endian() {
    let (x, y, z) = (1.5f32, -2.25f32, 1.0e-3f32);
    let v = Vec3 { x: scalar(x), y: scalar(y), z: scalar(z) };
    let mut expected = Vec::new();
    expected.extend_from_slice(&x.to_le_bytes());
    expected.extend_from_slice(&y.to_le_bytes());
    expected.extend_from_slice(&z.to_le_bytes());
    assert_eq!(v.to_bytes().to_vec(), expected);
    let one = Vec3 { x: scalar(1.0), y: scalar(0.0), z: scalar(-0.0) };
    assert_eq!(one.to_bytes(), [0, 0, 0x80, 0x3f, 0, 0, 0, 0, 0, 0, 0, 0x80]);
}

#[test]
fn new_transform_is_the_identity() {
    let t = Transform::new();
    for row in 0..3 {
        for column in 0..3 {
            let expected = if row == column { 1.0 } else { 0.0 };
            assert_eq!(t.rotation_scale[row][column].to_bits(), f32::to_bits(expected));
        }
        assert_eq!(t.translation[row].to_bits(), 0);
    }
    assert_eq!(Transform::default(), t);
}

#[test]
fn axes_are_the_rows_of_the_block() {
    let t = sample_transform();
    assert_eq!(t.left(), t.rotation_scale[0]);
    assert_eq!(t.up(), t.rotation_scale[1]);
    assert_eq!(t.forward(), t.rotation_scale[2]);
}

#[test]
fn to_homogeneous_puts_the_translation_in_the_last_row() {
    let m = sample_transform().to_homogeneous();
    let numbers: Vec<Vec<f32>> = m.iter().map(|row| row.iter().map(|s| number(*s)).collect()).collect();
    assert_eq!(
        numbers,
        vec![
            vec![1.0, 2.0, 3.0, 0.0],
            vec![4.0, 5.0, 6.0, 0.0],
            vec![7.0, 8.0, 9.0, 0.0],
            vec![10.0, 11.0, 12.0, 1.0],
        ]
    );
}

#[test]
fn from_homogeneous_ignores_the_last_column() {
    let mut m = sample_transform().to_homogeneous();
    for row in m.iter_mut() {
        row[3] = scalar(42.0);
    }
    assert_eq!(Transform::from_homogeneous(m), sample_transform());
}

#[test]
fn homogeneous_round_trip_gives_the_transform_back() {
    let t = sample_transform();
    assert_eq!(Transform::from_homogeneous(t.to_homogeneous()), t);
    let odd = Transform {
        rotation_scale: [
            [scalar(f32::NAN), scalar(-0.0), scalar(f32::INFINITY)],
            [scalar(1.0e-40), scalar(f32::MAX), scalar(-1.0)],
            [scalar(0.1), scalar(0.2), scalar(0.3)],
        ],
        translation: [scalar(-0.0), scalar(f32::NEG_INFINITY), scalar(7.0)],
    };
    assert_eq!(Transform::from_homogeneous(odd.to_homogeneous()), odd);
}
