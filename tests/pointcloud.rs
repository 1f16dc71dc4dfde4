use edgefirst_samples::decoder::{decode_pcd, PointCloudDescriptor};
use edgefirst_samples::field::{
    decode_field, Datatype, DecodeError, Scalar, FLOAT32, FLOAT64, INT16, INT32, INT8, UINT16,
    UINT32, UINT8,
};
use edgefirst_samples::point::{parse_point, slot, DecodedPoint, FieldDescriptor, Slot};
use edgefirst_samples::rounding::round_scalar;

fn field(name: &str, offset: u32, datatype: u8) -> FieldDescriptor {
    FieldDescriptor { name: name.to_string(), offset, datatype }
}

fn xyz_fields() -> Vec<FieldDescriptor> {
    vec![field("x", 0, FLOAT32), field("y", 4, FLOAT32), field("z", 8, FLOAT32)]
}

fn as_f64(s: Scalar) -> f64 {
    match s {
        Scalar::Int(i) => i as f64,
        Scalar::Float32(b) => f32::from_bits(b) as f64,
        Scalar::Float64(b) => f64::from_bits(b),
    }
}

fn attribute(p: &DecodedPoint, name: &str) -> Option<Scalar> {
    p.attributes.iter().find(|a| a.name == name).map(|a| a.value)
}

fn cloud(width: u32, height: u32, point_step: u32, row_step: u32, big: bool, fields: Vec<FieldDescriptor>, data: Vec<u8>) -> PointCloudDescriptor {
    PointCloudDescriptor { width, height, point_step, row_step, is_bigendian: big, fields, data }
}

#[test]
fn two_points_of_three_floats() {
    let mut data = Vec::new();
    for v in [1.0f32, 2.0, 3.0, 4.0, 5.0, 6.0] {
        data.extend_from_slice(&v.to_le_bytes());
    }
    let c = cloud(2, 1, 12, 12, false, xyz_fields(), data);
    let points = decode_pcd(&c).unwrap();
    assert_eq!(points.len(), 2);
    assert_eq!((as_f64(points[0].x), as_f64(points[0].y), as_f64(points[0].z)), (1.0, 2.0, 3.0));
    assert_eq!((as_f64(points[1].x), as_f64(points[1].y), as_f64(points[1].z)), (4.0, 5.0, 6.0));
    assert_eq!(points[0].id, 0);
    assert!(points[0].attributes.is_empty());
}

#[test]
fn cluster_ids_and_filter() {
    let mut fields = xyz_fields();
    fields.push(field("cluster_id", 12, INT16));
    let mut data = Vec::new();
    for (xyz, id) in [([1.0f32, 2.0, 3.0], 0i16), ([4.0, 5.0, 6.0], 3)] {
        for v in xyz {
            data.extend_from_slice(&v.to_le_bytes());
        }
        data.extend_from_slice(&id.to_le_bytes());
    }
    let c = cloud(2, 1, 14, 28, false, fields, data);
    let points = decode_pcd(&c).unwrap();
    let ids: Vec<i64> = points.iter().map(|p| p.id).collect();
    assert_eq!(ids, vec![0, 3]);
    let clustered: Vec<&DecodedPoint> = points.iter().filter(|p| p.id > 0).collect();
    assert_eq!(clustered.len(), 1);
    assert_eq!(as_f64(clustered[0].x), 4.0);
}

#[test]
fn buffer_too_short() {
    let fields = vec![field("x", 0, FLOAT32)];
    let c = cloud(1, 2, 8, 8, false, fields, vec![0u8; 8]);
    assert_eq!(decode_pcd(&c).unwrap_err(), DecodeError::BufferTooShort);
}

#[test]
fn buffer_shorter_than_rows_times_row_step() {
    // The records fit, but the trailing row padding is missing.
    let fields = vec![field("x", 0, UINT8)];
    let c = cloud(1, 2, 1, 4, false, fields, vec![0u8; 5]);
    assert_eq!(decode_pcd(&c).unwrap_err(), DecodeError::BufferTooShort);
}

#[test]
fn malformed_schema_is_reported_first() {
    let fields = vec![field("x", 10, FLOAT32)];
    let c = cloud(1, 1, 12, 12, false, fields, Vec::new());
    assert_eq!(decode_pcd(&c).unwrap_err(), DecodeError::MalformedSchema);
}

#[test]
fn unknown_datatype_outside_record_is_no_schema_error() {
    let fields = vec![field("x", 0, FLOAT32), field("w", 100, 42)];
    let c = cloud(1, 1, 4, 4, false, fields, 2.5f32.to_le_bytes().to_vec());
    let points = decode_pcd(&c).unwrap();
    assert_eq!(as_f64(points[0].x), 2.5);
    assert!(attribute(&points[0], "w").is_none());
}

#[test]
fn empty_grid_gives_no_points() {
    let c = cloud(0, 3, 12, 0, false, xyz_fields(), Vec::new());
    assert_eq!(decode_pcd(&c).unwrap().len(), 0);
}

#[test]
fn decoding_twice_gives_the_same_points() {
    let mut data = Vec::new();
    for v in [f32::NAN, -0.0, 7.25] {
        data.extend_from_slice(&v.to_be_bytes());
    }
    let mut fields = xyz_fields();
    fields.push(field("intensity", 4, FLOAT32));
    let c = cloud(1, 1, 12, 12, true, fields, data);
    let a = decode_pcd(&c).unwrap();
    let b = decode_pcd(&c).unwrap();
    assert_eq!(a.len(), b.len());
    assert_eq!((a[0].x, a[0].y, a[0].z, a[0].id), (b[0].x, b[0].y, b[0].z, b[0].id));
    assert_eq!(attribute(&a[0], "intensity"), attribute(&b[0], "intensity"));
    assert_eq!(a[0].y, Scalar::Float32((-0.0f32).to_bits()));
}

#[test]
fn count_is_width_times_height() {
    let fields = vec![field("x", 0, UINT8)];
    let c = cloud(3, 4, 1, 5, false, fields, (0u8..20).collect());
    assert_eq!(decode_pcd(&c).unwrap().len(), 12);
}

#[test]
fn row_major_order_with_row_padding() {
    let fields = vec![field("x", 0, UINT8)];
    // Rows of 3 one-byte points, padded to 5 bytes.
    let c = cloud(3, 4, 1, 5, false, fields, (0u8..20).collect());
    let points = decode_pcd(&c).unwrap();
    for row in 0..4usize {
        for col in 0..3usize {
            assert_eq!(points[row * 3 + col].x, Scalar::Int((row * 5 + col) as i64));
        }
    }
}

#[test]
fn endianness_symmetry() {
    let be = cloud(1, 1, 14, 14, true, vec![field("x", 0, FLOAT64), field("i", 8, INT32), field("u", 12, UINT16)], {
        let mut d = (-1234.5678f64).to_be_bytes().to_vec();
        d.extend_from_slice(&(-70000i32).to_be_bytes());
        d.extend_from_slice(&65000u16.to_be_bytes());
        d
    });
    let le = cloud(1, 1, 14, 14, false, be.fields.clone(), {
        let mut d = (-1234.5678f64).to_le_bytes().to_vec();
        d.extend_from_slice(&(-70000i32).to_le_bytes());
        d.extend_from_slice(&65000u16.to_le_bytes());
        d
    });
    let a = decode_pcd(&be).unwrap();
    let b = decode_pcd(&le).unwrap();
    assert_eq!(a[0].x, b[0].x);
    assert_eq!(as_f64(a[0].x), -1234.5678);
    assert_eq!(attribute(&a[0], "i"), Some(Scalar::Int(-70000)));
    assert_eq!(attribute(&b[0], "i"), Some(Scalar::Int(-70000)));
    assert_eq!(attribute(&a[0], "u"), Some(Scalar::Int(65000)));
    assert_eq!(attribute(&b[0], "u"), Some(Scalar::Int(65000)));
}

fn id_of_f32(v: f32) -> i64 {
    let fields = vec![field("cluster_id", 0, FLOAT32)];
    let c = cloud(1, 1, 4, 4, false, fields, v.to_le_bytes().to_vec());
    decode_pcd(&c).unwrap()[0].id
}

fn id_of_f64(v: f64) -> i64 {
    let fields = vec![field("cluster_id", 0, FLOAT64)];
    let c = cloud(1, 1, 8, 8, false, fields, v.to_le_bytes().to_vec());
    decode_pcd(&c).unwrap()[0].id
}

#[test]
fn cluster_id_rounds_half_away_from_zero() {
    assert_eq!(id_of_f32(2.4), 2);
    assert_eq!(id_of_f32(2.5), 3);
    assert_eq!(id_of_f32(2.6), 3);
    assert_eq!(id_of_f32(-2.4), -2);
    assert_eq!(id_of_f32(-2.5), -3);
    assert_eq!(id_of_f32(0.5), 1);
    assert_eq!(id_of_f32(0.4999), 0);
    assert_eq!(id_of_f32(-0.5), -1);
    assert_eq!(id_of_f64(7.5), 8);
    assert_eq!(id_of_f64(-7.5), -8);
    assert_eq!(id_of_f64(1e-300), 0);
    assert_eq!(id_of_f64(123456789.49), 123456789);
}

#[test]
fn cluster_id_saturates_and_nan_is_zero() {
    assert_eq!(id_of_f32(f32::NAN), 0);
    assert_eq!(id_of_f32(f32::INFINITY), i64::MAX);
    assert_eq!(id_of_f32(f32::NEG_INFINITY), i64::MIN);
    assert_eq!(id_of_f64(1e30), i64::MAX);
    assert_eq!(id_of_f64(-1e30), i64::MIN);
    assert_eq!(id_of_f64(-9223372036854775808.0), i64::MIN);
    assert_eq!(id_of_f64(4503599627370496.0), 4503599627370496);
}

#[test]
fn rounding_matches_std_on_many_values() {
    let mut v: f64 = -1.0e6;
    while v < 1.0e6 {
        for w in [v, v + 0.5, v + 0.25] {
            assert_eq!(round_scalar(Scalar::Float64(w.to_bits()), i64::MIN, i64::MAX), w.round() as i64);
            let f = w as f32;
            assert_eq!(round_scalar(Scalar::Float32(f.to_bits()), i64::MIN, i64::MAX), f.round() as i64);
            assert_eq!(round_scalar(Scalar::Float64(w.to_bits()), 0, 255) as u8, w.round() as u8);
        }
        v += 997.125;
    }
}

#[test]
fn classes_round_and_saturate() {
    let fields = vec![field("vision_class", 0, FLOAT32), field("fusion_class", 4, INT16)];
    let mut data = 3.5f32.to_le_bytes().to_vec();
    data.extend_from_slice(&(-4i16).to_le_bytes());
    let c = cloud(1, 1, 6, 6, false, fields.clone(), data);
    let p = &decode_pcd(&c).unwrap()[0];
    assert_eq!((p.vision_class, p.fusion_class), (4, 0));
    let mut data = 300.0f32.to_le_bytes().to_vec();
    data.extend_from_slice(&(7i16).to_le_bytes());
    let c = cloud(1, 1, 6, 6, false, fields, data);
    let p = &decode_pcd(&c).unwrap()[0];
    assert_eq!((p.vision_class, p.fusion_class), (255, 7));
}

#[test]
fn intensity_passes_through_to_attributes() {
    let mut fields = xyz_fields();
    fields.push(field("intensity", 12, FLOAT32));
    let mut data = Vec::new();
    for v in [1.0f32, 2.0, 3.0, 7.5] {
        data.extend_from_slice(&v.to_le_bytes());
    }
    let c = cloud(1, 1, 16, 16, false, fields, data);
    let p = &decode_pcd(&c).unwrap()[0];
    assert_eq!(attribute(p, "intensity").map(as_f64), Some(7.5));
    assert_eq!((as_f64(p.x), as_f64(p.y), as_f64(p.z), p.id), (1.0, 2.0, 3.0, 0));
}

#[test]
fn repeated_attribute_keeps_last_value() {
    let fields = vec![field("speed", 0, UINT8), field("speed", 1, UINT8), field("x", 1, INT8)];
    let c = cloud(1, 1, 2, 2, false, fields, vec![5, 0xfe]);
    let p = &decode_pcd(&c).unwrap()[0];
    assert_eq!(p.attributes.len(), 1);
    assert_eq!(attribute(p, "speed"), Some(Scalar::Int(254)));
    assert_eq!(p.x, Scalar::Int(-2));
}

#[test]
fn unknown_datatype_is_skipped() {
    let fields = vec![field("x", 0, UINT8), field("odd", 1, 0), field("y", 1, UINT8), field("z", 2, 9)];
    let c = cloud(1, 1, 3, 3, false, fields, vec![1, 2, 3]);
    let p = &decode_pcd(&c).unwrap()[0];
    assert_eq!((p.x, p.y), (Scalar::Int(1), Scalar::Int(2)));
    assert_eq!(as_f64(p.z), 0.0);
    assert!(p.attributes.is_empty());
}

#[test]
fn every_datatype_decodes() {
    let cases: Vec<(u8, Vec<u8>, Scalar)> = vec![
        (INT8, vec![0x80], Scalar::Int(-128)),
        (UINT8, vec![0x80], Scalar::Int(128)),
        (INT16, vec![0x00, 0x80], Scalar::Int(-32768)),
        (UINT16, vec![0x34, 0x12], Scalar::Int(0x1234)),
        (INT32, vec![0xff, 0xff, 0xff, 0xff], Scalar::Int(-1)),
        (UINT32, vec![0xff, 0xff, 0xff, 0xff], Scalar::Int(4294967295)),
        (FLOAT32, 1.5f32.to_le_bytes().to_vec(), Scalar::Float32(1.5f32.to_bits())),
        (FLOAT64, 0.1f64.to_le_bytes().to_vec(), Scalar::Float64(0.1f64.to_bits())),
    ];
    for (code, bytes, expected) in cases {
        let dt = Datatype::from_code(code).unwrap();
        assert_eq!(dt.width(), bytes.len());
        assert_eq!(decode_field(&bytes, false, dt), Ok(expected));
    }
    assert_eq!(Datatype::from_code(0), None);
    assert_eq!(Datatype::from_code(9), None);
}

#[test]
fn big_endian_field_bytes() {
    assert_eq!(decode_field(&[0x12, 0x34], true, Datatype::Uint16), Ok(Scalar::Int(0x1234)));
    assert_eq!(decode_field(&[0x12, 0x34], false, Datatype::Uint16), Ok(Scalar::Int(0x3412)));
    assert_eq!(decode_field(&[0xff, 0xfe], true, Datatype::Int16), Ok(Scalar::Int(-2)));
}

#[test]
fn field_slice_of_wrong_width_is_malformed() {
    assert_eq!(decode_field(&[1, 2, 3], false, Datatype::Float32), Err(DecodeError::MalformedRecord));
    assert_eq!(decode_field(&[], true, Datatype::Int8), Err(DecodeError::MalformedRecord));
}

#[test]
fn slots_by_name() {
    assert_eq!(slot("x"), Slot::X);
    assert_eq!(slot("y"), Slot::Y);
    assert_eq!(slot("z"), Slot::Z);
    assert_eq!(slot("cluster_id"), Slot::ClusterId);
    assert_eq!(slot("vision_class"), Slot::VisionClass);
    assert_eq!(slot("fusion_class"), Slot::FusionClass);
    assert_eq!(slot("X"), Slot::Attribute);
    assert_eq!(slot("cluster"), Slot::Attribute);
    assert_eq!(slot(""), Slot::Attribute);
}

#[test]
fn parse_point_reads_one_record() {
    let fields = vec![field("x", 2, INT16), field("speed", 0, UINT16)];
    let p = parse_point(&fields, &[0x01, 0x02, 0xff, 0x7f], false);
    assert_eq!(p.x, Scalar::Int(32767));
    assert_eq!(attribute(&p, "speed"), Some(Scalar::Int(0x0201)));
    let q = parse_point(&fields, &[0x01, 0x02, 0xff, 0x7f], true);
    assert_eq!(q.x, Scalar::Int(-129));
}
