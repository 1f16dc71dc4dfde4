//! The point-cloud decoder: a grid of fixed-stride records, each decoded
//! through the schema, in row-major order.
use crate::field::{datatype_of_code, DecodeError, Datatype};
use crate::point::{
    decode_record, fields_fit, keys_unique, parse_point, schema_of, DecodedPoint, FieldDescriptor,
    FieldSpec, PointView,
};
use vstd::arithmetic::div_mod::lemma_fundamental_div_mod_converse;
use vstd::arithmetic::mul::lemma_mul_inequality;
use vstd::prelude::*;

verus! {

/// A point cloud as received: grid dimensions, strides, byte order, schema
/// and the raw records.
#[derive(Clone, Debug)]
pub struct PointCloudDescriptor {
    /// Points per row.
    pub width: u32,
    /// Number of rows.
    pub height: u32,
    /// Bytes of one point record.
    pub point_step: u32,
    /// Bytes from the start of one row to the start of the next.
    pub row_step: u32,
    pub is_bigendian: bool,
    pub fields: Vec<FieldDescriptor>,
    pub data: Vec<u8>,
}

/// Mathematical model of a point cloud.
pub struct CloudView {
    pub width: u32,
    pub height: u32,
    pub point_step: u32,
    pub row_step: u32,
    pub is_bigendian: bool,
    pub fields: Seq<FieldSpec>,
    pub data: Seq<u8>,
}

impl View for PointCloudDescriptor {
    type V = CloudView;

    open spec fn view(&self) -> CloudView {
        CloudView {
            width: self.width,
            height: self.height,
            point_step: self.point_step,
            row_step: self.row_step,
            is_bigendian: self.is_bigendian,
            fields: schema_of(self.fields@),
            data: self.data@,
        }
    }
}

/// The models of a sequence of decoded points.
pub open spec fn points_view(v: Seq<DecodedPoint>) -> Seq<PointView> {
    v.map_values(|p: DecodedPoint| p@)
}

/// Every field of a known datatype lies inside one point record.
pub open spec fn schema_ok(c: CloudView) -> bool {
    fields_fit(c.fields, c.point_step as nat)
}

/// The buffer covers `height * row_step` bytes and every record of the grid.
pub open spec fn buffer_ok(c: CloudView) -> bool {
    &&& c.data.len() >= c.height * c.row_step
    &&& (c.width > 0 && c.height > 0) ==> c.data.len() >= (c.height - 1) * c.row_step + c.width
        * c.point_step
}

/// Byte offset of the record in row `row`, column `col`.
pub open spec fn record_start(c: CloudView, row: int, col: int) -> int {
    row * c.row_step + col * c.point_step
}

/// The bytes of the record in row `row`, column `col`.
pub open spec fn record_bytes(c: CloudView, row: int, col: int) -> Seq<u8> {
    c.data.subrange(record_start(c, row, col), record_start(c, row, col) + c.point_step)
}

/// The point at output index `k`, counted row-major.
pub open spec fn point_at(c: CloudView, k: int) -> PointView {
    decode_record(c.fields, c.is_bigendian, record_bytes(c, k / c.width as int, k % c.width as int))
}

/// What decoding a cloud gives: a malformed schema first, then a short
/// buffer, else one point per grid cell in row-major order.
pub open spec fn cloud_result(c: CloudView) -> Result<Seq<PointView>, DecodeError> {
    if !schema_ok(c) {
        Err(DecodeError::MalformedSchema)
    } else if !buffer_ok(c) {
        Err(DecodeError::BufferTooShort)
    } else {
        Ok(Seq::new((c.width * c.height) as nat, |k: int| point_at(c, k)))
    }
}

/// Checks that every field of a known datatype fits in a record.
fn check_schema(fields: &Vec<FieldDescriptor>, point_step: u32) -> (r: bool)
    ensures
        r == fields_fit(schema_of(fields@), point_step as nat),
{
    let mut i: usize = 0;
    while i < fields.len()
        invariant
            i <= fields@.len(),
            forall|j: int|
                0 <= j < i ==> match #[trigger] datatype_of_code(schema_of(fields@)[j].datatype) {
                    Some(dt) => schema_of(fields@)[j].offset + dt.spec_width() <= point_step,
                    None => true,
                },
        decreases fields@.len() - i,
    {
        let f = &fields[i];
        assert(schema_of(fields@)[i as int] == f@);
        if let Some(dt) = Datatype::from_code(f.datatype) {
            if f.offset as u64 + dt.width() as u64 > point_step as u64 {
                assert(datatype_of_code(schema_of(fields@)[i as int].datatype) == Some(dt));
                return false;
            }
        }
        i = i + 1;
    }
    true
}

/// Checks that the buffer covers the grid.
fn check_buffer(c: &PointCloudDescriptor) -> (r: bool)
    ensures
        r == buffer_ok(c@),
{
    let len = c.data.len() as u128;
    let h = c.height as u128;
    let w = c.width as u128;
    let rs = c.row_step as u128;
    let ps = c.point_step as u128;
    assert(h * rs <= 0xffff_ffff * 0xffff_ffff) by (nonlinear_arith)
        requires h <= 0xffff_ffff, rs <= 0xffff_ffff;
    assert(w * ps <= 0xffff_ffff * 0xffff_ffff) by (nonlinear_arith)
        requires w <= 0xffff_ffff, ps <= 0xffff_ffff;
    if len < h * rs {
        return false;
    }
    if w > 0 && h > 0 {
        assert((h - 1) * rs <= h * rs) by (nonlinear_arith)
            requires h >= 1;
        if len < (h - 1) * rs + w * ps {
            return false;
        }
    }
    true
}

/// Decodes a point cloud into `width * height` points, row 0 first and
/// column 0 first within a row. The point at index `row * width + col` comes
/// from the record at byte `row * row_step + col * point_step`.
///
/// Fails with `MalformedSchema` when a field of a known datatype reaches past
/// `point_step`, and otherwise with `BufferTooShort` when the buffer does not
/// cover the grid; nothing is decoded then. Fields of an unknown datatype are
/// skipped.
pub fn decode_pcd(cloud: &PointCloudDescriptor) -> (r: Result<Vec<DecodedPoint>, DecodeError>)
    ensures
        match r {
            Ok(v) => cloud_result(cloud@) == Ok::<Seq<PointView>, DecodeError>(points_view(v@))
                && forall|k: int| 0 <= k < v@.len() ==> keys_unique(#[trigger] v@[k]@.attributes),
            Err(e) => cloud_result(cloud@) == Err::<Seq<PointView>, DecodeError>(e),
        },
{
    let ghost c = cloud@;
    if !check_schema(&cloud.fields, cloud.point_step) {
        return Err(DecodeError::MalformedSchema);
    }
    if !check_buffer(cloud) {
        return Err(DecodeError::BufferTooShort);
    }
    let width = cloud.width as u64;
    let height = cloud.height as u64;
    let ps = cloud.point_step as u64;
    let rs = cloud.row_step as u64;
    let len = cloud.data.len();
    let mut points: Vec<DecodedPoint> = Vec::new();
    let mut row: u64 = 0;
    while row < height
        invariant
            c == cloud@,
            schema_ok(c),
            buffer_ok(c),
            width == c.width,
            height == c.height,
            ps == c.point_step,
            rs == c.row_step,
            len == c.data.len(),
            row <= height,
            points@.len() == row * width,
            forall|k: int| 0 <= k < points@.len() ==> #[trigger] points@[k]@ == point_at(c, k),
            forall|k: int| 0 <= k < points@.len() ==> keys_unique(#[trigger] points@[k]@.attributes),
        decreases height - row,
    {
        let mut col: u64 = 0;
        while col < width
            invariant
                c == cloud@,
                schema_ok(c),
                buffer_ok(c),
                width == c.width,
                height == c.height,
                ps == c.point_step,
                rs == c.row_step,
                len == c.data.len(),
                row < height,
                col <= width,
                points@.len() == row * width + col,
                forall|k: int| 0 <= k < points@.len() ==> #[trigger] points@[k]@ == point_at(c, k),
                forall|k: int|
                    0 <= k < points@.len() ==> keys_unique(#[trigger] points@[k]@.attributes),
            decreases width - col,
        {
            proof {
                lemma_mul_inequality(row as int, (height - 1) as int, rs as int);
                lemma_mul_inequality((col + 1) as int, width as int, ps as int);
                assert((col + 1) * ps == col * ps + ps) by (nonlinear_arith);
            }
            let start = (row * rs + col * ps) as usize;
            let record = vstd::slice::slice_subrange(cloud.data.as_slice(), start, start + ps as usize);
            let p = parse_point(cloud.fields.as_slice(), record, cloud.is_bigendian);
            proof {
                let k = row * width + col;
                lemma_fundamental_div_mod_converse(k as int, width as int, row as int, col as int);
                assert(record@ == record_bytes(c, row as int, col as int));
            }
            points.push(p);
            col = col + 1;
        }
        proof {
            assert(row * width + width == (row + 1) * width) by (nonlinear_arith);
        }
        row = row + 1;
    }
    proof {
        let pv = points_view(points@);
        let expected = Seq::new((c.width * c.height) as nat, |k: int| point_at(c, k));
        assert(row * width == c.width * c.height) by (nonlinear_arith)
            requires row == height, width == c.width, height == c.height;
        assert(pv =~= expected);
    }
    Ok(points)
}

/// Decoding is deterministic: clouds with the same dimensions, strides,
/// byte order, schema and bytes decode to the same points, value for value
/// and bit for bit.
pub proof fn lemma_decode_deterministic(a: &PointCloudDescriptor, b: &PointCloudDescriptor)
    requires
        a@ == b@,
    ensures
        cloud_result(a@) == cloud_result(b@),
{
}

/// A cloud whose schema fits and whose buffer covers the grid decodes to
/// exactly `width * height` points.
pub proof fn lemma_point_count(c: CloudView)
    requires
        schema_ok(c),
        buffer_ok(c),
    ensures
        cloud_result(c) is Ok,
        cloud_result(c)->Ok_0.len() == c.width * c.height,
{
}

/// Row-major order: the point at index `row * width + col` is decoded from
/// the record at byte `row * row_step + col * point_step`.
pub proof fn lemma_row_major_order(c: CloudView, row: int, col: int)
    requires
        schema_ok(c),
        buffer_ok(c),
        0 <= row < c.height,
        0 <= col < c.width,
    ensures
        row * c.width + col < cloud_result(c)->Ok_0.len(),
        cloud_result(c)->Ok_0[row * c.width + col] == decode_record(
            c.fields,
            c.is_bigendian,
            c.data.subrange(
                row * c.row_step + col * c.point_step,
                row * c.row_step + col * c.point_step + c.point_step,
            ),
        ),
{
    let w = c.width as int;
    let h = c.height as int;
    assert(row * w + col < w * h) by (nonlinear_arith)
        requires 0 <= row < h, 0 <= col < w;
    lemma_fundamental_div_mod_converse(row * w + col, w, row, col);
}

} // verus!
