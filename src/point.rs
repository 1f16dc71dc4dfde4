//! Field schema and the decoding of one point record.
use crate::field::{datatype_of_code, field_value, read_field, Datatype, Scalar};
use crate::rounding::{round_scalar, rounded_in};
use vstd::prelude::*;
use vstd::string::StrSliceExecFns;

verus! {

/// One entry of a point-cloud schema: a named, typed field at a byte offset
/// inside each point record. `datatype` is the wire code (see `field`).
#[derive(Clone, Debug)]
pub struct FieldDescriptor {
    pub name: String,
    pub offset: u32,
    pub datatype: u8,
}

/// Mathematical model of a field descriptor.
pub struct FieldSpec {
    pub name: Seq<char>,
    pub offset: u32,
    pub datatype: u8,
}

impl View for FieldDescriptor {
    type V = FieldSpec;

    open spec fn view(&self) -> FieldSpec {
        FieldSpec { name: self.name@, offset: self.offset, datatype: self.datatype }
    }
}

/// The model of a schema.
pub open spec fn schema_of(fields: Seq<FieldDescriptor>) -> Seq<FieldSpec> {
    fields.map_values(|f: FieldDescriptor| f@)
}

/// A value of a field that has no well-known slot.
#[derive(Clone, Debug)]
pub struct Attribute {
    pub name: String,
    pub value: Scalar,
}

/// One decoded point. Coordinates and attributes keep the decoded value
/// bit-exact; `id` and the two classes are rounded from theirs.
#[derive(Clone, Debug)]
pub struct DecodedPoint {
    pub x: Scalar,
    pub y: Scalar,
    pub z: Scalar,
    pub id: i64,
    pub vision_class: u8,
    pub fusion_class: u8,
    /// Fields without a well-known slot, by name, in order of first
    /// appearance; each name occurs once.
    pub attributes: Vec<Attribute>,
}

/// Mathematical model of a decoded point.
pub struct PointView {
    pub x: Scalar,
    pub y: Scalar,
    pub z: Scalar,
    pub id: i64,
    pub vision_class: u8,
    pub fusion_class: u8,
    pub attributes: Seq<(Seq<char>, Scalar)>,
}

impl View for DecodedPoint {
    type V = PointView;

    open spec fn view(&self) -> PointView {
        PointView {
            x: self.x,
            y: self.y,
            z: self.z,
            id: self.id,
            vision_class: self.vision_class,
            fusion_class: self.fusion_class,
            attributes: self.attributes@.map_values(|a: Attribute| (a.name@, a.value)),
        }
    }
}

/// Where the value of a field goes, by the field's name.
#[derive(Clone, Copy, Debug, PartialEq, Eq, Structural)]
pub enum Slot {
    X,
    Y,
    Z,
    ClusterId,
    VisionClass,
    FusionClass,
    Attribute,
}

pub open spec fn slot_of(name: Seq<char>) -> Slot {
    if name == "x"@ {
        Slot::X
    } else if name == "y"@ {
        Slot::Y
    } else if name == "z"@ {
        Slot::Z
    } else if name == "cluster_id"@ {
        Slot::ClusterId
    } else if name == "vision_class"@ {
        Slot::VisionClass
    } else if name == "fusion_class"@ {
        Slot::FusionClass
    } else {
        Slot::Attribute
    }
}

/// The point that decoding starts from: coordinates 0.0, id and classes 0,
/// no attributes.
pub open spec fn empty_point() -> PointView {
    PointView {
        x: Scalar::Float64(0),
        y: Scalar::Float64(0),
        z: Scalar::Float64(0),
        id: 0,
        vision_class: 0,
        fusion_class: 0,
        attributes: Seq::empty(),
    }
}

/// No name occurs twice among the attributes.
pub open spec fn keys_unique(a: Seq<(Seq<char>, Scalar)>) -> bool {
    forall|i: int, j: int| 0 <= i < a.len() && 0 <= j < a.len() && a[i].0 == a[j].0 ==> i == j
}

/// The attributes with `name` set to `v`: the entry of that name is
/// replaced in place, or one is appended.
pub open spec fn attr_insert(a: Seq<(Seq<char>, Scalar)>, name: Seq<char>, v: Scalar) -> Seq<
    (Seq<char>, Scalar),
> {
    if exists|i: int| 0 <= i < a.len() && a[i].0 == name {
        a.update(choose|i: int| 0 <= i < a.len() && a[i].0 == name, (name, v))
    } else {
        a.push((name, v))
    }
}

/// The value of the attribute `name`, if the point has one.
pub open spec fn attr_get(a: Seq<(Seq<char>, Scalar)>, name: Seq<char>) -> Option<Scalar> {
    if exists|i: int| 0 <= i < a.len() && a[i].0 == name {
        Some(a[choose|i: int| 0 <= i < a.len() && a[i].0 == name].1)
    } else {
        None
    }
}

/// The point after a field `name` with value `v` has been written into it.
pub open spec fn resolve(p: PointView, name: Seq<char>, v: Scalar) -> PointView {
    match slot_of(name) {
        Slot::X => PointView { x: v, ..p },
        Slot::Y => PointView { y: v, ..p },
        Slot::Z => PointView { z: v, ..p },
        Slot::ClusterId => PointView { id: rounded_in(v, i64::MIN as int, i64::MAX as int) as i64, ..p },
        Slot::VisionClass => PointView { vision_class: rounded_in(v, 0, 255) as u8, ..p },
        Slot::FusionClass => PointView { fusion_class: rounded_in(v, 0, 255) as u8, ..p },
        Slot::Attribute => PointView { attributes: attr_insert(p.attributes, name, v), ..p },
    }
}

/// Every field of a known datatype lies inside a record of `len` bytes.
pub open spec fn fields_fit(fields: Seq<FieldSpec>, len: nat) -> bool {
    forall|i: int|
        0 <= i < fields.len() ==> match #[trigger] datatype_of_code(fields[i].datatype) {
            Some(dt) => fields[i].offset + dt.spec_width() <= len,
            None => true,
        }
}

/// The point that the first `n` fields build from the record bytes `rec`.
/// Fields of an unknown datatype are skipped; a later field of the same
/// name overwrites an earlier one.
pub open spec fn decode_fields(fields: Seq<FieldSpec>, n: int, big_endian: bool, rec: Seq<u8>) -> PointView
    decreases n,
{
    if n <= 0 {
        empty_point()
    } else {
        let p = decode_fields(fields, n - 1, big_endian, rec);
        let f = fields[n - 1];
        match datatype_of_code(f.datatype) {
            Some(dt) => resolve(
                p,
                f.name,
                field_value(rec.subrange(f.offset as int, f.offset + dt.spec_width()), big_endian, dt),
            ),
            None => p,
        }
    }
}

/// The point that a whole schema builds from the record bytes `rec`.
pub open spec fn decode_record(fields: Seq<FieldSpec>, big_endian: bool, rec: Seq<u8>) -> PointView {
    decode_fields(fields, fields.len() as int, big_endian, rec)
}

/// Whether `s` and `lit` hold the same characters.
fn same_chars(s: &str, lit: &str) -> (r: bool)
    ensures
        r == (s@ == lit@),
{
    let n = s.unicode_len();
    if n != lit.unicode_len() {
        return false;
    }
    let mut i: usize = 0;
    while i < n
        invariant
            n == s@.len() == lit@.len(),
            i <= n,
            forall|j: int| 0 <= j < i ==> s@[j] == lit@[j],
        decreases n - i,
    {
        if s.get_char(i) != lit.get_char(i) {
            return false;
        }
        i = i + 1;
    }
    assert(s@ =~= lit@);
    true
}

/// The slot that a field name resolves to.
pub fn slot(name: &str) -> (r: Slot)
    ensures
        r == slot_of(name@),
{
    if same_chars(name, "x") {
        Slot::X
    } else if same_chars(name, "y") {
        Slot::Y
    } else if same_chars(name, "z") {
        Slot::Z
    } else if same_chars(name, "cluster_id") {
        Slot::ClusterId
    } else if same_chars(name, "vision_class") {
        Slot::VisionClass
    } else if same_chars(name, "fusion_class") {
        Slot::FusionClass
    } else {
        Slot::Attribute
    }
}

impl DecodedPoint {
    /// A point with coordinates 0.0, id and classes 0 and no attributes.
    pub fn new() -> (r: DecodedPoint)
        ensures
            r@ == empty_point(),
    {
        let r = DecodedPoint {
            x: Scalar::Float64(0),
            y: Scalar::Float64(0),
            z: Scalar::Float64(0),
            id: 0,
            vision_class: 0,
            fusion_class: 0,
            attributes: Vec::new(),
        };
        assert(r@.attributes =~= Seq::empty());
        r
    }

    /// Sets the attribute `name` to `v`, in place if the point has one of
    /// that name, else at the end.
    pub fn set_attribute(&mut self, name: &String, v: Scalar)
        requires
            keys_unique(old(self)@.attributes),
        ensures
            final(self)@ == (PointView { attributes: attr_insert(old(self)@.attributes, name@, v), ..old(self)@ }),
            keys_unique(final(self)@.attributes),
    {
        let ghost a = self@.attributes;
        let n = self.attributes.len();
        let mut i: usize = 0;
        while i < n
            invariant
                n == self.attributes@.len(),
                self@ == old(self)@,
                a == self@.attributes,
                keys_unique(a),
                i <= n,
                forall|j: int| 0 <= j < i ==> a[j].0 != name@,
            decreases n - i,
        {
            if self.attributes[i].name == *name {
                assert(a[i as int].0 == name@);
                assert(exists|j: int| 0 <= j < a.len() && a[j].0 == name@);
                let ghost c = choose|j: int| 0 <= j < a.len() && a[j].0 == name@;
                assert(c == i);
                self.attributes.set(i, Attribute { name: name.clone(), value: v });
                assert(self@.attributes =~= a.update(i as int, (name@, v)));
                return;
            }
            i = i + 1;
        }
        self.attributes.push(Attribute { name: name.clone(), value: v });
        assert(self@.attributes =~= a.push((name@, v)));
    }

    /// Writes the value `v` of the field `name` into its slot.
    pub fn resolve(&mut self, name: &String, v: Scalar)
        requires
            keys_unique(old(self)@.attributes),
        ensures
            final(self)@ == resolve(old(self)@, name@, v),
            keys_unique(final(self)@.attributes),
    {
        match slot(name.as_str()) {
            Slot::X => self.x = v,
            Slot::Y => self.y = v,
            Slot::Z => self.z = v,
            Slot::ClusterId => self.id = round_scalar(v, i64::MIN, i64::MAX),
            Slot::VisionClass => self.vision_class = round_scalar(v, 0, 255) as u8,
            Slot::FusionClass => self.fusion_class = round_scalar(v, 0, 255) as u8,
            Slot::Attribute => self.set_attribute(name, v),
        }
    }
}

/// Decodes one point record. Fields of an unknown datatype are skipped.
pub fn parse_point(fields: &[FieldDescriptor], record: &[u8], big_endian: bool) -> (r: DecodedPoint)
    requires
        fields_fit(schema_of(fields@), record@.len()),
    ensures
        r@ == decode_record(schema_of(fields@), big_endian, record@),
        keys_unique(r@.attributes),
{
    let mut p = DecodedPoint::new();
    let len = record.len();
    let mut i: usize = 0;
    while i < fields.len()
        invariant
            i <= fields@.len(),
            len == record@.len(),
            fields_fit(schema_of(fields@), record@.len()),
            p@ == decode_fields(schema_of(fields@), i as int, big_endian, record@),
            keys_unique(p@.attributes),
        decreases fields@.len() - i,
    {
        let f = &fields[i];
        if let Some(dt) = Datatype::from_code(f.datatype) {
            assert(schema_of(fields@)[i as int] == f@);
            assert(datatype_of_code(schema_of(fields@)[i as int].datatype) == Some(dt));
            assert(f.offset + dt.spec_width() <= record@.len());
            let start = f.offset as usize;
            let bytes = vstd::slice::slice_subrange(record, start, start + dt.width());
            let v = read_field(bytes, big_endian, dt);
            p.resolve(&f.name, v);
        }
        i = i + 1;
    }
    p
}

/// A `cluster_id` field sets the id to its value rounded to the nearest
/// integer, halves away from zero (saturated to the range of `i64`), and
/// changes nothing else.
pub proof fn lemma_cluster_id_rounds(p: PointView, v: Scalar)
    ensures
        resolve(p, "cluster_id"@, v) == (PointView {
            id: rounded_in(v, i64::MIN as int, i64::MAX as int) as i64,
            ..p
        }),
{
    reveal_strlit("cluster_id");
    reveal_strlit("x");
    reveal_strlit("y");
    reveal_strlit("z");
    assert("cluster_id"@.len() != "x"@.len());
    assert("cluster_id"@.len() != "y"@.len());
    assert("cluster_id"@.len() != "z"@.len());
}

/// A field without a well-known slot lands in the attributes under its name
/// with its value, and leaves the coordinates, id and classes as they were.
pub proof fn lemma_attribute_passthrough(p: PointView, name: Seq<char>, v: Scalar)
    requires
        slot_of(name) == Slot::Attribute,
        keys_unique(p.attributes),
    ensures
        attr_get(resolve(p, name, v).attributes, name) == Some(v),
        keys_unique(resolve(p, name, v).attributes),
        resolve(p, name, v).x == p.x,
        resolve(p, name, v).y == p.y,
        resolve(p, name, v).z == p.z,
        resolve(p, name, v).id == p.id,
        resolve(p, name, v).vision_class == p.vision_class,
        resolve(p, name, v).fusion_class == p.fusion_class,
{
    let a = p.attributes;
    let b = attr_insert(a, name, v);
    if exists|i: int| 0 <= i < a.len() && a[i].0 == name {
        let i = choose|i: int| 0 <= i < a.len() && a[i].0 == name;
        assert(b[i].0 == name);
        assert(keys_unique(b));
        let j = choose|j: int| 0 <= j < b.len() && b[j].0 == name;
        assert(j == i);
    } else {
        assert(b[a.len() as int].0 == name);
        assert(keys_unique(b));
        let j = choose|j: int| 0 <= j < b.len() && b[j].0 == name;
        assert(j == a.len());
    }
}

proof fn lemma_skip_prefix(fields: Seq<FieldSpec>, i: int, n: int, big_endian: bool, rec: Seq<u8>)
    requires
        0 <= i < fields.len(),
        datatype_of_code(fields[i].datatype) is None,
        0 <= n <= fields.len(),
    ensures
        n <= i ==> decode_fields(fields, n, big_endian, rec) == decode_fields(fields.remove(i), n, big_endian, rec),
        n > i ==> decode_fields(fields, n, big_endian, rec) == decode_fields(fields.remove(i), n - 1, big_endian, rec),
    decreases n,
{
    if n > 0 {
        lemma_skip_prefix(fields, i, n - 1, big_endian, rec);
        if n - 1 < i {
            assert(fields.remove(i)[n - 1] == fields[n - 1]);
        } else if n - 1 > i {
            assert(fields.remove(i)[n - 2] == fields[n - 1]);
        }
    }
}

/// A field of an unknown datatype is skipped: decoding a record with it
/// gives what decoding the record without it gives, so it appears in no
/// slot and no attribute, and the other fields are still decoded.
pub proof fn lemma_unknown_datatype_skipped(fields: Seq<FieldSpec>, i: int, big_endian: bool, rec: Seq<u8>)
    requires
        0 <= i < fields.len(),
        datatype_of_code(fields[i].datatype) is None,
    ensures
        decode_record(fields, big_endian, rec) == decode_record(fields.remove(i), big_endian, rec),
{
    lemma_skip_prefix(fields, i, fields.len() as int, big_endian, rec);
}

} // verus!
