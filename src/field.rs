//! Field codec: turns the bytes of one point-cloud field into a value.
use vstd::arithmetic::div_mod::{lemma_mod_breakdown, lemma_small_mod};
use vstd::arithmetic::power2::{lemma2_to64, pow2};
use vstd::prelude::*;

verus! {

/// Datatype code of a signed 8-bit field.
pub const INT8: u8 = 1;
/// Datatype code of an unsigned 8-bit field.
pub const UINT8: u8 = 2;
/// Datatype code of a signed 16-bit field.
pub const INT16: u8 = 3;
/// Datatype code of an unsigned 16-bit field.
pub const UINT16: u8 = 4;
/// Datatype code of a signed 32-bit field.
pub const INT32: u8 = 5;
/// Datatype code of an unsigned 32-bit field.
pub const UINT32: u8 = 6;
/// Datatype code of an IEEE-754 single precision field.
pub const FLOAT32: u8 = 7;
/// Datatype code of an IEEE-754 double precision field.
pub const FLOAT64: u8 = 8;

/// The primitive type of a field.
#[derive(Clone, Copy, Debug, PartialEq, Eq, Structural)]
pub enum Datatype {
    Int8,
    Uint8,
    Int16,
    Uint16,
    Int32,
    Uint32,
    Float32,
    Float64,
}

/// A decoded field value, kept bit-exact: integers by their value, floats by
/// their IEEE-754 bit pattern. Every value converts to an `f64` without loss.
#[derive(Clone, Copy, Debug, PartialEq, Eq, Structural)]
pub enum Scalar {
    Int(i64),
    Float32(u32),
    Float64(u64),
}

/// Errors of the point-cloud decoder and of its field codec.
#[derive(Clone, Copy, Debug, PartialEq, Eq, Structural)]
pub enum DecodeError {
    /// A field reaches past the end of the point record.
    MalformedSchema,
    /// The buffer is smaller than the grid it should hold.
    BufferTooShort,
    /// A field slice does not have the width of its datatype.
    MalformedRecord,
}

/// The datatype that a code names, if any.
pub open spec fn datatype_of_code(code: u8) -> Option<Datatype> {
    if code == INT8 {
        Some(Datatype::Int8)
    } else if code == UINT8 {
        Some(Datatype::Uint8)
    } else if code == INT16 {
        Some(Datatype::Int16)
    } else if code == UINT16 {
        Some(Datatype::Uint16)
    } else if code == INT32 {
        Some(Datatype::Int32)
    } else if code == UINT32 {
        Some(Datatype::Uint32)
    } else if code == FLOAT32 {
        Some(Datatype::Float32)
    } else if code == FLOAT64 {
        Some(Datatype::Float64)
    } else {
        None
    }
}

impl Datatype {
    /// Byte width of the datatype.
    pub open spec fn spec_width(self) -> nat {
        match self {
            Datatype::Int8 | Datatype::Uint8 => 1,
            Datatype::Int16 | Datatype::Uint16 => 2,
            Datatype::Int32 | Datatype::Uint32 | Datatype::Float32 => 4,
            Datatype::Float64 => 8,
        }
    }

    pub fn width(&self) -> (r: usize)
        ensures
            r == self.spec_width(),
    {
        match self {
            Datatype::Int8 | Datatype::Uint8 => 1,
            Datatype::Int16 | Datatype::Uint16 => 2,
            Datatype::Int32 | Datatype::Uint32 | Datatype::Float32 => 4,
            Datatype::Float64 => 8,
        }
    }

    /// The datatype of a wire code; `None` for a code outside the eight known ones.
    pub fn from_code(code: u8) -> (r: Option<Datatype>)
        ensures
            r == datatype_of_code(code),
    {
        if code == INT8 {
            Some(Datatype::Int8)
        } else if code == UINT8 {
            Some(Datatype::Uint8)
        } else if code == INT16 {
            Some(Datatype::Int16)
        } else if code == UINT16 {
            Some(Datatype::Uint16)
        } else if code == INT32 {
            Some(Datatype::Int32)
        } else if code == UINT32 {
            Some(Datatype::Uint32)
        } else if code == FLOAT32 {
            Some(Datatype::Float32)
        } else if code == FLOAT64 {
            Some(Datatype::Float64)
        } else {
            None
        }
    }
}

/// The unsigned number that bytes hold, least significant byte first.
pub open spec fn le_value(b: Seq<u8>) -> nat
    decreases b.len(),
{
    if b.len() == 0 {
        0
    } else {
        (b[0] + 256 * le_value(b.drop_first())) as nat
    }
}

/// The unsigned number that bytes hold, most significant byte first.
pub open spec fn be_value(b: Seq<u8>) -> nat
    decreases b.len(),
{
    if b.len() == 0 {
        0
    } else {
        (be_value(b.drop_last()) * 256 + b.last()) as nat
    }
}

pub open spec fn raw_value(b: Seq<u8>, big_endian: bool) -> nat {
    if big_endian {
        be_value(b)
    } else {
        le_value(b)
    }
}

/// Two's complement reading of an unsigned number of `bits` bits.
pub open spec fn signed_of(u: nat, bits: nat) -> int {
    if u >= pow2((bits - 1) as nat) {
        u - pow2(bits)
    } else {
        u as int
    }
}

/// The value that a field of type `dt` holding the unsigned number `u` has.
pub open spec fn scalar_of(dt: Datatype, u: nat) -> Scalar {
    match dt {
        Datatype::Int8 => Scalar::Int(signed_of(u, 8) as i64),
        Datatype::Uint8 => Scalar::Int(u as i64),
        Datatype::Int16 => Scalar::Int(signed_of(u, 16) as i64),
        Datatype::Uint16 => Scalar::Int(u as i64),
        Datatype::Int32 => Scalar::Int(signed_of(u, 32) as i64),
        Datatype::Uint32 => Scalar::Int(u as i64),
        Datatype::Float32 => Scalar::Float32(u as u32),
        Datatype::Float64 => Scalar::Float64(u as u64),
    }
}

/// The value of the field bytes `b` read as `dt` in the given byte order.
pub open spec fn field_value(b: Seq<u8>, big_endian: bool, dt: Datatype) -> Scalar {
    scalar_of(dt, raw_value(b, big_endian))
}

/// 256 to the power `n`.
pub open spec fn pow256(n: nat) -> nat
    decreases n,
{
    if n == 0 {
        1
    } else {
        256 * pow256((n - 1) as nat)
    }
}

proof fn lemma_pow256_values()
    ensures
        pow256(1) == 0x100,
        pow256(2) == 0x10000,
        pow256(4) == 0x1_0000_0000,
        pow256(7) == 0x100_0000_0000_0000,
        pow256(8) == 0x1_0000_0000_0000_0000,
{
    reveal_with_fuel(pow256, 9);
}

proof fn lemma_pow256_monotonic(a: nat, b: nat)
    requires
        a <= b,
    ensures
        pow256(a) <= pow256(b),
    decreases b,
{
    if a < b {
        lemma_pow256_monotonic(a, (b - 1) as nat);
    }
}

/// The unsigned number in `b`, read in the given byte order.
fn read_unsigned(b: &[u8], big_endian: bool) -> (r: u64)
    requires
        b@.len() <= 8,
    ensures
        r == raw_value(b@, big_endian),
        r < pow256(b@.len()),
{
    let n = b.len();
    let mut acc: u64 = 0;
    if big_endian {
        let mut i: usize = 0;
        while i < n
            invariant
                n == b@.len() <= 8,
                i <= n,
                acc == be_value(b@.subrange(0, i as int)),
                acc < pow256(i as nat),
            decreases n - i,
        {
            let ghost prev = b@.subrange(0, i as int);
            let ghost next = b@.subrange(0, i + 1);
            assert(next.drop_last() =~= prev);
            proof {
                lemma_pow256_values();
                lemma_pow256_monotonic(i as nat, 7);
                let p = pow256(i as nat);
                assert(acc * 256 + b@[i as int] < 256 * p) by (nonlinear_arith)
                    requires acc < p, b@[i as int] < 256;
            }
            acc = acc * 256 + b[i] as u64;
            i = i + 1;
        }
        assert(b@.subrange(0, n as int) =~= b@);
    } else {
        let mut i: usize = n;
        while i > 0
            invariant
                n == b@.len() <= 8,
                i <= n,
                acc == le_value(b@.subrange(i as int, n as int)),
                acc < pow256((n - i) as nat),
            decreases i,
        {
            let ghost prev = b@.subrange(i as int, n as int);
            let ghost next = b@.subrange(i - 1, n as int);
            assert(next.drop_first() =~= prev);
            proof {
                lemma_pow256_values();
                lemma_pow256_monotonic((n - i) as nat, 7);
                let p = pow256((n - i) as nat);
                assert(b@[i - 1] + 256 * acc < 256 * p) by (nonlinear_arith)
                    requires acc < p, b@[i - 1] < 256;
            }
            acc = b[i - 1] as u64 + 256 * acc;
            i = i - 1;
        }
        assert(b@.subrange(0, n as int) =~= b@);
    }
    acc
}

/// Decodes the bytes of one field. The slice must be exactly as wide as the
/// datatype; otherwise the record is malformed.
pub fn decode_field(bytes: &[u8], big_endian: bool, datatype: Datatype) -> (r: Result<
    Scalar,
    DecodeError,
>)
    ensures
        bytes@.len() == datatype.spec_width() ==> r == Ok::<Scalar, DecodeError>(
            field_value(bytes@, big_endian, datatype),
        ),
        bytes@.len() != datatype.spec_width() ==> r == Err::<Scalar, DecodeError>(
            DecodeError::MalformedRecord,
        ),
{
    if bytes.len() != datatype.width() {
        return Err(DecodeError::MalformedRecord);
    }
    Ok(read_field(bytes, big_endian, datatype))
}

/// Decodes field bytes that are known to have the datatype's width.
pub fn read_field(bytes: &[u8], big_endian: bool, datatype: Datatype) -> (r: Scalar)
    requires
        bytes@.len() == datatype.spec_width(),
    ensures
        r == field_value(bytes@, big_endian, datatype),
{
    let u = read_unsigned(bytes, big_endian);
    proof {
        lemma_pow256_values();
        lemma2_to64();
    }
    let v = match datatype {
        Datatype::Int8 => Scalar::Int(
            if u >= 0x80 {
                u as i64 - 0x100
            } else {
                u as i64
            },
        ),
        Datatype::Uint8 => Scalar::Int(u as i64),
        Datatype::Int16 => Scalar::Int(
            if u >= 0x8000 {
                u as i64 - 0x1_0000
            } else {
                u as i64
            },
        ),
        Datatype::Uint16 => Scalar::Int(u as i64),
        Datatype::Int32 => Scalar::Int(
            if u >= 0x8000_0000 {
                u as i64 - 0x1_0000_0000
            } else {
                u as i64
            },
        ),
        Datatype::Uint32 => Scalar::Int(u as i64),
        Datatype::Float32 => Scalar::Float32(u as u32),
        Datatype::Float64 => Scalar::Float64(u),
    };
    v
}

/// The `n` lowest bytes of `u`, least significant first.
pub open spec fn le_bytes(u: nat, n: nat) -> Seq<u8>
    decreases n,
{
    if n == 0 {
        Seq::empty()
    } else {
        seq![(u % 256) as u8] + le_bytes(u / 256, (n - 1) as nat)
    }
}

/// The `n` lowest bytes of `u`, most significant first.
pub open spec fn be_bytes(u: nat, n: nat) -> Seq<u8>
    decreases n,
{
    if n == 0 {
        Seq::empty()
    } else {
        be_bytes(u / 256, (n - 1) as nat).push((u % 256) as u8)
    }
}

proof fn lemma_pow256_positive(n: nat)
    ensures
        pow256(n) > 0,
    decreases n,
{
    if n > 0 {
        lemma_pow256_positive((n - 1) as nat);
    }
}

/// Reading the little-endian bytes of a number gives the number back
/// (modulo the width).
pub proof fn lemma_le_round_trip(u: nat, n: nat)
    ensures
        le_bytes(u, n).len() == n,
        le_value(le_bytes(u, n)) == u % pow256(n),
    decreases n,
{
    if n > 0 {
        let m = (n - 1) as nat;
        lemma_le_round_trip(u / 256, m);
        lemma_pow256_positive(m);
        let b = le_bytes(u, n);
        assert(b.drop_first() =~= le_bytes(u / 256, m));
        lemma_mod_breakdown(u as int, 256, pow256(m) as int);
    } else {
        assert(u % 1 == 0);
    }
}

/// Reading the big-endian bytes of a number gives the number back (modulo
/// the width).
pub proof fn lemma_be_round_trip(u: nat, n: nat)
    ensures
        be_bytes(u, n).len() == n,
        be_value(be_bytes(u, n)) == u % pow256(n),
    decreases n,
{
    if n > 0 {
        let m = (n - 1) as nat;
        lemma_be_round_trip(u / 256, m);
        lemma_pow256_positive(m);
        let b = be_bytes(u, n);
        assert(b.drop_last() =~= be_bytes(u / 256, m));
        lemma_mod_breakdown(u as int, 256, pow256(m) as int);
    } else {
        assert(u % 1 == 0);
    }
}

/// Byte order is symmetric: a number of the datatype's width, written
/// big-endian and read with the big-endian flag, decodes to the same value
/// as the same number written little-endian and read little-endian.
pub proof fn lemma_endianness_symmetry(dt: Datatype, u: nat)
    requires
        u < pow256(dt.spec_width()),
    ensures
        field_value(be_bytes(u, dt.spec_width()), true, dt) == field_value(
            le_bytes(u, dt.spec_width()),
            false,
            dt,
        ),
        field_value(le_bytes(u, dt.spec_width()), false, dt) == scalar_of(dt, u),
{
    lemma_le_round_trip(u, dt.spec_width());
    lemma_be_round_trip(u, dt.spec_width());
    lemma_small_mod(u, pow256(dt.spec_width()));
}

} // verus!
