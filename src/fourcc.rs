//! Four-character pixel-format codes and the image sizes they imply.
use crate::field::le_value;
use vstd::prelude::*;

verus! {

/// A four-character code naming a pixel format, such as `RGB3` or `NV12`.
#[derive(Clone, Copy, PartialEq, Eq, Hash, Debug)]
pub struct FourCC(pub [u8; 4]);

/// Code of packed 24-bit RGB.
pub const RGB3: u32 = 0x3342_4752;
/// Code of 32-bit RGB with a padding byte.
pub const RGBX: u32 = 0x5842_4752;
/// Code of 32-bit RGB with alpha.
pub const RGBA: u32 = 0x4142_4752;
/// Code of packed 4:2:2 YUV.
pub const YUYV: u32 = 0x5659_5559;
/// Code of planar 4:2:0 YUV with interleaved chroma.
pub const NV12: u32 = 0x3231_564e;

impl FourCC {
    /// The code as a number: the first character in the lowest byte.
    pub open spec fn code(self) -> nat {
        le_value(self.0@)
    }

    pub fn to_u32(self) -> (r: u32)
        ensures
            r == self.code(),
    {
        let b = self.0;
        proof {
            let s = b@;
            reveal_with_fuel(le_value, 5);
            assert(s.drop_first().drop_first().drop_first().drop_first().len() == 0);
            assert(s.drop_first()[0] == s[1]);
            assert(s.drop_first().drop_first()[0] == s[2]);
            assert(s.drop_first().drop_first().drop_first()[0] == s[3]);
        }
        b[0] as u32 + 0x100 * (b[1] as u32 + 0x100 * (b[2] as u32 + 0x100 * b[3] as u32))
    }
}

impl From<u32> for FourCC {
    fn from(val: u32) -> (r: FourCC)
        ensures
            r.code() == val,
    {
        let r = FourCC(
            [
                (val % 0x100) as u8,
                (val / 0x100 % 0x100) as u8,
                (val / 0x1_0000 % 0x100) as u8,
                (val / 0x100_0000) as u8,
            ],
        );
        proof {
            let s = r.0@;
            reveal_with_fuel(le_value, 5);
            assert(s.drop_first().drop_first().drop_first().drop_first().len() == 0);
            assert(s.drop_first()[0] == s[1]);
            assert(s.drop_first().drop_first()[0] == s[2]);
            assert(s.drop_first().drop_first().drop_first()[0] == s[3]);
        }
        r
    }
}

impl vstd::std_specs::convert::FromSpecImpl<u32> for FourCC {
    open spec fn obeys_from_spec() -> bool {
        true
    }

    open spec fn from_spec(v: u32) -> FourCC {
        FourCC(
            [
                (v % 0x100) as u8,
                (v / 0x100 % 0x100) as u8,
                (v / 0x1_0000 % 0x100) as u8,
                (v / 0x100_0000) as u8,
            ],
        )
    }
}

impl From<FourCC> for u32 {
    fn from(val: FourCC) -> (r: u32)
        ensures
            r == val.code(),
    {
        val.to_u32()
    }
}

impl vstd::std_specs::convert::FromSpecImpl<FourCC> for u32 {
    open spec fn obeys_from_spec() -> bool {
        true
    }

    open spec fn from_spec(v: FourCC) -> u32 {
        v.code() as u32
    }
}

/// Bytes per row of an image of `width` pixels in the format with `code`;
/// `None` for a format without a known layout.
pub open spec fn row_stride(code: nat, width: nat) -> Option<nat> {
    if code == RGB3 {
        Some(3 * width)
    } else if code == RGBX || code == RGBA {
        Some(4 * width)
    } else if code == YUYV {
        Some(2 * width)
    } else if code == NV12 {
        Some(width / 2 + width)
    } else {
        None
    }
}

/// Bytes per row of an image `width` pixels wide in `format`.
pub fn format_row_stride(format: FourCC, width: u32) -> (r: usize)
    requires
        row_stride(format.code(), width as nat) is Some,
        row_stride(format.code(), width as nat)->Some_0 <= usize::MAX,
    ensures
        r == row_stride(format.code(), width as nat)->Some_0,
{
    let code = format.to_u32();
    let w = width as u64;
    let stride: u64 = if code == RGB3 {
        3 * w
    } else if code == RGBX || code == RGBA {
        4 * w
    } else if code == YUYV {
        2 * w
    } else {
        w / 2 + w
    };
    stride as usize
}

/// Bytes of a whole image of `width` by `height` pixels in `format`.
pub fn image_size(width: u32, height: u32, format: FourCC) -> (r: usize)
    requires
        row_stride(format.code(), width as nat) is Some,
        row_stride(format.code(), width as nat)->Some_0 <= usize::MAX,
        row_stride(format.code(), width as nat)->Some_0 * height <= usize::MAX,
    ensures
        r == row_stride(format.code(), width as nat)->Some_0 * height,
{
    format_row_stride(format, width) * height as usize
}

} // verus!
