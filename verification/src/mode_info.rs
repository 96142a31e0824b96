//! Parser for the firmware-provided video mode descriptor.
//!
//! The firmware leaves a fixed-layout little-endian structure at a
//! well-known physical address; the caller maps that page, hands the raw
//! bytes here, and unmaps it. Only the scalars the driver needs are read
//! out: resolution, pitch, and the physical base address of the linear
//! framebuffer. A zero base address means there is no usable framebuffer
//! and the driver must not start serving.

use vstd::prelude::*;

verus! {

/// Byte offset of the bytes-per-scanline field.
pub const PITCH_OFFSET: usize = 16;

/// Byte offset of the horizontal resolution.
pub const XRES_OFFSET: usize = 18;

/// Byte offset of the vertical resolution.
pub const YRES_OFFSET: usize = 20;

/// Byte offset of the framebuffer physical base address.
pub const PHYSBASE_OFFSET: usize = 40;

/// Number of leading bytes the descriptor must provide.
pub const MODE_INFO_LEN: usize = 44;

/// The little-endian value of the two bytes at `i`.
pub open spec fn le16(b: Seq<u8>, i: int) -> int {
    b[i] + 0x100 * b[i + 1]
}

/// The little-endian value of the four bytes at `i`.
pub open spec fn le32(b: Seq<u8>, i: int) -> int {
    b[i] + 0x100 * b[i + 1] + 0x1_0000 * b[i + 2] + 0x100_0000 * b[i + 3]
}

/// The scalars the driver keeps from the firmware mode structure.
pub struct ModeDescriptor {
    /// Horizontal resolution in pixels.
    pub width: u16,
    /// Vertical resolution in pixels.
    pub height: u16,
    /// Bytes per scanline.
    pub pitch: u16,
    /// Physical base address of the linear framebuffer.
    pub physbaseptr: u32,
}

impl ModeDescriptor {
    /// Whether the descriptor names a framebuffer at all.
    pub fn usable(&self) -> (r: bool)
        ensures
            r == (self.physbaseptr != 0),
    {
        self.physbaseptr != 0
    }
}

fn read_u16_le(b: &[u8], i: usize) -> (r: u16)
    requires
        i + 2 <= b@.len(),
    ensures
        r == le16(b@, i as int),
{
    b[i] as u16 + (b[i + 1] as u16) * 0x100
}

fn read_u32_le(b: &[u8], i: usize) -> (r: u32)
    requires
        i + 4 <= b@.len(),
    ensures
        r == le32(b@, i as int),
{
    b[i] as u32 + (b[i + 1] as u32) * 0x100 + (b[i + 2] as u32) * 0x1_0000 + (b[i + 3] as u32)
        * 0x100_0000
}

/// Read the mode descriptor out of the raw bytes of the firmware page.
/// Succeeds exactly when the page provides the fixed layout's length.
pub fn parse_mode_info(bytes: &[u8]) -> (r: Option<ModeDescriptor>)
    ensures
        match r {
            Some(m) => bytes@.len() >= MODE_INFO_LEN && m.width == le16(bytes@, XRES_OFFSET as int)
                && m.height == le16(bytes@, YRES_OFFSET as int) && m.pitch == le16(
                bytes@,
                PITCH_OFFSET as int,
            ) && m.physbaseptr == le32(bytes@, PHYSBASE_OFFSET as int),
            None => bytes@.len() < MODE_INFO_LEN,
        },
{
    if bytes.len() < MODE_INFO_LEN {
        return None;
    }
    Some(
        ModeDescriptor {
            width: read_u16_le(bytes, XRES_OFFSET),
            height: read_u16_le(bytes, YRES_OFFSET),
            pitch: read_u16_le(bytes, PITCH_OFFSET),
            physbaseptr: read_u32_le(bytes, PHYSBASE_OFFSET),
        },
    )
}

} // verus!
