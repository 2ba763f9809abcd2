//! GPU picking decisions: the size of the offscreen ID target, which pixel to read
//! back, and how the read-back bytes decode to an ID.
//!
//! ID encoding convention: 0 means "nothing"; otherwise the lower 31 bits are an
//! application-defined index and the top bit distinguishes entity classes.

use vstd::prelude::*;

verus! {

/// Result of a pick, as returned by the GPU readback.
#[derive(Debug, Clone, Copy, PartialEq, Eq, Structural)]
pub struct PickResult {
    /// The raw ID as written by the picking shader.
    pub id: u32,
}

impl PickResult {
    /// True if the pick hit something (non-zero ID).
    pub fn is_hit(&self) -> (r: bool)
        ensures
            r == (self.id != 0),
    {
        self.id != 0
    }
}

/// How the picking target stores IDs.
#[derive(Debug, Clone, Copy, PartialEq, Eq, Structural)]
pub enum PickFormat {
    /// One `u32` per pixel.
    R32Uint,
    /// Four bytes per pixel with the ID bit-packed little-endian (r is the low byte).
    Rgba8,
}

/// The little-endian `u32` of four bytes.
pub open spec fn le_u32(b: [u8; 4]) -> int {
    b[0] + 256 * b[1] + 65536 * b[2] + 16777216 * b[3]
}

fn bytes_to_u32(b: [u8; 4]) -> (r: u32)
    ensures
        r == le_u32(b),
{
    let r = b[0] as u32;
    let g = b[1] as u32;
    let bl = b[2] as u32;
    let a = b[3] as u32;
    assert((r | (g << 8) | (bl << 16) | (a << 24)) == r + 256 * g + 65536 * bl + 16777216 * a)
        by (bit_vector)
        requires
            r < 256,
            g < 256,
            bl < 256,
            a < 256,
    ;
    r | (g << 8) | (bl << 16) | (a << 24)
}

/// Decodes the first four read-back bytes into a pick result.
///
/// An `R32Uint` target holds the ID directly (little-endian); an `Rgba8` target holds it
/// bit-packed with `r` as the least significant byte. Both read as the same number.
pub fn decode_pick(format: PickFormat, bytes: [u8; 4]) -> (r: PickResult)
    ensures
        r.id == le_u32(bytes),
{
    let id = match format {
        PickFormat::R32Uint => bytes_to_u32(bytes),
        PickFormat::Rgba8 => bytes_to_u32(bytes),
    };
    PickResult { id }
}

/// The dimensions of a picking render target (never zero).
#[derive(Debug, Clone, Copy, PartialEq, Eq, Structural)]
pub struct PickTarget {
    pub width: u32,
    pub height: u32,
}

/// `v`, but at least 1.
pub open spec fn at_least_one(v: u32) -> u32 {
    if v < 1 {
        1
    } else {
        v
    }
}

impl PickTarget {
    /// A target of the given size; zero dimensions become 1.
    pub fn new(width: u32, height: u32) -> (r: Self)
        ensures
            r.width == at_least_one(width),
            r.height == at_least_one(height),
    {
        PickTarget {
            width: if width < 1 {
                1
            } else {
                width
            },
            height: if height < 1 {
                1
            } else {
                height
            },
        }
    }

    /// Resizes the target (zero dimensions become 1). Returns `true` when the size
    /// changed, i.e. when the GPU texture has to be recreated.
    pub fn resize(&mut self, width: u32, height: u32) -> (changed: bool)
        ensures
            final(self).width == at_least_one(width),
            final(self).height == at_least_one(height),
            changed == (old(self).width != at_least_one(width) || old(self).height
                != at_least_one(height)),
    {
        let width = if width < 1 {
            1
        } else {
            width
        };
        let height = if height < 1 {
            1
        } else {
            height
        };
        if self.width == width && self.height == height {
            return false;
        }
        self.width = width;
        self.height = height;
        true
    }

    /// The texel to copy back for a pick at `(x, y)`, clamped to the target.
    pub fn read_origin(&self, x: u32, y: u32) -> (r: (u32, u32))
        ensures
            r.0 == (if x < self.width - 1 {
                x as int
            } else if self.width == 0 {
                0
            } else {
                self.width - 1
            }),
            r.1 == (if y < self.height - 1 {
                y as int
            } else if self.height == 0 {
                0
            } else {
                self.height - 1
            }),
    {
        let max_x = self.width.saturating_sub(1);
        let max_y = self.height.saturating_sub(1);
        let x = if x < max_x {
            x
        } else {
            max_x
        };
        let y = if y < max_y {
            y
        } else {
            max_y
        };
        (x, y)
    }
}

/// A picking target keeps the requested size, except that a zero dimension
/// becomes 1.
pub proof fn lemma_target_size(v: u32)
    ensures
        v == 0 ==> at_least_one(v) == 1,
        v > 0 ==> at_least_one(v) == v,
{
}

/// Decoding inverts the shader's little-endian packing: every ID survives a round trip
/// through its four bytes.
pub proof fn lemma_pick_roundtrip(id: u32)
    ensures
        le_u32([(id % 256) as u8, ((id / 256) % 256) as u8, ((id / 65536) % 256) as u8, (id / 16777216) as u8]) == id,
{
}

} // verus!
