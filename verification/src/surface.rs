//! The shared-memory buffer that the surface shows: its layout and contents.
use vstd::prelude::*;

verus! {

/// The width of the background surface, in pixels.
pub const SURFACE_WIDTH: u64 = 400;
/// The height of the background surface, in pixels.
pub const SURFACE_HEIGHT: i32 = 300;
/// Bytes per pixel in the ARGB8888 format.
pub const BYTES_PER_PIXEL: u64 = 4;

/// The layout of a shared-memory buffer: its width and height in pixels, the
/// bytes of one row, and the bytes of the pool that holds it.
#[derive(Debug, Clone, Copy, PartialEq, Eq, Structural)]
pub struct BufferLayout {
    pub width: u64,
    pub height: i32,
    pub stride: u64,
    pub size: u64,
}

/// The buffer layout for a surface of `width` by `height` pixels: rows of
/// four bytes per pixel, and a pool of `width` such rows.
pub fn buffer_layout(width: u64, height: i32) -> (r: BufferLayout)
    requires
        width * BYTES_PER_PIXEL * width <= u64::MAX,
    ensures
        r.width == width,
        r.height == height,
        r.stride == width * BYTES_PER_PIXEL,
        r.size == r.stride * width,
{
    assert(width * BYTES_PER_PIXEL <= u64::MAX) by (nonlinear_arith)
        requires
            width * BYTES_PER_PIXEL * width <= u64::MAX,
            BYTES_PER_PIXEL == 4,
    ;
    let stride = width * BYTES_PER_PIXEL;
    assert(stride * width <= u64::MAX) by (nonlinear_arith)
        requires
            stride == width * BYTES_PER_PIXEL,
            width * BYTES_PER_PIXEL * width <= u64::MAX,
    ;
    BufferLayout { width, height, stride, size: stride * width }
}

/// The byte at offset `k` of a buffer filled with opaque blue in ARGB8888,
/// whose bytes in memory are blue, green, red, alpha: 0xFF, 0, 0, 0xFF.
pub open spec fn fill_byte(k: int) -> u8 {
    if k % 4 == 0 || k % 4 == 3 {
        0xFF
    } else {
        0x00
    }
}

/// Fills every whole pixel of `data` with opaque blue; bytes after the last
/// whole pixel stay as they were.
pub fn fill_pixels(data: &mut [u8])
    ensures
        final(data)@.len() == old(data)@.len(),
        forall|k: int| 0 <= k < old(data)@.len() - old(data)@.len() % 4 ==> #[trigger] final(data)@[k] == fill_byte(k),
        forall|k: int|
            old(data)@.len() - old(data)@.len() % 4 <= k < old(data)@.len() ==> #[trigger] final(data)@[k]
                == old(data)@[k],
{
    let n = data.len();
    let mut i: usize = 0;
    while n - i >= 4
        invariant
            n == data@.len(),
            data@.len() == old(data)@.len(),
            i <= n,
            i % 4 == 0,
            forall|k: int| 0 <= k < i ==> #[trigger] data@[k] == fill_byte(k),
            forall|k: int| i <= k < n ==> #[trigger] data@[k] == old(data)@[k],
        decreases n - i,
    {
        data[i] = 0xFF;
        data[i + 1] = 0x00;
        data[i + 2] = 0x00;
        data[i + 3] = 0xFF;
        i = i + 4;
    }
    assert(i == n - n % 4);
}

} // verus!
