//! Texture layout arithmetic: pixel formats, their storage sizes, and the
//! byte-size validation that guards uploads of image data.
//!
//! A mismatch between the bytes supplied for an upload and the bytes the
//! format and dimensions demand is a hard failure, reported before anything
//! is handed to the rendering backend.

use vstd::prelude::*;

verus! {

/// The kind and dimensions of a texture.
#[derive(Clone, Copy, PartialEq, Eq, Structural, Debug)]
pub enum GpuTextureKind {
    Line { length: usize },
    Rectangle { width: usize, height: usize },
    Cube { width: usize, height: usize },
    Volume { width: usize, height: usize, depth: usize },
}

/// The storage format of one pixel.
#[derive(Clone, Copy, PartialEq, Eq, Structural, Debug)]
pub enum PixelKind {
    F32,
    F16,
    D32,
    D16,
    D24S8,
    RGBA8,
    RGB8,
    BGRA8,
    BGR8,
    RG8,
    RG16,
    R8,
    R16,
    RGB16,
    RGBA16,
    DXT1RGB,
    DXT1RGBA,
    DXT3RGBA,
    DXT5RGBA,
    RGBA32F,
    R8RGTC,
    RG8RGTC,
}

/// Magnification filtering of a sampled texture.
#[derive(Clone, Copy, PartialEq, Eq, Structural, Hash, Debug)]
pub enum MagnificationFilter {
    Nearest,
    Linear,
}

/// Minification filtering of a sampled texture.
#[derive(Clone, Copy, PartialEq, Eq, Structural, Hash, Debug)]
pub enum MinificationFilter {
    Nearest,
    NearestMipMapNearest,
    NearestMipMapLinear,
    Linear,
    LinearMipMapNearest,
    LinearMipMapLinear,
}

/// Wrapping of texture coordinates outside the unit interval.
#[derive(Clone, Copy, PartialEq, Eq, Structural, Debug)]
pub enum WrapMode {
    Repeat,
    ClampToEdge,
    ClampToBorder,
    MirroredRepeat,
    MirrorClampToEdge,
}

/// The texture coordinate a wrap mode applies to.
#[derive(Clone, Copy, PartialEq, Eq, Structural, Debug)]
pub enum Coordinate {
    S,
    T,
    R,
}

/// One face of a cube texture.
#[derive(Clone, Copy, PartialEq, Eq, Structural, Debug)]
pub enum CubeMapFace {
    PositiveX,
    NegativeX,
    PositiveY,
    NegativeY,
    PositiveZ,
    NegativeZ,
}

/// Whether a pixel format stores blocks rather than single pixels.
pub open spec fn spec_is_compressed(k: PixelKind) -> bool {
    match k {
        PixelKind::DXT1RGB
        | PixelKind::DXT1RGBA
        | PixelKind::DXT3RGBA
        | PixelKind::DXT5RGBA
        | PixelKind::R8RGTC
        | PixelKind::RG8RGTC => true,
        _ => false,
    }
}

/// Bytes per pixel of an uncompressed format.
pub open spec fn spec_bytes_per_pixel(k: PixelKind) -> int {
    match k {
        PixelKind::RGBA32F => 16,
        PixelKind::RGBA16 => 8,
        PixelKind::RGB16 => 6,
        PixelKind::RGBA8 | PixelKind::BGRA8 | PixelKind::RG16 | PixelKind::D24S8 | PixelKind::D32
            | PixelKind::F32 => 4,
        PixelKind::RGB8 | PixelKind::BGR8 => 3,
        PixelKind::RG8 | PixelKind::R16 | PixelKind::D16 | PixelKind::F16 => 2,
        PixelKind::R8 => 1,
        _ => 0,
    }
}

/// Bytes per four-by-four block of a compressed format.
pub open spec fn spec_block_size(k: PixelKind) -> int {
    match k {
        PixelKind::DXT1RGB | PixelKind::DXT1RGBA | PixelKind::R8RGTC => 8,
        PixelKind::DXT3RGBA | PixelKind::DXT5RGBA | PixelKind::RG8RGTC => 16,
        _ => 0,
    }
}

/// Dimensions rounded up to whole compression blocks.
pub open spec fn spec_ceil_div_4(x: int) -> int {
    (x + 3) / 4
}

/// The bytes one mip level of each dimensionality occupies.
pub open spec fn spec_image_1d_size(k: PixelKind, length: int) -> int {
    if spec_is_compressed(k) {
        spec_ceil_div_4(length) * spec_block_size(k)
    } else {
        spec_bytes_per_pixel(k) * length
    }
}

/// The bytes one two-dimensional mip level occupies.
pub open spec fn spec_image_2d_size(k: PixelKind, width: int, height: int) -> int {
    if spec_is_compressed(k) {
        spec_ceil_div_4(width) * spec_ceil_div_4(height) * spec_block_size(k)
    } else {
        spec_bytes_per_pixel(k) * (width * height)
    }
}

/// The bytes one three-dimensional mip level occupies.
pub open spec fn spec_image_3d_size(k: PixelKind, width: int, height: int, depth: int) -> int {
    if spec_is_compressed(k) {
        spec_ceil_div_4(width) * spec_ceil_div_4(height) * spec_ceil_div_4(depth)
            * spec_block_size(k)
    } else {
        spec_bytes_per_pixel(k) * (width * height * depth)
    }
}

impl PixelKind {
    /// The row alignment the backend must be told when unpacking this
    /// format; compressed formats have no notion of unpack alignment, so
    /// they are left out by precondition.
    pub fn unpack_alignment(self) -> (r: i32)
        requires
            !spec_is_compressed(self),
        ensures
            r == match self {
                PixelKind::RGBA16 | PixelKind::RGB16 | PixelKind::RGBA32F => 8int,
                PixelKind::RGBA8 | PixelKind::RGB8 | PixelKind::BGRA8 | PixelKind::BGR8
                    | PixelKind::RG16 | PixelKind::R16 | PixelKind::D24S8 | PixelKind::D32
                    | PixelKind::F32 => 4int,
                PixelKind::RG8 | PixelKind::D16 | PixelKind::F16 => 2int,
                _ => 1int,
            },
    {
        match self {
            PixelKind::RGBA16 | PixelKind::RGB16 | PixelKind::RGBA32F => 8,
            PixelKind::RGBA8 | PixelKind::RGB8 | PixelKind::BGRA8 | PixelKind::BGR8
                | PixelKind::RG16 | PixelKind::R16 | PixelKind::D24S8 | PixelKind::D32
                | PixelKind::F32 => 4,
            PixelKind::RG8 | PixelKind::D16 | PixelKind::F16 => 2,
            PixelKind::R8 => 1,
            PixelKind::DXT1RGB | PixelKind::DXT1RGBA | PixelKind::DXT3RGBA | PixelKind::DXT5RGBA
                | PixelKind::R8RGTC | PixelKind::RG8RGTC => 1,
        }
    }

    /// Whether this format stores compression blocks.
    pub fn is_compressed(self) -> (r: bool)
        ensures
            r == spec_is_compressed(self),
    {
        match self {
            PixelKind::DXT1RGB | PixelKind::DXT1RGBA | PixelKind::DXT3RGBA | PixelKind::DXT5RGBA
                | PixelKind::R8RGTC | PixelKind::RG8RGTC => true,
            _ => false,
        }
    }
}

/// Rounds a pixel dimension up to whole four-pixel blocks.
pub fn ceil_div_4(x: usize) -> (r: usize)
    requires
        x + 3 <= usize::MAX,
    ensures
        r == spec_ceil_div_4(x as int),
{
    (x + 3) / 4
}

/// Bytes of one one-dimensional mip level.
pub fn image_1d_size_bytes(pixel_kind: PixelKind, length: usize) -> (r: usize)
    requires
        spec_image_1d_size(pixel_kind, length as int) <= usize::MAX,
        length + 3 <= usize::MAX,
    ensures
        r == spec_image_1d_size(pixel_kind, length as int),
{
    if pixel_kind.is_compressed() {
        let blocks = ceil_div_4(length);
        let block_size: usize = match pixel_kind {
            PixelKind::DXT1RGB | PixelKind::DXT1RGBA | PixelKind::R8RGTC => 8,
            _ => 16,
        };
        proof {
            assert(blocks * block_size == spec_image_1d_size(pixel_kind, length as int));
        }
        blocks * block_size
    } else {
        let bpp: usize = bytes_per_pixel(pixel_kind);
        proof {
            assert(bpp * length == spec_image_1d_size(pixel_kind, length as int))
                by (nonlinear_arith)
                requires bpp == spec_bytes_per_pixel(pixel_kind), !spec_is_compressed(pixel_kind),
                spec_image_1d_size(pixel_kind, length as int) == spec_bytes_per_pixel(pixel_kind) * (length as int);
        }
        bpp * length
    }
}

/// Bytes of one two-dimensional mip level.
pub fn image_2d_size_bytes(pixel_kind: PixelKind, width: usize, height: usize) -> (r: usize)
    requires
        spec_image_2d_size(pixel_kind, width as int, height as int) <= usize::MAX,
        width + 3 <= usize::MAX,
        height + 3 <= usize::MAX,
        width * height <= usize::MAX,
        spec_ceil_div_4(width as int) * spec_ceil_div_4(height as int) <= usize::MAX,
    ensures
        r == spec_image_2d_size(pixel_kind, width as int, height as int),
{
    if pixel_kind.is_compressed() {
        let blocks = ceil_div_4(width);
        let blocks_h = ceil_div_4(height);
        let block_size: usize = match pixel_kind {
            PixelKind::DXT1RGB | PixelKind::DXT1RGBA | PixelKind::R8RGTC => 8,
            _ => 16,
        };
        let area = blocks * blocks_h;
        area * block_size
    } else {
        let bpp: usize = bytes_per_pixel(pixel_kind);
        let pixels = width * height;
        bpp * pixels
    }
}

/// Bytes of one three-dimensional mip level.
pub fn image_3d_size_bytes(pixel_kind: PixelKind, width: usize, height: usize, depth: usize) -> (r:
    usize)
    requires
        spec_image_3d_size(pixel_kind, width as int, height as int, depth as int) <= usize::MAX,
        width + 3 <= usize::MAX,
        height + 3 <= usize::MAX,
        depth + 3 <= usize::MAX,
        width * height <= usize::MAX,
        width * height * depth <= usize::MAX,
        spec_ceil_div_4(width as int) * spec_ceil_div_4(height as int) <= usize::MAX,
        spec_ceil_div_4(width as int) * spec_ceil_div_4(height as int) * spec_ceil_div_4(
            depth as int,
        ) <= usize::MAX,
    ensures
        r == spec_image_3d_size(pixel_kind, width as int, height as int, depth as int),
{
    if pixel_kind.is_compressed() {
        let blocks = ceil_div_4(width);
        let blocks_h = ceil_div_4(height);
        let blocks_d = ceil_div_4(depth);
        let block_size: usize = match pixel_kind {
            PixelKind::DXT1RGB | PixelKind::DXT1RGBA | PixelKind::R8RGTC => 8,
            _ => 16,
        };
        let area = blocks * blocks_h;
        let volume = area * blocks_d;
        volume * block_size
    } else {
        let bpp: usize = bytes_per_pixel(pixel_kind);
        let pixels = width * height;
        let volume = pixels * depth;
        bpp * volume
    }
}

/// Bytes per pixel of an uncompressed format.
fn bytes_per_pixel(k: PixelKind) -> (r: usize)
    requires
        !spec_is_compressed(k),
    ensures
        r == spec_bytes_per_pixel(k),
{
    match k {
        PixelKind::RGBA32F => 16,
        PixelKind::RGBA16 => 8,
        PixelKind::RGB16 => 6,
        PixelKind::RGBA8 | PixelKind::BGRA8 | PixelKind::RG16 | PixelKind::D24S8 | PixelKind::D32
            | PixelKind::F32 => 4,
        PixelKind::RGB8 | PixelKind::BGR8 => 3,
        PixelKind::RG8 | PixelKind::R16 | PixelKind::D16 | PixelKind::F16 => 2,
        PixelKind::R8 => 1,
        PixelKind::DXT1RGB | PixelKind::DXT1RGBA | PixelKind::DXT3RGBA | PixelKind::DXT5RGBA
            | PixelKind::R8RGTC | PixelKind::RG8RGTC => 0,
    }
}

} // verus!
