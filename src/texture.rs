use vstd::prelude::*;

use crate::builder::ImportError;

verus! {

/// The pixel layout of a decoded image.
#[derive(Clone, Copy, Debug, PartialEq, Eq, Structural)]
pub enum ImageFormat {
    R8,
    R8G8,
    R8G8B8,
    R8G8B8A8,
    B8G8R8,
    B8G8R8A8,
    R16,
    R16G16,
    R16G16B16,
    R16G16B16A16,
    R32G32B32Float,
    R32G32B32A32Float,
}

/// The channel order of an 8-bit texture upload.
#[derive(Clone, Copy, Debug, PartialEq, Eq, Structural)]
pub enum PixelFormat {
    Red,
    Rg,
    Rgb,
    Rgba,
    Bgr,
    Bgra,
}

/// The upload format of an image format with 8 bits per channel, if it is one.
pub open spec fn pixel_format_of(f: ImageFormat) -> Option<PixelFormat> {
    match f {
        ImageFormat::R8 => Some(PixelFormat::Red),
        ImageFormat::R8G8 => Some(PixelFormat::Rg),
        ImageFormat::R8G8B8 => Some(PixelFormat::Rgb),
        ImageFormat::R8G8B8A8 => Some(PixelFormat::Rgba),
        ImageFormat::B8G8R8 => Some(PixelFormat::Bgr),
        ImageFormat::B8G8R8A8 => Some(PixelFormat::Bgra),
        _ => None,
    }
}

/// The upload format of an image; formats with more than 8 bits per channel are not
/// supported.
pub fn pixel_format(f: ImageFormat) -> (r: Result<PixelFormat, ImportError>)
    ensures
        pixel_format_of(f) matches Some(p) ==> r == Ok::<PixelFormat, ImportError>(p),
        pixel_format_of(f) is None ==> r == Err::<PixelFormat, ImportError>(
            ImportError::UnsupportedFeature,
        ),
{
    match f {
        ImageFormat::R8 => Ok(PixelFormat::Red),
        ImageFormat::R8G8 => Ok(PixelFormat::Rg),
        ImageFormat::R8G8B8 => Ok(PixelFormat::Rgb),
        ImageFormat::R8G8B8A8 => Ok(PixelFormat::Rgba),
        ImageFormat::B8G8R8 => Ok(PixelFormat::Bgr),
        ImageFormat::B8G8R8A8 => Ok(PixelFormat::Bgra),
        _ => Err(ImportError::UnsupportedFeature),
    }
}

} // verus!
