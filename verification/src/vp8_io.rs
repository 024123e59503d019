//! The geometry descriptor handed from the frame header to the decoders.

use vstd::prelude::*;

verus! {

/// Picture geometry: full dimensions and the crop rectangle.
///
/// The dimensions are the original, uncropped ones; the crop rectangle
/// selects the area actually delivered.  Scaling parameters are carried for
/// the frame pipeline but are never copied into the alpha decoder's own
/// descriptor (the alpha plane is never independently rescaled).
#[derive(Clone, Copy, Debug, PartialEq, Eq, Structural)]
pub struct VP8Io {
    pub width: i32,
    pub height: i32,
    pub use_cropping: i32,
    pub crop_left: i32,
    pub crop_right: i32,
    pub crop_top: i32,
    pub crop_bottom: i32,
    pub use_scaling: i32,
    pub scaled_width: i32,
    pub scaled_height: i32,
}

impl VP8Io {
    /// A consistent descriptor: positive dimensions and a crop rectangle
    /// contained in them.
    pub open spec fn wf(&self) -> bool {
        &&& 0 < self.width
        &&& 0 < self.height
        &&& 0 <= self.crop_left <= self.crop_right <= self.width
        &&& 0 <= self.crop_top <= self.crop_bottom <= self.height
    }

    /// A fresh descriptor for an uncropped, unscaled picture.
    pub fn new(width: i32, height: i32) -> (io: Self)
        requires
            0 < width,
            0 < height,
        ensures
            io.wf(),
            io.width == width,
            io.height == height,
            io.use_cropping == 0,
            io.crop_left == 0,
            io.crop_right == width,
            io.crop_top == 0,
            io.crop_bottom == height,
            io.use_scaling == 0,
    {
        VP8Io {
            width,
            height,
            use_cropping: 0,
            crop_left: 0,
            crop_right: width,
            crop_top: 0,
            crop_bottom: height,
            use_scaling: 0,
            scaled_width: 0,
            scaled_height: 0,
        }
    }
}

/// The geometry descriptor the alpha decoder keeps: dimensions and crop
/// rectangle of the frame, scaling parameters cleared.
pub open spec fn alpha_io_spec(src: VP8Io) -> VP8Io {
    VP8Io {
        width: src.width,
        height: src.height,
        use_cropping: src.use_cropping,
        crop_left: src.crop_left,
        crop_right: src.crop_right,
        crop_top: src.crop_top,
        crop_bottom: src.crop_bottom,
        use_scaling: 0,
        scaled_width: 0,
        scaled_height: 0,
    }
}

/// Copies the geometry of `src` into a descriptor for the alpha decoder:
/// dimensions and crop rectangle carry over, scaling parameters do not.
pub fn alpha_io_from(src: &VP8Io) -> (io: VP8Io)
    ensures
        io == alpha_io_spec(*src),
        src.wf() ==> io.wf(),
{
    VP8Io {
        width: src.width,
        height: src.height,
        use_cropping: src.use_cropping,
        crop_left: src.crop_left,
        crop_right: src.crop_right,
        crop_top: src.crop_top,
        crop_bottom: src.crop_bottom,
        use_scaling: 0,
        scaled_width: 0,
        scaled_height: 0,
    }
}

} // verus!
