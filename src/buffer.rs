//! An RGB raster of 8-bit channels, stored row-major as raw bytes.
use vstd::prelude::*;

verus! {

/// What a buffer holds: its dimensions and its raw bytes, three per pixel.
pub ghost struct BufferModel {
    pub width: nat,
    pub height: nat,
    pub bytes: Seq<u8>,
}

/// The number of bytes of a `width` by `height` raster.
pub open spec fn byte_len(width: nat, height: nat) -> nat {
    3 * (width * height)
}

/// A raster of `width` by `height` pixels, each three channel bytes.
pub struct RgbBuffer {
    width: u32,
    height: u32,
    data: Vec<u8>,
}

impl View for RgbBuffer {
    type V = BufferModel;

    closed spec fn view(&self) -> BufferModel {
        BufferModel { width: self.width as nat, height: self.height as nat, bytes: self.data@ }
    }
}

impl RgbBuffer {
    /// The byte count matches the dimensions.
    pub open spec fn wf(&self) -> bool {
        self@.bytes.len() == byte_len(self@.width, self@.height)
    }

    /// Builds a buffer from raw bytes; `None` when the byte count is not
    /// three per pixel.
    pub fn from_raw(width: u32, height: u32, data: Vec<u8>) -> (r: Option<RgbBuffer>)
        ensures
            r.is_some() <==> data@.len() == byte_len(width as nat, height as nat),
            r matches Some(b) ==> b.wf() && b@ == (BufferModel {
                width: width as nat,
                height: height as nat,
                bytes: data@,
            }),
    {
        let dl = data.len();
        let pixels = (width as usize).checked_mul(height as usize);
        match pixels {
            None => {
                proof {
                    let wh = width as nat * height as nat;
                    assert(wh > usize::MAX);
                    assert(byte_len(width as nat, height as nat) == 3 * wh);
                    assert(data@.len() == dl);
                    assert(data@.len() != byte_len(width as nat, height as nat));
                }
                None
            },
            Some(n) => {
                let len = n.checked_mul(3);
                match len {
                    None => None,
                    Some(l) => {
                        if dl == l {
                            Some(RgbBuffer { width, height, data })
                        } else {
                            None
                        }
                    },
                }
            },
        }
    }

    /// Builds a buffer whose byte count is known to fit its dimensions.
    pub(crate) fn from_parts(width: u32, height: u32, data: Vec<u8>) -> (r: RgbBuffer)
        requires
            data@.len() == byte_len(width as nat, height as nat),
        ensures
            r.wf(),
            r@ == (BufferModel { width: width as nat, height: height as nat, bytes: data@ }),
    {
        RgbBuffer { width, height, data }
    }

    /// Width and height in pixels.
    pub fn dimensions(&self) -> (r: (u32, u32))
        ensures
            r.0 as nat == self@.width,
            r.1 as nat == self@.height,
    {
        (self.width, self.height)
    }

    /// The raw bytes, row-major, three per pixel.
    pub fn as_raw(&self) -> (r: &Vec<u8>)
        ensures
            r@ == self@.bytes,
    {
        &self.data
    }

    /// Gives up the buffer for its raw bytes.
    pub fn into_raw(self) -> (r: Vec<u8>)
        ensures
            r@ == self@.bytes,
    {
        self.data
    }

    /// An independent copy of the buffer.
    pub fn duplicate(&self) -> (r: RgbBuffer)
        ensures
            r@ == self@,
    {
        let data = self.data.clone();
        assert(data@ =~= self.data@);
        RgbBuffer { width: self.width, height: self.height, data }
    }
}

} // verus!
