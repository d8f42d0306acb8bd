//! One frame of the pipeline: a compute device produces the raw samples, and
//! the renderer turns them into the ordered tiles handed to the display layer.
use crate::tiling::{partition, tile_count, tiles_of, view_tiles, Tile};
use vstd::prelude::*;

verus! {

/// Failures while setting up the compute pipeline.
#[derive(Debug, Clone, Copy, PartialEq, Eq, Structural)]
pub enum InitializationError {
    /// No compatible compute device is present.
    NoDevice,
    /// The image kernel failed to compile or load.
    KernelCompilation,
    /// Device memory could not be allocated or filled.
    Allocation,
    /// The frame has more pixels than one dispatch can address (`u32::MAX`).
    FrameTooLarge,
}

/// Failures of one frame's computation; the caller may skip the frame and retry.
#[derive(Debug, Clone, Copy, PartialEq, Eq, Structural)]
pub enum ComputeError {
    /// The kernel launch failed.
    Launch,
    /// Copying the frame from the device failed or did not give one byte per
    /// pixel.
    Transfer,
}

/// Fixed frame geometry and kernel detail, set once at construction.
#[derive(Debug, Clone, Copy, PartialEq, Eq, Structural)]
pub struct Renderer {
    pub width: u32,
    pub height: u32,
    pub iterations: u32,
}

/// Number of bytes of a raw frame of the given dimensions.
pub open spec fn frame_size(width: u32, height: u32) -> nat {
    width as nat * height as nat
}

proof fn lemma_frame_size_fits(width: u32, height: u32)
    ensures
        frame_size(width, height) <= u64::MAX,
{
    assert(width as nat * height as nat <= u64::MAX) by (nonlinear_arith)
        requires
            width <= u32::MAX,
            height <= u32::MAX,
    ;
}

impl Renderer {
    /// A renderer for `width` by `height` frames computed with `iterations`
    /// kernel iterations. Refused when one dispatch cannot cover every pixel.
    pub fn new(width: u32, height: u32, iterations: u32) -> (r: Result<Renderer, InitializationError>)
        ensures
            r is Ok <==> frame_size(width, height) <= u32::MAX,
            r matches Ok(rd) ==> rd.width == width && rd.height == height && rd.iterations
                == iterations,
            r matches Err(e) ==> e == InitializationError::FrameTooLarge,
    {
        proof {
            lemma_frame_size_fits(width, height);
        }
        if width as u64 * height as u64 > u32::MAX as u64 {
            Err(InitializationError::FrameTooLarge)
        } else {
            Ok(Renderer { width, height, iterations })
        }
    }

    /// Number of bytes of one raw frame: one sample per pixel.
    pub fn frame_len(&self) -> (r: u64)
        ensures
            r == frame_size(self.width, self.height),
    {
        proof {
            lemma_frame_size_fits(self.width, self.height);
        }
        self.width as u64 * self.height as u64
    }

    /// Turns the outcome of one dispatch into the frame's tiles, in row-major
    /// grid order. A frame of no pixels gives no tiles and no error, whatever
    /// the dispatch gave. Otherwise a compute error is passed on unchanged, and
    /// a frame that is not one byte per pixel is a failed transfer.
    pub fn render(&self, dispatched: Result<Vec<u8>, ComputeError>) -> (r: Result<Vec<Tile>, ComputeError>)
        ensures
            frame_size(self.width, self.height) == 0 ==> (r matches Ok(tiles) && tiles@.len() == 0),
            frame_size(self.width, self.height) > 0 ==> {
                &&& (dispatched matches Err(e) ==> r == Err::<Vec<Tile>, ComputeError>(e))
                &&& (dispatched matches Ok(raw) ==> {
                    if raw@.len() == frame_size(self.width, self.height) {
                        r matches Ok(tiles) && tiles@.len() == tile_count(
                            self.width as nat,
                            self.height as nat,
                        ) && view_tiles(tiles@) == tiles_of(
                            raw@,
                            self.width as nat,
                            self.height as nat,
                        )
                    } else {
                        r == Err::<Vec<Tile>, ComputeError>(ComputeError::Transfer)
                    }
                })
            },
    {
        proof {
            lemma_frame_size_fits(self.width, self.height);
        }
        if self.width as u64 * self.height as u64 == 0 {
            return Ok(Vec::new());
        }
        match dispatched {
            Err(e) => Err(e),
            Ok(raw) => {
                if raw.len() as u64 != self.width as u64 * self.height as u64 {
                    Err(ComputeError::Transfer)
                } else {
                    Ok(partition(raw.as_slice(), self.width, self.height))
                }
            },
        }
    }
}

} // verus!
