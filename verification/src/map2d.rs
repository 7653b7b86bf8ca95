use vstd::prelude::*;

use crate::errors::NoiseError;
use crate::indexing::index2;
use crate::indexing::lemma_index2_in_bounds;

verus! {

/// A dense 2D field of scalar samples.
///
/// The samples lie in a flat buffer in row-major order: the cell at
/// `(x, y)` sits at linear index `y * width + x`. Each sample is the
/// bit pattern of an IEEE-754 binary32 number, carried as a `u32`.
pub struct NoiseMap2D {
    pub width: usize,
    pub height: usize,
    pub buffer: Vec<u32>,
}

/// A zero-filled sample buffer of the given length.
pub(crate) fn zeroed_buffer(n: usize) -> (v: Vec<u32>)
    ensures
        v@.len() == n,
        forall|i: int| 0 <= i < n ==> v@[i] == 0u32,
{
    let mut v: Vec<u32> = Vec::new();
    let mut i: usize = 0;
    while i < n
        invariant
            i <= n,
            v@.len() == i,
            forall|j: int| 0 <= j < i ==> v@[j] == 0u32,
        decreases n - i,
    {
        v.push(0u32);
        i = i + 1;
    }
    v
}

impl NoiseMap2D {
    /// The structural invariant: one sample per cell.
    pub open spec fn wf(&self) -> bool {
        self.buffer@.len() == self.width * self.height
    }

    /// Whether a coordinate lies inside the dimensions.
    pub open spec fn in_range(&self, x: nat, y: nat) -> bool {
        x < self.width && y < self.height
    }

    /// The sample stored at an in-range coordinate.
    pub open spec fn sample_at(&self, x: nat, y: nat) -> u32
        recommends
            self.wf(),
            self.in_range(x, y),
    {
        self.buffer@[index2(self.width as nat, x, y) as int]
    }

    /// A zero-filled map of the given dimensions.
    pub fn from_values(width: usize, height: usize) -> (map: NoiseMap2D)
        requires
            width * height <= usize::MAX,
        ensures
            map.wf(),
            map.width == width,
            map.height == height,
            forall|x: nat, y: nat| x < width && y < height ==> #[trigger] map.sample_at(x, y) == 0u32,
    {
        let buffer = zeroed_buffer(width * height);
        let map = NoiseMap2D { width, height, buffer };
        proof {
            assert forall|x: nat, y: nat| x < width && y < height implies #[trigger] map.sample_at(
                x,
                y,
            ) == 0u32 by {
                lemma_index2_in_bounds(width as nat, height as nat, x, y);
            }
        }
        map
    }

    /// Refills the buffer with zeroes at the current dimensions.
    pub fn initialize(&mut self)
        requires
            old(self).width * old(self).height <= usize::MAX,
        ensures
            final(self).width == old(self).width,
            final(self).height == old(self).height,
            final(self).wf(),
            forall|x: nat, y: nat|
                x < final(self).width && y < final(self).height
                    ==> #[trigger] final(self).sample_at(x, y) == 0u32,
    {
        self.buffer = zeroed_buffer(self.width * self.height);
        proof {
            assert forall|x: nat, y: nat|
                x < self.width && y < self.height implies #[trigger] self.sample_at(x, y)
                == 0u32 by {
                lemma_index2_in_bounds(self.width as nat, self.height as nat, x, y);
            }
        }
    }

    /// Reads the sample at `(x, y)`; an out-of-range coordinate is
    /// reported as `IndexOutOfRange`, never clamped or wrapped.
    pub fn get_value_at(&self, x: u32, y: u32) -> (r: Result<u32, NoiseError>)
        requires
            self.wf(),
        ensures
            self.in_range(x as nat, y as nat) ==> r == Ok::<u32, NoiseError>(
                self.sample_at(x as nat, y as nat),
            ),
            !self.in_range(x as nat, y as nat) ==> r == Err::<u32, NoiseError>(
                NoiseError::IndexOutOfRange,
            ),
    {
        if (x as usize) < self.width && (y as usize) < self.height {
            let n = self.buffer.len();
            proof {
                lemma_index2_in_bounds(
                    self.width as nat,
                    self.height as nat,
                    x as nat,
                    y as nat,
                );
                assert(index2(self.width as nat, x as nat, y as nat) < n);
            }
            Ok(self.buffer[(y as usize) * self.width + (x as usize)])
        } else {
            Err(NoiseError::IndexOutOfRange)
        }
    }

    /// Writes the sample at `(x, y)`; an out-of-range coordinate leaves
    /// the map unchanged and is reported as `IndexOutOfRange`.
    pub fn set_value_at(&mut self, x: u32, y: u32, value: u32) -> (r: Result<(), NoiseError>)
        requires
            old(self).wf(),
        ensures
            final(self).width == old(self).width,
            final(self).height == old(self).height,
            final(self).wf(),
            old(self).in_range(x as nat, y as nat) ==> {
                &&& r == Ok::<(), NoiseError>(())
                &&& final(self).buffer@ == old(self).buffer@.update(
                    index2(old(self).width as nat, x as nat, y as nat) as int,
                    value,
                )
                &&& final(self).sample_at(x as nat, y as nat) == value
            },
            !old(self).in_range(x as nat, y as nat) ==> {
                &&& r == Err::<(), NoiseError>(NoiseError::IndexOutOfRange)
                &&& final(self).buffer@ == old(self).buffer@
            },
    {
        if (x as usize) < self.width && (y as usize) < self.height {
            let n = self.buffer.len();
            proof {
                lemma_index2_in_bounds(
                    self.width as nat,
                    self.height as nat,
                    x as nat,
                    y as nat,
                );
                assert(index2(self.width as nat, x as nat, y as nat) < n);
            }
            let idx = (y as usize) * self.width + (x as usize);
            self.buffer[idx] = value;
            Ok(())
        } else {
            Err(NoiseError::IndexOutOfRange)
        }
    }
}

} // verus!
