use vstd::prelude::*;

use crate::errors::NoiseError;
use crate::indexing::index2;
use crate::indexing::index3;
use crate::indexing::lemma_index2_in_bounds;
use crate::indexing::lemma_index3_in_bounds;
use crate::map2d::zeroed_buffer;
use crate::map2d::NoiseMap2D;

verus! {

/// A dense 3D field of scalar samples.
///
/// The samples lie in a flat buffer in row-major order: the cell at
/// `(x, y, z)` sits at linear index `z * height * width + y * width + x`.
/// Each sample is the bit pattern of an IEEE-754 binary32 number,
/// carried as a `u32`.
pub struct NoiseMap3D {
    pub width: usize,
    pub height: usize,
    pub depth: usize,
    pub buffer: Vec<u32>,
}

impl NoiseMap3D {
    /// The structural invariant: one sample per cell.
    pub open spec fn wf(&self) -> bool {
        self.buffer@.len() == self.width * self.height * self.depth
    }

    /// Whether a coordinate lies inside the dimensions.
    pub open spec fn in_range(&self, x: nat, y: nat, z: nat) -> bool {
        x < self.width && y < self.height && z < self.depth
    }

    /// The sample stored at an in-range coordinate.
    pub open spec fn sample_at(&self, x: nat, y: nat, z: nat) -> u32
        recommends
            self.wf(),
            self.in_range(x, y, z),
    {
        self.buffer@[index3(self.width as nat, self.height as nat, x, y, z) as int]
    }

    /// The linear index of an in-range cell.
    fn cell_index(&self, x: usize, y: usize, z: usize) -> (idx: usize)
        requires
            self.wf(),
            x < self.width,
            y < self.height,
            z < self.depth,
        ensures
            idx == index3(self.width as nat, self.height as nat, x as nat, y as nat, z as nat),
            idx < self.buffer@.len(),
    {
        let n = self.buffer.len();
        proof {
            lemma_index3_in_bounds(
                self.width as nat,
                self.height as nat,
                self.depth as nat,
                x as nat,
                y as nat,
                z as nat,
            );
            assert(self.height * self.width <= self.width * self.height * self.depth)
                by (nonlinear_arith)
                requires
                    self.depth >= 1,
            ;
        }
        let plane = self.height * self.width;
        z * plane + y * self.width + x
    }

    /// A zero-filled volume of the given dimensions.
    pub fn from_values(width: usize, height: usize, depth: usize) -> (map: NoiseMap3D)
        requires
            width * height <= usize::MAX,
            width * height * depth <= usize::MAX,
        ensures
            map.wf(),
            map.width == width,
            map.height == height,
            map.depth == depth,
            forall|x: nat, y: nat, z: nat|
                x < width && y < height && z < depth ==> #[trigger] map.sample_at(x, y, z)
                    == 0u32,
    {
        let buffer = zeroed_buffer(width * height * depth);
        let map = NoiseMap3D { width, height, depth, buffer };
        proof {
            assert forall|x: nat, y: nat, z: nat|
                x < width && y < height && z < depth implies #[trigger] map.sample_at(x, y, z)
                == 0u32 by {
                lemma_index3_in_bounds(width as nat, height as nat, depth as nat, x, y, z);
            }
        }
        map
    }

    /// Refills the buffer with zeroes at the current dimensions.
    pub fn initialize(&mut self)
        requires
            old(self).width * old(self).height <= usize::MAX,
            old(self).width * old(self).height * old(self).depth <= usize::MAX,
        ensures
            final(self).width == old(self).width,
            final(self).height == old(self).height,
            final(self).depth == old(self).depth,
            final(self).wf(),
            forall|x: nat, y: nat, z: nat|
                x < final(self).width && y < final(self).height && z < final(self).depth
                    ==> #[trigger] final(self).sample_at(x, y, z) == 0u32,
    {
        self.buffer = zeroed_buffer(self.width * self.height * self.depth);
        proof {
            assert forall|x: nat, y: nat, z: nat|
                x < self.width && y < self.height && z < self.depth implies #[trigger] self
                .sample_at(x, y, z) == 0u32 by {
                lemma_index3_in_bounds(
                    self.width as nat,
                    self.height as nat,
                    self.depth as nat,
                    x,
                    y,
                    z,
                );
            }
        }
    }

    /// Reads the sample at `(x, y, z)`; an out-of-range coordinate is
    /// reported as `IndexOutOfRange`, never clamped or wrapped.
    pub fn get_value_at(&self, x: u32, y: u32, z: u32) -> (r: Result<u32, NoiseError>)
        requires
            self.wf(),
        ensures
            self.in_range(x as nat, y as nat, z as nat) ==> r == Ok::<u32, NoiseError>(
                self.sample_at(x as nat, y as nat, z as nat),
            ),
            !self.in_range(x as nat, y as nat, z as nat) ==> r == Err::<u32, NoiseError>(
                NoiseError::IndexOutOfRange,
            ),
    {
        if (x as usize) < self.width && (y as usize) < self.height && (z as usize) < self.depth {
            let idx = self.cell_index(x as usize, y as usize, z as usize);
            Ok(self.buffer[idx])
        } else {
            Err(NoiseError::IndexOutOfRange)
        }
    }

    /// Writes the sample at `(x, y, z)`; an out-of-range coordinate
    /// leaves the volume unchanged and is reported as `IndexOutOfRange`.
    pub fn set_value_at(&mut self, x: u32, y: u32, z: u32, value: u32) -> (r: Result<
        (),
        NoiseError,
    >)
        requires
            old(self).wf(),
        ensures
            final(self).width == old(self).width,
            final(self).height == old(self).height,
            final(self).depth == old(self).depth,
            final(self).wf(),
            old(self).in_range(x as nat, y as nat, z as nat) ==> {
                &&& r == Ok::<(), NoiseError>(())
                &&& final(self).buffer@ == old(self).buffer@.update(
                    index3(
                        old(self).width as nat,
                        old(self).height as nat,
                        x as nat,
                        y as nat,
                        z as nat,
                    ) as int,
                    value,
                )
                &&& final(self).sample_at(x as nat, y as nat, z as nat) == value
            },
            !old(self).in_range(x as nat, y as nat, z as nat) ==> {
                &&& r == Err::<(), NoiseError>(NoiseError::IndexOutOfRange)
                &&& final(self).buffer@ == old(self).buffer@
            },
    {
        if (x as usize) < self.width && (y as usize) < self.height && (z as usize) < self.depth {
            let idx = self.cell_index(x as usize, y as usize, z as usize);
            self.buffer[idx] = value;
            Ok(())
        } else {
            Err(NoiseError::IndexOutOfRange)
        }
    }

    /// Replaces the whole buffer with the given samples, laid out in the
    /// canonical row-major order. Population is idempotent: calling it
    /// again with fresh samples regenerates the field in place.
    pub fn populate(&mut self, samples: &Vec<u32>) -> (r: Result<(), NoiseError>)
        requires
            old(self).wf(),
        ensures
            final(self).width == old(self).width,
            final(self).height == old(self).height,
            final(self).depth == old(self).depth,
            samples@.len() == old(self).width * old(self).height * old(self).depth ==> {
                &&& r == Ok::<(), NoiseError>(())
                &&& final(self).buffer@ == samples@
                &&& final(self).wf()
                &&& forall|x: nat, y: nat, z: nat|
                    final(self).in_range(x, y, z) ==> #[trigger] final(self).sample_at(x, y, z)
                        == samples@[index3(
                        old(self).width as nat,
                        old(self).height as nat,
                        x,
                        y,
                        z,
                    ) as int]
            },
            samples@.len() != old(self).width * old(self).height * old(self).depth ==> {
                &&& r == Err::<(), NoiseError>(NoiseError::IndexOutOfRange)
                &&& final(self).buffer@ == old(self).buffer@
            },
    {
        if samples.len() == self.buffer.len() {
            self.buffer.clear();
            self.buffer.extend_from_slice(samples.as_slice());
            proof {
                assert forall|x: nat, y: nat, z: nat| self.in_range(x, y, z) implies #[trigger] self
                    .sample_at(x, y, z) == samples@[index3(
                    self.width as nat,
                    self.height as nat,
                    x,
                    y,
                    z,
                ) as int] by {
                    lemma_index3_in_bounds(
                        self.width as nat,
                        self.height as nat,
                        self.depth as nat,
                        x,
                        y,
                        z,
                    );
                }
            }
            Ok(())
        } else {
            Err(NoiseError::IndexOutOfRange)
        }
    }

    /// Cross-section at a fixed X coordinate. The output's columns run
    /// along the volume's Y axis and its rows along the Z axis, so the
    /// slice has dimensions `(height, depth)` and
    /// `slice.get(y, z) == volume.get(x_level, y, z)`.
    pub fn get_slice_x(&self, x_level: u32) -> (r: Result<NoiseMap2D, NoiseError>)
        requires
            self.wf(),
        ensures
            (x_level as nat) < self.width ==> ({
                &&& r matches Ok(m)
                &&& m.wf()
                &&& m.width == self.height
                &&& m.height == self.depth
                &&& forall|y: nat, z: nat|
                    y < self.height && z < self.depth ==> #[trigger] m.sample_at(y, z)
                        == self.sample_at(x_level as nat, y, z)
            }),
            (x_level as nat) >= self.width ==> r == Err::<NoiseMap2D, NoiseError>(
                NoiseError::IndexOutOfRange,
            ),
    {
        if (x_level as usize) >= self.width {
            return Err(NoiseError::IndexOutOfRange);
        }
        let x = x_level as usize;
        let mut buffer: Vec<u32> = Vec::new();
        let mut z: usize = 0;
        while z < self.depth
            invariant
                self.wf(),
                x < self.width,
                z <= self.depth,
                buffer@.len() == z * self.height,
                forall|yy: nat, zz: nat|
                    yy < self.height && zz < z ==> buffer@[index2(self.height as nat, yy, zz) as int]
                        == #[trigger] self.sample_at(x as nat, yy, zz),
            decreases self.depth - z,
        {
            let mut y: usize = 0;
            while y < self.height
                invariant
                    self.wf(),
                    x < self.width,
                    z < self.depth,
                    y <= self.height,
                    buffer@.len() == z * self.height + y,
                    forall|yy: nat, zz: nat|
                        yy < self.height && zz < z ==> buffer@[index2(
                            self.height as nat,
                            yy,
                            zz,
                        ) as int] == #[trigger] self.sample_at(x as nat, yy, zz),
                    forall|yy: nat|
                        yy < y ==> buffer@[index2(self.height as nat, yy, z as nat) as int]
                            == #[trigger] self.sample_at(x as nat, yy, z as nat),
                decreases self.height - y,
            {
                let idx = self.cell_index(x, y, z);
                buffer.push(self.buffer[idx]);
                proof {
                    assert forall|yy: nat, zz: nat| yy < self.height && zz < z implies buffer@[index2(
                        self.height as nat,
                        yy,
                        zz,
                    ) as int] == #[trigger] self.sample_at(x as nat, yy, zz) by {
                        lemma_index2_in_bounds(self.height as nat, z as nat, yy, zz);
                    }
                }
                y = y + 1;
            }
            proof {
                assert((z + 1) * self.height == z * self.height + self.height)
                    by (nonlinear_arith);
            }
            z = z + 1;
        }
        proof {
            assert(self.depth * self.height == self.height * self.depth) by (nonlinear_arith);
        }
        let m = NoiseMap2D { width: self.height, height: self.depth, buffer };
        Ok(m)
    }

    /// Cross-section at a fixed Y coordinate. The output's columns run
    /// along the volume's X axis and its rows along the Z axis, so the
    /// slice has dimensions `(width, depth)` and
    /// `slice.get(x, z) == volume.get(x, y_level, z)`.
    pub fn get_slice_y(&self, y_level: u32) -> (r: Result<NoiseMap2D, NoiseError>)
        requires
            self.wf(),
        ensures
            (y_level as nat) < self.height ==> ({
                &&& r matches Ok(m)
                &&& m.wf()
                &&& m.width == self.width
                &&& m.height == self.depth
                &&& forall|x: nat, z: nat|
                    x < self.width && z < self.depth ==> #[trigger] m.sample_at(x, z)
                        == self.sample_at(x, y_level as nat, z)
            }),
            (y_level as nat) >= self.height ==> r == Err::<NoiseMap2D, NoiseError>(
                NoiseError::IndexOutOfRange,
            ),
    {
        if (y_level as usize) >= self.height {
            return Err(NoiseError::IndexOutOfRange);
        }
        let y = y_level as usize;
        let mut buffer: Vec<u32> = Vec::new();
        let mut z: usize = 0;
        while z < self.depth
            invariant
                self.wf(),
                y < self.height,
                z <= self.depth,
                buffer@.len() == z * self.width,
                forall|xx: nat, zz: nat|
                    xx < self.width && zz < z ==> buffer@[index2(self.width as nat, xx, zz) as int]
                        == #[trigger] self.sample_at(xx, y as nat, zz),
            decreases self.depth - z,
        {
            let mut x: usize = 0;
            while x < self.width
                invariant
                    self.wf(),
                    y < self.height,
                    z < self.depth,
                    x <= self.width,
                    buffer@.len() == z * self.width + x,
                    forall|xx: nat, zz: nat|
                        xx < self.width && zz < z ==> buffer@[index2(
                            self.width as nat,
                            xx,
                            zz,
                        ) as int] == #[trigger] self.sample_at(xx, y as nat, zz),
                    forall|xx: nat|
                        xx < x ==> buffer@[index2(self.width as nat, xx, z as nat) as int]
                            == #[trigger] self.sample_at(xx, y as nat, z as nat),
                decreases self.width - x,
            {
                let idx = self.cell_index(x, y, z);
                buffer.push(self.buffer[idx]);
                proof {
                    assert forall|xx: nat, zz: nat| xx < self.width && zz < z implies buffer@[index2(
                        self.width as nat,
                        xx,
                        zz,
                    ) as int] == #[trigger] self.sample_at(xx, y as nat, zz) by {
                        lemma_index2_in_bounds(self.width as nat, z as nat, xx, zz);
                    }
                }
                x = x + 1;
            }
            proof {
                assert((z + 1) * self.width == z * self.width + self.width) by (nonlinear_arith);
            }
            z = z + 1;
        }
        proof {
            assert(self.depth * self.width == self.width * self.depth) by (nonlinear_arith);
        }
        let m = NoiseMap2D { width: self.width, height: self.depth, buffer };
        Ok(m)
    }

    /// Cross-section at a fixed Z coordinate. The output keeps the
    /// volume's planar dimensions `(width, height)` and
    /// `slice.get(x, y) == volume.get(x, y, z_level)`.
    pub fn get_slice_z(&self, z_level: u32) -> (r: Result<NoiseMap2D, NoiseError>)
        requires
            self.wf(),
        ensures
            (z_level as nat) < self.depth ==> ({
                &&& r matches Ok(m)
                &&& m.wf()
                &&& m.width == self.width
                &&& m.height == self.height
                &&& forall|x: nat, y: nat|
                    x < self.width && y < self.height ==> #[trigger] m.sample_at(x, y)
                        == self.sample_at(x, y, z_level as nat)
            }),
            (z_level as nat) >= self.depth ==> r == Err::<NoiseMap2D, NoiseError>(
                NoiseError::IndexOutOfRange,
            ),
    {
        if (z_level as usize) >= self.depth {
            return Err(NoiseError::IndexOutOfRange);
        }
        let z = z_level as usize;
        let mut buffer: Vec<u32> = Vec::new();
        let mut y: usize = 0;
        while y < self.height
            invariant
                self.wf(),
                z < self.depth,
                y <= self.height,
                buffer@.len() == y * self.width,
                forall|xx: nat, yy: nat|
                    xx < self.width && yy < y ==> buffer@[index2(self.width as nat, xx, yy) as int]
                        == #[trigger] self.sample_at(xx, yy, z as nat),
            decreases self.height - y,
        {
            let mut x: usize = 0;
            while x < self.width
                invariant
                    self.wf(),
                    z < self.depth,
                    y < self.height,
                    x <= self.width,
                    buffer@.len() == y * self.width + x,
                    forall|xx: nat, yy: nat|
                        xx < self.width && yy < y ==> buffer@[index2(
                            self.width as nat,
                            xx,
                            yy,
                        ) as int] == #[trigger] self.sample_at(xx, yy, z as nat),
                    forall|xx: nat|
                        xx < x ==> buffer@[index2(self.width as nat, xx, y as nat) as int]
                            == #[trigger] self.sample_at(xx, y as nat, z as nat),
                decreases self.width - x,
            {
                let idx = self.cell_index(x, y, z);
                buffer.push(self.buffer[idx]);
                proof {
                    assert forall|xx: nat, yy: nat| xx < self.width && yy < y implies buffer@[index2(
                        self.width as nat,
                        xx,
                        yy,
                    ) as int] == #[trigger] self.sample_at(xx, yy, z as nat) by {
                        lemma_index2_in_bounds(self.width as nat, y as nat, xx, yy);
                    }
                }
                x = x + 1;
            }
            proof {
                assert((y + 1) * self.width == y * self.width + self.width) by (nonlinear_arith);
            }
            y = y + 1;
        }
        proof {
            assert(self.height * self.width == self.width * self.height) by (nonlinear_arith);
        }
        let m = NoiseMap2D { width: self.width, height: self.height, buffer };
        Ok(m)
    }
}

} // verus!
