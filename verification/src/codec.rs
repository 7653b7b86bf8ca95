use vstd::arithmetic::div_mod::lemma_fundamental_div_mod;
use vstd::arithmetic::div_mod::lemma_mod_bound;
use vstd::arithmetic::mul::lemma_mul_upper_bound;
use vstd::bytes::*;
use vstd::prelude::*;
use vstd::slice::slice_subrange;

use crate::errors::NoiseError;
use crate::map2d::NoiseMap2D;
use crate::map3d::NoiseMap3D;
use crate::pathext::has_extension;
use crate::pathext::spec_has_extension;

verus! {

/// The little-endian encoding of a run of samples, four bytes each, in
/// buffer order.
pub open spec fn spec_encode_samples(samples: Seq<u32>) -> Seq<u8>
    decreases samples.len(),
{
    if samples.len() == 0 {
        Seq::empty()
    } else {
        spec_u32_to_le_bytes(samples[0]) + spec_encode_samples(samples.drop_first())
    }
}

pub proof fn lemma_encode_samples_len(samples: Seq<u32>)
    ensures
        spec_encode_samples(samples).len() == 4 * samples.len(),
    decreases samples.len(),
{
    lemma_auto_spec_u32_to_from_le_bytes();
    if samples.len() > 0 {
        lemma_encode_samples_len(samples.drop_first());
    }
}

pub proof fn lemma_encode_samples_index(samples: Seq<u32>, i: int)
    requires
        0 <= i < samples.len(),
    ensures
        spec_encode_samples(samples).subrange(4 * i, 4 * i + 4) == spec_u32_to_le_bytes(
            samples[i],
        ),
    decreases samples.len(),
{
    lemma_auto_spec_u32_to_from_le_bytes();
    lemma_encode_samples_len(samples);
    lemma_encode_samples_len(samples.drop_first());
    let enc = spec_encode_samples(samples);
    let head = spec_u32_to_le_bytes(samples[0]);
    let tail = spec_encode_samples(samples.drop_first());
    if i == 0 {
        assert(enc.subrange(0, 4) =~= head);
    } else {
        lemma_encode_samples_index(samples.drop_first(), i - 1);
        assert(enc.subrange(4 * i, 4 * i + 4) =~= tail.subrange(4 * (i - 1), 4 * (i - 1) + 4));
        assert(samples.drop_first()[i - 1] == samples[i]);
    }
}

pub proof fn lemma_encode_samples_push(samples: Seq<u32>, value: u32)
    ensures
        spec_encode_samples(samples.push(value)) == spec_encode_samples(samples)
            + spec_u32_to_le_bytes(value),
    decreases samples.len(),
{
    if samples.len() == 0 {
        let p = samples.push(value);
        assert(p[0] == value);
        assert(p.drop_first() =~= Seq::<u32>::empty());
        assert(spec_encode_samples(p) == spec_u32_to_le_bytes(value) + spec_encode_samples(
            Seq::<u32>::empty(),
        ));
        assert(spec_encode_samples(p) =~= spec_encode_samples(samples) + spec_u32_to_le_bytes(
            value,
        ));
    } else {
        lemma_encode_samples_push(samples.drop_first(), value);
        assert(samples.push(value).drop_first() =~= samples.drop_first().push(value));
        assert(spec_encode_samples(samples.push(value)) =~= spec_encode_samples(samples)
            + spec_u32_to_le_bytes(value));
    }
}

/// The samples declared by a byte run: `count` samples read from
/// consecutive four-byte chunks starting at `offset`.
pub open spec fn spec_decoded_samples(bytes: Seq<u8>, offset: int, count: nat) -> Seq<u32> {
    Seq::new(
        count,
        |i: int| spec_u32_from_le_bytes(bytes.subrange(offset + 4 * i, offset + 4 * i + 4)),
    )
}

/// The bytes of a 2D field file: an 8-byte width, an 8-byte height,
/// then the samples, all little-endian.
pub open spec fn spec_encode2d(width: u64, height: u64, samples: Seq<u32>) -> Seq<u8> {
    spec_u64_to_le_bytes(width) + spec_u64_to_le_bytes(height) + spec_encode_samples(samples)
}

/// The decoding relation of the 2D format: `None` exactly when fewer
/// bytes are present than the declared dimensions require.
pub open spec fn spec_decode2d(bytes: Seq<u8>) -> Option<(u64, u64, Seq<u32>)> {
    if bytes.len() < 16 {
        None
    } else {
        let width = spec_u64_from_le_bytes(bytes.subrange(0, 8));
        let height = spec_u64_from_le_bytes(bytes.subrange(8, 16));
        if bytes.len() < 16 + 4 * (width * height) {
            None
        } else {
            Some((width, height, spec_decoded_samples(bytes, 16, (width * height) as nat)))
        }
    }
}

/// The bytes of a 3D field file: an 8-byte width, height and depth,
/// then the samples, all little-endian.
pub open spec fn spec_encode3d(width: u64, height: u64, depth: u64, samples: Seq<u32>) -> Seq<
    u8,
> {
    spec_u64_to_le_bytes(width) + spec_u64_to_le_bytes(height) + spec_u64_to_le_bytes(depth)
        + spec_encode_samples(samples)
}

/// The decoding relation of the 3D format: `None` exactly when fewer
/// bytes are present than the declared dimensions require.
pub open spec fn spec_decode3d(bytes: Seq<u8>) -> Option<(u64, u64, u64, Seq<u32>)> {
    if bytes.len() < 24 {
        None
    } else {
        let width = spec_u64_from_le_bytes(bytes.subrange(0, 8));
        let height = spec_u64_from_le_bytes(bytes.subrange(8, 16));
        let depth = spec_u64_from_le_bytes(bytes.subrange(16, 24));
        if bytes.len() < 24 + 4 * (width * height * depth) {
            None
        } else {
            Some(
                (
                    width,
                    height,
                    depth,
                    spec_decoded_samples(bytes, 24, (width * height * depth) as nat),
                ),
            )
        }
    }
}

/// Round trip of the 2D format: decoding an encoded field yields
/// exactly the original dimensions and every sample, bit for bit.
pub proof fn lemma_round_trip_2d(width: u64, height: u64, samples: Seq<u32>)
    requires
        samples.len() == width * height,
    ensures
        spec_decode2d(spec_encode2d(width, height, samples)) == Some(
            (width, height, samples),
        ),
{
    lemma_auto_spec_u64_to_from_le_bytes();
    lemma_auto_spec_u32_to_from_le_bytes();
    lemma_encode_samples_len(samples);
    let enc = spec_encode2d(width, height, samples);
    let wb = spec_u64_to_le_bytes(width);
    let hb = spec_u64_to_le_bytes(height);
    let sb = spec_encode_samples(samples);
    assert(enc.subrange(0, 8) =~= wb);
    assert(enc.subrange(8, 16) =~= hb);
    let count = (width * height) as nat;
    let dec = spec_decoded_samples(enc, 16, count);
    assert forall|i: int| 0 <= i < count implies dec[i] == samples[i] by {
        lemma_encode_samples_index(samples, i);
        assert(enc.subrange(16 + 4 * i, 16 + 4 * i + 4) =~= sb.subrange(4 * i, 4 * i + 4));
    }
    assert(dec =~= samples);
}

/// Round trip of the 3D format: decoding an encoded volume yields
/// exactly the original dimensions and every sample, bit for bit.
pub proof fn lemma_round_trip_3d(width: u64, height: u64, depth: u64, samples: Seq<u32>)
    requires
        samples.len() == width * height * depth,
    ensures
        spec_decode3d(spec_encode3d(width, height, depth, samples)) == Some(
            (width, height, depth, samples),
        ),
{
    lemma_auto_spec_u64_to_from_le_bytes();
    lemma_auto_spec_u32_to_from_le_bytes();
    lemma_encode_samples_len(samples);
    let enc = spec_encode3d(width, height, depth, samples);
    let wb = spec_u64_to_le_bytes(width);
    let hb = spec_u64_to_le_bytes(height);
    let db = spec_u64_to_le_bytes(depth);
    let sb = spec_encode_samples(samples);
    assert(enc.subrange(0, 8) =~= wb);
    assert(enc.subrange(8, 16) =~= hb);
    assert(enc.subrange(16, 24) =~= db);
    let count = (width * height * depth) as nat;
    let dec = spec_decoded_samples(enc, 24, count);
    assert forall|i: int| 0 <= i < count implies dec[i] == samples[i] by {
        lemma_encode_samples_index(samples, i);
        assert(enc.subrange(24 + 4 * i, 24 + 4 * i + 4) =~= sb.subrange(4 * i, 4 * i + 4));
    }
    assert(dec =~= samples);
}

/// Appends the little-endian encoding of the samples to `out`.
fn encode_samples(out: &mut Vec<u8>, samples: &Vec<u32>)
    ensures
        final(out)@ == old(out)@ + spec_encode_samples(samples@),
{
    proof {
        assert(samples@.take(0) =~= Seq::<u32>::empty());
        assert(old(out)@ + spec_encode_samples(samples@.take(0)) =~= old(out)@);
    }
    let mut i: usize = 0;
    while i < samples.len()
        invariant
            i <= samples@.len(),
            out@ == old(out)@ + spec_encode_samples(samples@.take(i as int)),
        decreases samples@.len() - i,
    {
        let mut chunk = u32_to_le_bytes(samples[i]);
        out.append(&mut chunk);
        proof {
            lemma_encode_samples_push(samples@.take(i as int), samples@[i as int]);
            assert(samples@.take(i as int).push(samples@[i as int]) =~= samples@.take(
                i as int + 1,
            ));
            assert(out@ =~= old(out)@ + spec_encode_samples(samples@.take(i as int + 1)));
        }
        i = i + 1;
    }
    proof {
        assert(samples@.take(samples@.len() as int) =~= samples@);
    }
}

impl NoiseMap2D {
    /// Serializes the field in the 2D file layout. The path's
    /// `.noise2d` extension is validated before a single byte is
    /// produced; the caller owns writing the returned bytes out.
    pub fn save(&self, path: &str) -> (r: Result<Vec<u8>, NoiseError>)
        requires
            self.wf(),
        ensures
            spec_has_extension(path@, ".noise2d"@) ==> ({
                &&& r matches Ok(bytes)
                &&& bytes@ == spec_encode2d(self.width as u64, self.height as u64, self.buffer@)
            }),
            !spec_has_extension(path@, ".noise2d"@) ==> r == Err::<Vec<u8>, NoiseError>(
                NoiseError::InvalidExtension,
            ),
    {
        if !has_extension(path, ".noise2d") {
            return Err(NoiseError::InvalidExtension);
        }
        let mut out = u64_to_le_bytes(self.width as u64);
        let mut rest = u64_to_le_bytes(self.height as u64);
        out.append(&mut rest);
        encode_samples(&mut out, &self.buffer);
        proof {
            assert(out@ =~= spec_encode2d(self.width as u64, self.height as u64, self.buffer@));
        }
        Ok(out)
    }

    /// Rebuilds a 2D field from the bytes of a `.noise2d` file. The
    /// path is validated first; a byte run shorter than the declared
    /// dimensions require is reported as `TruncatedFile`, never padded
    /// with zeroes. Dimensions too large for the host's address space
    /// are reported as `TruncatedFile` as well, since no byte run on
    /// this host can back them.
    pub fn load(path: &str, bytes: &[u8]) -> (r: Result<NoiseMap2D, NoiseError>)
        ensures
            !spec_has_extension(path@, ".noise2d"@) ==> r == Err::<NoiseMap2D, NoiseError>(
                NoiseError::InvalidExtension,
            ),
            spec_has_extension(path@, ".noise2d"@) ==> match spec_decode2d(bytes@) {
                None => r == Err::<NoiseMap2D, NoiseError>(NoiseError::TruncatedFile),
                Some(dims) => {
                    if dims.0 as int <= usize::MAX as int && dims.1 as int <= usize::MAX as int {
                        &&& r matches Ok(m)
                        &&& m.wf()
                        &&& m.width as int == dims.0 as int
                        &&& m.height as int == dims.1 as int
                        &&& m.buffer@ == dims.2
                    } else {
                        r == Err::<NoiseMap2D, NoiseError>(NoiseError::TruncatedFile)
                    }
                },
            },
    {
        if !has_extension(path, ".noise2d") {
            return Err(NoiseError::InvalidExtension);
        }
        let n = bytes.len();
        if n < 16 {
            return Err(NoiseError::TruncatedFile);
        }
        let w = u64_from_le_bytes(slice_subrange(bytes, 0, 8));
        let h = u64_from_le_bytes(slice_subrange(bytes, 8, 16));
        if w > usize::MAX as u64 || h > usize::MAX as u64 {
            return Err(NoiseError::TruncatedFile);
        }
        let avail: usize = (n - 16) / 4;
        proof {
            lemma_mul_upper_bound(w as int, u64::MAX as int, h as int, u64::MAX as int);
            assert(w as int * h as int <= u128::MAX as int);
        }
        let prod: u128 = (w as u128) * (h as u128);
        if prod > avail as u128 {
            proof {
                lemma_fundamental_div_mod((n - 16) as int, 4);
                lemma_mod_bound((n - 16) as int, 4);
            }
            return Err(NoiseError::TruncatedFile);
        }
        let count = prod as usize;
        proof {
            lemma_fundamental_div_mod((n - 16) as int, 4);
            lemma_mod_bound((n - 16) as int, 4);
            assert(16 + 4 * count <= n);
        }
        let wu = w as usize;
        let hu = h as usize;
        let mut values: Vec<u32> = Vec::new();
        let mut i: usize = 0;
        while i < count
            invariant
                bytes@.len() == n,
                16 + 4 * count <= n,
                i <= count,
                values@.len() == i as int,
                forall|j: int|
                    0 <= j < i ==> values@[j] == spec_u32_from_le_bytes(
                        bytes@.subrange(16 + 4 * j, 16 + 4 * j + 4),
                    ),
            decreases count - i,
        {
            let off = 16 + 4 * i;
            let chunk = slice_subrange(bytes, off, off + 4);
            values.push(u32_from_le_bytes(chunk));
            i = i + 1;
        }
        let m = NoiseMap2D { width: wu, height: hu, buffer: values };
        proof {
            assert(m.buffer@ =~= spec_decoded_samples(bytes@, 16, (w * h) as nat));
        }
        Ok(m)
    }
}

impl NoiseMap3D {
    /// Serializes the volume in the 3D file layout. The path's
    /// `.noise3d` extension is validated before a single byte is
    /// produced; the caller owns writing the returned bytes out.
    pub fn save(&self, path: &str) -> (r: Result<Vec<u8>, NoiseError>)
        requires
            self.wf(),
        ensures
            spec_has_extension(path@, ".noise3d"@) ==> ({
                &&& r matches Ok(bytes)
                &&& bytes@ == spec_encode3d(
                    self.width as u64,
                    self.height as u64,
                    self.depth as u64,
                    self.buffer@,
                )
            }),
            !spec_has_extension(path@, ".noise3d"@) ==> r == Err::<Vec<u8>, NoiseError>(
                NoiseError::InvalidExtension,
            ),
    {
        if !has_extension(path, ".noise3d") {
            return Err(NoiseError::InvalidExtension);
        }
        let mut out = u64_to_le_bytes(self.width as u64);
        let mut rest = u64_to_le_bytes(self.height as u64);
        out.append(&mut rest);
        let mut rest = u64_to_le_bytes(self.depth as u64);
        out.append(&mut rest);
        encode_samples(&mut out, &self.buffer);
        proof {
            assert(out@ =~= spec_encode3d(
                self.width as u64,
                self.height as u64,
                self.depth as u64,
                self.buffer@,
            ));
        }
        Ok(out)
    }

    /// Rebuilds a 3D volume from the bytes of a `.noise3d` file. The
    /// path is validated first; a byte run shorter than the declared
    /// dimensions require is reported as `TruncatedFile`, never padded
    /// with zeroes. Dimensions too large for the host's address space
    /// are reported as `TruncatedFile` as well, since no byte run on
    /// this host can back them.
    pub fn load(path: &str, bytes: &[u8]) -> (r: Result<NoiseMap3D, NoiseError>)
        ensures
            !spec_has_extension(path@, ".noise3d"@) ==> r == Err::<NoiseMap3D, NoiseError>(
                NoiseError::InvalidExtension,
            ),
            spec_has_extension(path@, ".noise3d"@) ==> match spec_decode3d(bytes@) {
                None => r == Err::<NoiseMap3D, NoiseError>(NoiseError::TruncatedFile),
                Some(dims) => {
                    if dims.0 as int <= usize::MAX as int && dims.1 as int <= usize::MAX as int
                        && dims.2 as int <= usize::MAX as int {
                        &&& r matches Ok(m)
                        &&& m.wf()
                        &&& m.width as int == dims.0 as int
                        &&& m.height as int == dims.1 as int
                        &&& m.depth as int == dims.2 as int
                        &&& m.buffer@ == dims.3
                    } else {
                        r == Err::<NoiseMap3D, NoiseError>(NoiseError::TruncatedFile)
                    }
                },
            },
    {
        if !has_extension(path, ".noise3d") {
            return Err(NoiseError::InvalidExtension);
        }
        let n = bytes.len();
        if n < 24 {
            return Err(NoiseError::TruncatedFile);
        }
        let w = u64_from_le_bytes(slice_subrange(bytes, 0, 8));
        let h = u64_from_le_bytes(slice_subrange(bytes, 8, 16));
        let d = u64_from_le_bytes(slice_subrange(bytes, 16, 24));
        if w > usize::MAX as u64 || h > usize::MAX as u64 || d > usize::MAX as u64 {
            return Err(NoiseError::TruncatedFile);
        }
        let wu = w as usize;
        let hu = h as usize;
        let du = d as usize;
        if d == 0 {
            let m = NoiseMap3D { width: wu, height: hu, depth: du, buffer: Vec::new() };
            proof {
                assert(m.width * m.height * m.depth == 0) by (nonlinear_arith)
                    requires
                        m.depth == 0,
                ;
                assert(m.buffer@ =~= spec_decoded_samples(bytes@, 24, (w * h * d) as nat));
            }
            return Ok(m);
        }
        let avail: usize = (n - 24) / 4;
        proof {
            lemma_mul_upper_bound(w as int, u64::MAX as int, h as int, u64::MAX as int);
            assert(w as int * h as int <= u128::MAX as int);
        }
        let prod2: u128 = (w as u128) * (h as u128);
        if prod2 > avail as u128 {
            proof {
                lemma_fundamental_div_mod((n - 24) as int, 4);
                lemma_mod_bound((n - 24) as int, 4);
                assert(w as int * h as int * (d as int) > avail as int) by (nonlinear_arith)
                    requires
                        w as int * h as int > avail as int,
                        d as int >= 1,
                ;
            }
            return Err(NoiseError::TruncatedFile);
        }
        proof {
            lemma_mul_upper_bound(prod2 as int, u64::MAX as int, d as int, u64::MAX as int);
            assert(prod2 as int * (d as int) <= u128::MAX as int);
        }
        let prod3: u128 = prod2 * (d as u128);
        if prod3 > avail as u128 {
            proof {
                lemma_fundamental_div_mod((n - 24) as int, 4);
                lemma_mod_bound((n - 24) as int, 4);
            }
            return Err(NoiseError::TruncatedFile);
        }
        let count = prod3 as usize;
        proof {
            lemma_fundamental_div_mod((n - 24) as int, 4);
            lemma_mod_bound((n - 24) as int, 4);
            assert(24 + 4 * count <= n);
        }
        let mut values: Vec<u32> = Vec::new();
        let mut i: usize = 0;
        while i < count
            invariant
                bytes@.len() == n,
                24 + 4 * count <= n,
                i <= count,
                values@.len() == i as int,
                forall|j: int|
                    0 <= j < i ==> values@[j] == spec_u32_from_le_bytes(
                        bytes@.subrange(24 + 4 * j, 24 + 4 * j + 4),
                    ),
            decreases count - i,
        {
            let off = 24 + 4 * i;
            let chunk = slice_subrange(bytes, off, off + 4);
            values.push(u32_from_le_bytes(chunk));
            i = i + 1;
        }
        let m = NoiseMap3D { width: wu, height: hu, depth: du, buffer: values };
        proof {
            assert(m.buffer@ =~= spec_decoded_samples(bytes@, 24, (w * h * d) as nat));
        }
        Ok(m)
    }
}

} // verus!
