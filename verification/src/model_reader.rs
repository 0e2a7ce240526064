//! Sequential, forward-only, little-endian decoder over a byte buffer.
//!
//! Every read either returns exactly the value encoded at the cursor and
//! advances the cursor past it, or fails with `TruncatedInput` when fewer
//! bytes remain than the read requires.  The cursor never moves backward.

use vstd::prelude::*;

use crate::errors::PredictError;

verus! {

/// Little-endian unsigned 32-bit value of a 4-byte sequence.
pub open spec fn spec_le_u32(b: Seq<u8>) -> int
    recommends
        b.len() == 4,
{
    b[0] + b[1] * 0x100 + b[2] * 0x1_0000 + b[3] * 0x100_0000
}

/// Little-endian two's-complement 32-bit value of a 4-byte sequence.
pub open spec fn spec_le_i32(b: Seq<u8>) -> int
    recommends
        b.len() == 4,
{
    if spec_le_u32(b) < 0x8000_0000 {
        spec_le_u32(b)
    } else {
        spec_le_u32(b) - 0x1_0000_0000
    }
}

/// Little-endian unsigned 64-bit value of an 8-byte sequence.
pub open spec fn spec_le_u64(b: Seq<u8>) -> int
    recommends
        b.len() == 8,
{
    spec_le_u32(b.subrange(0, 4)) + spec_le_u32(b.subrange(4, 8)) * 0x1_0000_0000
}

/// Little-endian two's-complement 64-bit value of an 8-byte sequence.
pub open spec fn spec_le_i64(b: Seq<u8>) -> int
    recommends
        b.len() == 8,
{
    if spec_le_u64(b) < 0x8000_0000_0000_0000 {
        spec_le_u64(b)
    } else {
        spec_le_u64(b) - 0x1_0000_0000_0000_0000
    }
}

/// Cursor over an in-memory model stream.
pub struct ModelReader {
    data: Vec<u8>,
    pos: usize,
}

impl ModelReader {
    /// The whole underlying byte stream.
    pub closed spec fn bytes(&self) -> Seq<u8> {
        self.data@
    }

    /// The read cursor.
    pub closed spec fn pos(&self) -> int {
        self.pos as int
    }

    /// The cursor never passes the end of the stream (which itself fits
    /// in memory).
    pub open spec fn wf(&self) -> bool {
        0 <= self.pos() <= self.bytes().len() <= usize::MAX
    }

    /// Bytes not yet consumed.
    pub open spec fn remaining(&self) -> int {
        self.bytes().len() - self.pos()
    }

    pub fn new(data: Vec<u8>) -> (r: ModelReader)
        ensures
            r.wf(),
            r.bytes() == data@,
            r.pos() == 0,
    {
        let n = data.len();
        proof {
            assert(data@.len() == n);
        }
        ModelReader { data, pos: 0 }
    }

    /// How many bytes are left before the end of the stream.
    pub fn remaining_len(&self) -> (r: usize)
        requires
            self.wf(),
        ensures
            r == self.remaining(),
    {
        self.data.len() - self.pos
    }

    /// Reads `n` raw bytes.
    pub fn read_bytes(&mut self, n: usize) -> (r: Result<Vec<u8>, PredictError>)
        requires
            old(self).wf(),
        ensures
            final(self).wf(),
            final(self).bytes() == old(self).bytes(),
            match r {
                Ok(v) => old(self).remaining() >= n && v@ == old(self).bytes().subrange(
                    old(self).pos(),
                    old(self).pos() + n,
                ) && final(self).pos() == old(self).pos() + n,
                Err(e) => old(self).remaining() < n && e == PredictError::TruncatedInput && *final(self) == *old(self),
            },
    {
        if n > self.data.len() - self.pos {
            return Err(PredictError::TruncatedInput);
        }
        let mut v: Vec<u8> = Vec::new();
        let mut i: usize = 0;
        while i < n
            invariant
                self.pos + n <= self.data.len(),
                i <= n,
                v@ == self.data@.subrange(self.pos as int, self.pos + i),
            decreases n - i,
        {
            v.push(self.data[self.pos + i]);
            proof {
                assert(v@ =~= self.data@.subrange(self.pos as int, self.pos + i + 1));
            }
            i = i + 1;
        }
        self.pos = self.pos + n;
        Ok(v)
    }

    /// Advances the cursor by `n` bytes without materializing them.
    pub fn skip(&mut self, n: usize) -> (r: Result<(), PredictError>)
        requires
            old(self).wf(),
        ensures
            final(self).wf(),
            final(self).bytes() == old(self).bytes(),
            match r {
                Ok(()) => old(self).remaining() >= n && final(self).pos() == old(self).pos() + n,
                Err(e) => old(self).remaining() < n && e == PredictError::TruncatedInput && *final(self) == *old(self),
            },
    {
        if n > self.data.len() - self.pos {
            return Err(PredictError::TruncatedInput);
        }
        self.pos = self.pos + n;
        Ok(())
    }

    /// Reads 4 bytes as an unsigned little-endian 32-bit value.
    pub fn read_u32_le(&mut self) -> (r: Result<u32, PredictError>)
        requires
            old(self).wf(),
        ensures
            final(self).wf(),
            final(self).bytes() == old(self).bytes(),
            match r {
                Ok(v) => old(self).remaining() >= 4 && v == spec_le_u32(
                    old(self).bytes().subrange(old(self).pos(), old(self).pos() + 4),
                ) && final(self).pos() == old(self).pos() + 4,
                Err(e) => old(self).remaining() < 4 && e == PredictError::TruncatedInput && *final(self) == *old(self),
            },
    {
        if 4 > self.data.len() - self.pos {
            return Err(PredictError::TruncatedInput);
        }
        let b0 = self.data[self.pos] as u32;
        let b1 = self.data[self.pos + 1] as u32;
        let b2 = self.data[self.pos + 2] as u32;
        let b3 = self.data[self.pos + 3] as u32;
        let v = b0 + b1 * 0x100 + b2 * 0x1_0000 + b3 * 0x100_0000;
        self.pos = self.pos + 4;
        Ok(v)
    }

    /// Reads 4 bytes as a signed little-endian 32-bit value.
    pub fn read_i32_le(&mut self) -> (r: Result<i32, PredictError>)
        requires
            old(self).wf(),
        ensures
            final(self).wf(),
            final(self).bytes() == old(self).bytes(),
            match r {
                Ok(v) => old(self).remaining() >= 4 && v == spec_le_i32(
                    old(self).bytes().subrange(old(self).pos(), old(self).pos() + 4),
                ) && final(self).pos() == old(self).pos() + 4,
                Err(e) => old(self).remaining() < 4 && e == PredictError::TruncatedInput && *final(self) == *old(self),
            },
    {
        let u = self.read_u32_le()?;
        if u < 0x8000_0000 {
            Ok(u as i32)
        } else {
            Ok(((u as i64) - 0x1_0000_0000) as i32)
        }
    }

    /// Reads 4 bytes as the bit pattern of a little-endian 32-bit float.
    pub fn read_f32_bits(&mut self) -> (r: Result<u32, PredictError>)
        requires
            old(self).wf(),
        ensures
            final(self).wf(),
            final(self).bytes() == old(self).bytes(),
            match r {
                Ok(v) => old(self).remaining() >= 4 && v == spec_le_u32(
                    old(self).bytes().subrange(old(self).pos(), old(self).pos() + 4),
                ) && final(self).pos() == old(self).pos() + 4,
                Err(e) => old(self).remaining() < 4 && e == PredictError::TruncatedInput && *final(self) == *old(self),
            },
    {
        self.read_u32_le()
    }

    /// Reads 8 bytes as an unsigned little-endian 64-bit value.
    pub fn read_u64_le(&mut self) -> (r: Result<u64, PredictError>)
        requires
            old(self).wf(),
        ensures
            final(self).wf(),
            final(self).bytes() == old(self).bytes(),
            match r {
                Ok(v) => old(self).remaining() >= 8 && v == spec_le_u64(
                    old(self).bytes().subrange(old(self).pos(), old(self).pos() + 8),
                ) && final(self).pos() == old(self).pos() + 8,
                Err(e) => old(self).remaining() < 8 && e == PredictError::TruncatedInput && *final(self) == *old(self),
            },
    {
        if 8 > self.data.len() - self.pos {
            return Err(PredictError::TruncatedInput);
        }
        let ghost whole = self.data@.subrange(self.pos as int, self.pos + 8);
        let lo = match self.read_u32_le() {
            Ok(x) => x,
            Err(_) => 0,
        };
        let hi = match self.read_u32_le() {
            Ok(x) => x,
            Err(_) => 0,
        };
        proof {
            assert(whole.subrange(0, 4) =~= old(self).bytes().subrange(
                old(self).pos(),
                old(self).pos() + 4,
            ));
            assert(whole.subrange(4, 8) =~= old(self).bytes().subrange(
                old(self).pos() + 4,
                old(self).pos() + 8,
            ));
        }
        Ok((lo as u64) + (hi as u64) * 0x1_0000_0000)
    }

    /// Reads 8 bytes as a signed little-endian 64-bit value.
    pub fn read_i64_le(&mut self) -> (r: Result<i64, PredictError>)
        requires
            old(self).wf(),
        ensures
            final(self).wf(),
            final(self).bytes() == old(self).bytes(),
            match r {
                Ok(v) => old(self).remaining() >= 8 && v == spec_le_i64(
                    old(self).bytes().subrange(old(self).pos(), old(self).pos() + 8),
                ) && final(self).pos() == old(self).pos() + 8,
                Err(e) => old(self).remaining() < 8 && e == PredictError::TruncatedInput && *final(self) == *old(self),
            },
    {
        let u = self.read_u64_le()?;
        if u < 0x8000_0000_0000_0000 {
            Ok(u as i64)
        } else {
            Ok(((u as i128) - 0x1_0000_0000_0000_0000) as i64)
        }
    }

    /// Consumes `count` 32-bit integers of a reserved or padding block,
    /// discarding their values.
    pub fn read_to_i32_buffer(&mut self, count: usize) -> (r: Result<(), PredictError>)
        requires
            old(self).wf(),
            count <= 0x1000,
        ensures
            final(self).wf(),
            final(self).bytes() == old(self).bytes(),
            match r {
                Ok(()) => old(self).remaining() >= 4 * count && final(self).pos() == old(self).pos()
                    + 4 * count,
                Err(e) => old(self).remaining() < 4 * count && e == PredictError::TruncatedInput
                    && *final(self) == *old(self),
            },
    {
        self.skip(4 * count)
    }

    /// Reads `count` signed little-endian 32-bit values.
    pub fn read_int_vec(&mut self, count: usize) -> (r: Result<Vec<i32>, PredictError>)
        requires
            old(self).wf(),
        ensures
            final(self).wf(),
            final(self).bytes() == old(self).bytes(),
            match r {
                Ok(v) => old(self).remaining() >= 4 * count && v@.len() == count && final(self).pos() == old(self).pos() + 4 * count && forall|i: int|
                    0 <= i < count ==> v@[i] == spec_le_i32(
                        old(self).bytes().subrange(
                            old(self).pos() + 4 * i,
                            old(self).pos() + 4 * i + 4,
                        ),
                    ),
                Err(e) => old(self).remaining() < 4 * count && e == PredictError::TruncatedInput
                    && *final(self) == *old(self),
            },
    {
        if count > (self.data.len() - self.pos) / 4 {
            return Err(PredictError::TruncatedInput);
        }
        let mut v: Vec<i32> = Vec::new();
        let mut i: usize = 0;
        while i < count
            invariant
                self.wf(),
                self.bytes() == old(self).bytes(),
                self.pos() == old(self).pos() + 4 * i,
                old(self).pos() + 4 * count <= self.bytes().len(),
                i <= count,
                v@.len() == i,
                forall|j: int|
                    0 <= j < i ==> v@[j] == spec_le_i32(
                        old(self).bytes().subrange(
                            old(self).pos() + 4 * j,
                            old(self).pos() + 4 * j + 4,
                        ),
                    ),
            decreases count - i,
        {
            let x = match self.read_i32_le() {
                Ok(x) => x,
                Err(e) => {
                    proof {
                        assert(false);
                    }
                    return Err(e);
                },
            };
            v.push(x);
            i = i + 1;
        }
        Ok(v)
    }

    /// Reads `count` 32-bit float bit patterns.
    pub fn read_float_vec(&mut self, count: usize) -> (r: Result<Vec<u32>, PredictError>)
        requires
            old(self).wf(),
        ensures
            final(self).wf(),
            final(self).bytes() == old(self).bytes(),
            match r {
                Ok(v) => old(self).remaining() >= 4 * count && v@.len() == count && final(self).pos() == old(self).pos() + 4 * count && forall|i: int|
                    0 <= i < count ==> v@[i] == spec_le_u32(
                        old(self).bytes().subrange(
                            old(self).pos() + 4 * i,
                            old(self).pos() + 4 * i + 4,
                        ),
                    ),
                Err(e) => old(self).remaining() < 4 * count && e == PredictError::TruncatedInput
                    && *final(self) == *old(self),
            },
    {
        if count > (self.data.len() - self.pos) / 4 {
            return Err(PredictError::TruncatedInput);
        }
        let mut v: Vec<u32> = Vec::new();
        let mut i: usize = 0;
        while i < count
            invariant
                self.wf(),
                self.bytes() == old(self).bytes(),
                self.pos() == old(self).pos() + 4 * i,
                old(self).pos() + 4 * count <= self.bytes().len(),
                i <= count,
                v@.len() == i,
                forall|j: int|
                    0 <= j < i ==> v@[j] == spec_le_u32(
                        old(self).bytes().subrange(
                            old(self).pos() + 4 * j,
                            old(self).pos() + 4 * j + 4,
                        ),
                    ),
            decreases count - i,
        {
            let x = match self.read_f32_bits() {
                Ok(x) => x,
                Err(e) => {
                    proof {
                        assert(false);
                    }
                    return Err(e);
                },
            };
            v.push(x);
            i = i + 1;
        }
        Ok(v)
    }

    /// Result of decoding a length-prefixed byte string at `p`: the length
    /// is a signed 64-bit value followed by that many raw bytes.
    pub open spec fn spec_len_prefixed_ok(b: Seq<u8>, p: int) -> bool {
        &&& p + 8 <= b.len()
        &&& 0 <= spec_le_i64(b.subrange(p, p + 8))
        &&& p + 8 + spec_le_i64(b.subrange(p, p + 8)) <= b.len()
    }

    /// The bytes of the length-prefixed string at `p`.
    pub open spec fn spec_len_prefixed_bytes(b: Seq<u8>, p: int) -> Seq<u8> {
        b.subrange(p + 8, p + 8 + spec_le_i64(b.subrange(p, p + 8)))
    }

    /// Reads a length-prefixed byte string: a signed 64-bit length, then
    /// that many raw bytes.  Used for the objective and booster names.
    pub fn read_u8_vec_len(&mut self) -> (r: Result<Vec<u8>, PredictError>)
        requires
            old(self).wf(),
        ensures
            final(self).wf(),
            final(self).bytes() == old(self).bytes(),
            match r {
                Ok(v) => Self::spec_len_prefixed_ok(old(self).bytes(), old(self).pos()) && v@
                    == Self::spec_len_prefixed_bytes(old(self).bytes(), old(self).pos()) && final(self).pos() == old(self).pos() + 8 + v@.len(),
                Err(e) => !Self::spec_len_prefixed_ok(old(self).bytes(), old(self).pos()) && e
                    == PredictError::TruncatedInput,
            },
    {
        let n = self.read_i64_le()?;
        if n < 0 {
            return Err(PredictError::TruncatedInput);
        }
        let rem = self.data.len() - self.pos;
        if n as u64 > rem as u64 {
            return Err(PredictError::TruncatedInput);
        }
        let v = match self.read_bytes(n as usize) {
            Ok(v) => v,
            Err(e) => {
                proof {
                    assert(false);
                }
                return Err(e);
            },
        };
        Ok(v)
    }
}

} // verus!
