//! Resumable frame extraction from a stream buffer.
//!
//! Bytes arrive in arbitrary chunks; `FrameReader` appends them and hands
//! out one complete frame at a time. `spec_frames` is the mathematical
//! account: the complete frame payloads at the front of a byte sequence and
//! the leftover bytes, and `lemma_frames_chunked` shows that the frames do
//! not depend on how the bytes were split into chunks.

use vstd::prelude::*;
use crate::codec::{DecodeError, spec_dec_be32};
use crate::protocol::{Frame, spec_dec_msg};

verus! {

/// One extraction step: the first complete frame's payload and the bytes
/// after it, or `None` if no complete frame is buffered.
pub open spec fn spec_frame_step(b: Seq<u8>) -> Option<(Seq<u8>, Seq<u8>)> {
    match spec_dec_be32(b) {
        Err(_) => None,
        Ok((l, _)) => if b.len() < 4 + l {
            None
        } else {
            Some((b.subrange(4, 4 + l as int), b.skip(4 + l as int)))
        },
    }
}

/// All complete frame payloads at the front of `b`, and the leftover bytes.
pub open spec fn spec_frames(b: Seq<u8>) -> (Seq<Seq<u8>>, Seq<u8>)
    decreases b.len(),
{
    match spec_frame_step(b) {
        None => (Seq::empty(), b),
        Some((payload, rest)) => {
            let (frames, leftover) = spec_frames(rest);
            (seq![payload] + frames, leftover)
        },
    }
}

/// The length prefix reads the same on any extension of the buffer.
proof fn lemma_be32_prefix_stable(b: Seq<u8>, ext: Seq<u8>)
    requires
        b.len() >= 4,
    ensures
        spec_dec_be32(b + ext) == spec_dec_be32(b),
{
    let w = b + ext;
    assert(seq![w[3], w[2], w[1], w[0]] =~= seq![b[3], b[2], b[1], b[0]]);
}

/// Chunking does not change the frames: the frames of `b1 + b2` are the
/// frames of `b1` followed by the frames of `b1`'s leftover extended by
/// `b2`, with that run's leftover. Feeding a byte stream piecewise therefore
/// produces the same frame sequence as feeding it at once.
pub proof fn lemma_frames_chunked(b1: Seq<u8>, b2: Seq<u8>)
    ensures
        ({
            let (f1, r1) = spec_frames(b1);
            let (f2, r2) = spec_frames(r1 + b2);
            spec_frames(b1 + b2) == (f1 + f2, r2)
        }),
    decreases b1.len(),
{
    let (f1, r1) = spec_frames(b1);
    let (f2, r2) = spec_frames(r1 + b2);
    match spec_frame_step(b1) {
        None => {
            assert(r1 + b2 =~= b1 + b2);
            assert(f1 + f2 =~= f2);
        },
        Some((payload, rest)) => {
            let l = spec_dec_be32(b1)->Ok_0.0;
            lemma_be32_prefix_stable(b1, b2);
            assert((b1 + b2).subrange(4, 4 + l as int) =~= payload);
            assert((b1 + b2).skip(4 + l as int) =~= rest + b2);
            lemma_frames_chunked(rest, b2);
            let (fr, rr) = spec_frames(rest);
            assert(r1 == rr);
            let (fs, rs) = spec_frames(rr + b2);
            assert(seq![payload] + (fr + fs) =~= (seq![payload] + fr) + fs);
        },
    }
}

/// Buffers stream bytes and yields complete frames as they arrive.
pub struct FrameReader {
    buffer: Vec<u8>,
}

impl View for FrameReader {
    type V = Seq<u8>;

    closed spec fn view(&self) -> Seq<u8> {
        self.buffer@
    }
}

impl FrameReader {
    /// Starts with an empty buffer.
    pub fn new() -> (r: FrameReader)
        ensures
            r@ == Seq::<u8>::empty(),
    {
        FrameReader { buffer: Vec::new() }
    }

    /// Appends newly received bytes to the buffer.
    pub fn feed_data(&mut self, data: &[u8])
        ensures
            final(self)@ == old(self)@ + data@,
    {
        self.buffer.extend_from_slice(data);
    }

    /// Drops everything buffered.
    pub fn clear(&mut self)
        ensures
            final(self)@ == Seq::<u8>::empty(),
    {
        self.buffer.clear();
    }

    /// Hands out the first buffered frame, if one is complete.
    ///
    /// Returns `Ok(None)` and keeps the buffer when fewer than a header or a
    /// full frame is buffered; on a complete frame whose payload decodes, it
    /// removes the frame's bytes and returns the message; a payload that
    /// does not decode is an error and the buffer is kept.
    pub fn try_read_frame(&mut self) -> (r: Result<Option<Frame>, DecodeError>)
        ensures
            match spec_frame_step(old(self)@) {
                None => r == Ok::<Option<Frame>, DecodeError>(None)
                    && final(self)@ == old(self)@,
                Some((payload, rest)) => match spec_dec_msg(payload) {
                    Err(e) => r == Err::<Option<Frame>, DecodeError>(e)
                        && final(self)@ == old(self)@,
                    Ok((m, _)) => (r matches Ok(o) && o matches Some(f) && f.message@ == m
                        && f.length as nat == payload.len() && final(self)@ == rest),
                },
            },
    {
        if self.buffer.len() < 4 {
            return Ok(None);
        }
        match crate::codec::dec_be32(self.buffer.as_slice(), 0) {
            Err(_) => {
                // four bytes are buffered, so the header always reads
                proof {
                    assert(self.buffer@.skip(0) =~= self.buffer@);
                }
                Ok(None)
            },
            Ok((l, _)) => {
                proof {
                    assert(self.buffer@.skip(0) =~= self.buffer@);
                }
                let l_us = l as usize;
                if self.buffer.len() - 4 < l_us {
                    return Ok(None);
                }
                match Frame::deserialize(self.buffer.as_slice()) {
                    Err(e) => {
                        proof {
                            let b = old(self)@;
                            let sl = spec_dec_be32(b)->Ok_0.0;
                            assert(b.subrange(4, 4 + sl as int)
                                == spec_frame_step(b)->Some_0.0);
                        }
                        Err(e)
                    },
                    Ok((frame, consumed)) => {
                        let rest = self.buffer.split_off(consumed);
                        self.buffer = rest;
                        proof {
                            let b = old(self)@;
                            let sl = spec_dec_be32(b)->Ok_0.0;
                            assert(b.subrange(4 + sl as int, b.len() as int)
                                =~= b.skip(4 + sl as int));
                        }
                        Ok(Some(frame))
                    },
                }
            },
        }
    }
}

} // verus!
