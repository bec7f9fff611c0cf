//! TLV framing of Stratum V2 messages.
//!
//! A message is a TLV: a 2-byte tag, a 4-byte payload length (both
//! little-endian) and the payload.  On a stream each TLV is preceded by its
//! own length as 4 little-endian bytes.

use vstd::prelude::*;

use crate::encoding::{
    le_bytes, le_decode, le_value, lemma_le_bytes_len, lemma_le_value_of_le_bytes, pow256,
    push_all, push_le_bytes,
};
use crate::error::StratumV2Error;

verus! {

/// A TLV: tag, payload length, payload.
pub open spec fn tlv_bytes(tag: u16, payload: Seq<u8>) -> Seq<u8> {
    le_bytes(tag as int, 2) + le_bytes(payload.len() as int, 4) + payload
}

/// A TLV preceded by its length.
pub open spec fn frame_bytes(tag: u16, payload: Seq<u8>) -> Seq<u8> {
    le_bytes((6 + payload.len()) as int, 4) + tlv_bytes(tag, payload)
}

/// Whether a payload of this length can be framed: the frame length must
/// fit in 4 bytes.
pub open spec fn payload_fits(len: nat) -> bool {
    6 + len <= u32::MAX
}

/// What reading a TLV at the start of `data` gives: the tag and the payload,
/// or `None` when `data` is shorter than the header or than the payload it
/// announces.  Bytes after the payload are not read.
pub open spec fn tlv_read(data: Seq<u8>) -> Option<(u16, Seq<u8>)> {
    if data.len() < 6 {
        None
    } else {
        let n = le_value(data.subrange(2, 6));
        if data.len() < 6 + n {
            None
        } else {
            Some((le_value(data.subrange(0, 2)) as u16, data.subrange(6, 6 + n as int)))
        }
    }
}

/// The detail of the error when no TLV can be read at the start of `data`.
pub open spec fn tlv_read_error(data: Seq<u8>) -> Seq<char> {
    if data.len() < 6 {
        "Insufficient data for TLV header"@
    } else {
        "Insufficient data for TLV payload"@
    }
}

/// The detail of the error when no frame can be read at `pos` of `data`.
pub open spec fn frame_read_error(data: Seq<u8>, pos: int) -> Seq<char> {
    if data.len() < pos + 4 {
        "Insufficient data for frame length"@
    } else {
        let n = le_value(data.subrange(pos, pos + 4)) as int;
        if data.len() < pos + 4 + n {
            "Insufficient data for frame"@
        } else {
            tlv_read_error(data.subrange(pos + 4, pos + 4 + n))
        }
    }
}

/// What reading a length-prefixed TLV at `pos` of `data` gives: the tag,
/// the payload and the position after the frame; `None` when the length
/// prefix, the frame it announces or the TLV inside is incomplete.
pub open spec fn frame_read(data: Seq<u8>, pos: int) -> Option<(u16, Seq<u8>, int)> {
    if data.len() < pos + 4 {
        None
    } else {
        let n = le_value(data.subrange(pos, pos + 4)) as int;
        if data.len() < pos + 4 + n {
            None
        } else {
            match tlv_read(data.subrange(pos + 4, pos + 4 + n)) {
                Some((tag, payload)) => Some((tag, payload, pos + 4 + n)),
                None => None,
            }
        }
    }
}

/// A TLV read back gives its tag and payload, whatever follows it.
pub proof fn lemma_tlv_roundtrip(tag: u16, payload: Seq<u8>, rest: Seq<u8>)
    requires
        payload.len() <= u32::MAX,
    ensures
        tlv_read(tlv_bytes(tag, payload) + rest) == Some((tag, payload)),
{
    let d = tlv_bytes(tag, payload) + rest;
    lemma_le_bytes_len(tag as int, 2);
    lemma_le_bytes_len(payload.len() as int, 4);
    assert(pow256(2) == 0x10000 && pow256(4) == 0x1_0000_0000) by {
        reveal_with_fuel(pow256, 5);
    }
    assert(d.subrange(0, 2) =~= le_bytes(tag as int, 2));
    assert(d.subrange(2, 6) =~= le_bytes(payload.len() as int, 4));
    lemma_le_value_of_le_bytes(tag as nat, 2);
    lemma_le_value_of_le_bytes(payload.len(), 4);
    assert(d.subrange(6, 6 + payload.len() as int) =~= payload);
}

/// A frame read back gives its tag and payload and ends where the frame
/// ends, whatever follows it.
pub proof fn lemma_frame_roundtrip(tag: u16, payload: Seq<u8>, rest: Seq<u8>)
    requires
        payload_fits(payload.len()),
    ensures
        frame_read(frame_bytes(tag, payload) + rest, 0) == Some(
            (tag, payload, frame_bytes(tag, payload).len() as int),
        ),
        frame_bytes(tag, payload).len() == 10 + payload.len(),
{
    let d = frame_bytes(tag, payload) + rest;
    let n = 6 + payload.len();
    lemma_le_bytes_len(n as int, 4);
    lemma_le_bytes_len(tag as int, 2);
    lemma_le_bytes_len(payload.len() as int, 4);
    assert(pow256(4) == 0x1_0000_0000) by {
        reveal_with_fuel(pow256, 5);
    }
    assert(d.subrange(0, 4) =~= le_bytes(n as int, 4));
    lemma_le_value_of_le_bytes(n, 4);
    let inner = d.subrange(4, 4 + n as int);
    assert(inner =~= tlv_bytes(tag, payload) + Seq::<u8>::empty());
    lemma_tlv_roundtrip(tag, payload, Seq::<u8>::empty());
}

/// Encoder of length-prefixed TLV frames.
pub struct TlvEncoder {}

impl TlvEncoder {
    pub fn new() -> (res: Self) {
        TlvEncoder {  }
    }

    /// The frame of `payload` under `tag`; fails when the frame length does
    /// not fit in 4 bytes.
    pub fn encode(&mut self, tag: u16, payload: &[u8]) -> (res: Result<Vec<u8>, StratumV2Error>)
        ensures
            payload_fits(payload@.len()) ==> (res matches Ok(v) && v@ == frame_bytes(tag, payload@)),
            !payload_fits(payload@.len()) ==> (res matches Err(StratumV2Error::ProtocolError(m)) && m@
                == "TLV payload too large"@),
    {
        let len = payload.len();
        if len > 0xffff_fff9 {
            return Err(StratumV2Error::ProtocolError("TLV payload too large".to_owned()));
        }
        let mut out: Vec<u8> = Vec::new();
        push_le_bytes(&mut out, (6 + len) as u64, 4);
        push_le_bytes(&mut out, tag as u64, 2);
        push_le_bytes(&mut out, len as u64, 4);
        push_all(&mut out, payload);
        assert(out@ =~= frame_bytes(tag, payload@));
        Ok(out)
    }
}

/// Decoder of a buffer of length-prefixed TLV frames, read one after another.
pub struct TlvDecoder {
    buffer: Vec<u8>,
    position: usize,
}

impl TlvDecoder {
    /// The bytes being decoded.
    pub closed spec fn buffer(&self) -> Seq<u8> {
        self.buffer@
    }

    /// Where the next frame starts.
    pub closed spec fn position(&self) -> int {
        self.position as int
    }

    /// A decoder at the start of `data`.
    pub fn new(data: Vec<u8>) -> (res: Self)
        ensures
            res.buffer() == data@,
            res.position() == 0,
    {
        TlvDecoder { buffer: data, position: 0 }
    }

    /// Reads the next frame: its tag and payload.  On success the decoder
    /// moves past the frame; on failure it stays where it was.
    pub fn decode(&mut self) -> (res: Result<(u16, Vec<u8>), StratumV2Error>)
        requires
            old(self).position() <= old(self).buffer().len(),
        ensures
            final(self).buffer() == old(self).buffer(),
            final(self).position() <= final(self).buffer().len(),
            match frame_read(old(self).buffer(), old(self).position()) {
                Some((tag, payload, next)) => (res matches Ok(r) && r.0 == tag && r.1@ == payload)
                    && final(self).position() == next,
                None => (res matches Err(StratumV2Error::ProtocolError(m)) && m@ == frame_read_error(
                    old(self).buffer(),
                    old(self).position(),
                )) && final(self).position() == old(self).position(),
            },
    {
        let len = self.buffer.len();
        let pos = self.position;
        if len - pos < 4 {
            return Err(StratumV2Error::ProtocolError("Insufficient data for frame length".to_owned()));
        }
        let n = le_decode(self.buffer.as_slice(), pos, 4);
        if ((len - pos - 4) as u64) < n {
            return Err(StratumV2Error::ProtocolError("Insufficient data for frame".to_owned()));
        }
        let end = pos + 4 + n as usize;
        let frame = vstd::slice::slice_subrange(self.buffer.as_slice(), pos + 4, end);
        match TlvDecoder::decode_raw(frame) {
            Ok((tag, payload)) => {
                self.position = end;
                Ok((tag, payload))
            },
            Err(e) => Err(e),
        }
    }

    /// Reads a TLV (no length prefix) at the start of `data`.
    pub fn decode_raw(data: &[u8]) -> (res: Result<(u16, Vec<u8>), StratumV2Error>)
        ensures
            match tlv_read(data@) {
                Some((tag, payload)) => res matches Ok(r) && r.0 == tag && r.1@ == payload,
                None => res matches Err(StratumV2Error::ProtocolError(m)) && m@ == tlv_read_error(data@),
            },
    {
        let len = data.len();
        if len < 6 {
            return Err(StratumV2Error::ProtocolError("Insufficient data for TLV header".to_owned()));
        }
        let tag = le_decode(data, 0, 2);
        let n = le_decode(data, 2, 4);
        proof {
            crate::encoding::lemma_le_value_bound(data@.subrange(0, 2));
            assert(pow256(2) == 0x10000) by {
                reveal_with_fuel(pow256, 3);
            }
        }
        if ((len - 6) as u64) < n {
            return Err(StratumV2Error::ProtocolError("Insufficient data for TLV payload".to_owned()));
        }
        let payload = vstd::slice::slice_to_vec(
            vstd::slice::slice_subrange(data, 6, 6 + n as usize),
        );
        Ok((tag as u16, payload))
    }
}

} // verus!
