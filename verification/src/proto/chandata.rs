//! The ChannelData frame: two bytes of channel number, two bytes of length,
//! the payload, and zeros up to the next multiple of four bytes.

use crate::allocation::channel_bind::{is_valid_channel_number, valid_channel_number};
use vstd::prelude::*;

verus! {

/// The bytes before the payload.
pub const CHANNEL_DATA_HEADER_SIZE: usize = 4;

/// The longest payload whose length the frame can hold.
pub const MAX_CHANNEL_DATA_SIZE: usize = 0xFFFF;

/// The zeros that follow a payload of `n` bytes.
pub open spec fn padding(n: int) -> int {
    if n % 4 == 0 {
        0
    } else {
        4 - n % 4
    }
}

/// The first of the two bytes that spell `x` in network order.
pub open spec fn high_byte(x: u16) -> u8 {
    (x / 256) as u8
}

/// The second of them.
pub open spec fn low_byte(x: u16) -> u8 {
    (x % 256) as u8
}

/// The number that two bytes spell in network order.
pub open spec fn from_bytes(high: u8, low: u8) -> u16 {
    (high * 256 + low) as u16
}

/// The frame that carries `data` on channel `number`.
pub open spec fn channel_data_frame(number: u16, data: Seq<u8>) -> Seq<u8> {
    seq![
        high_byte(number),
        low_byte(number),
        high_byte(data.len() as u16),
        low_byte(data.len() as u16),
    ] + data + Seq::new(padding(data.len() as int) as nat, |i: int| 0u8)
}

/// The channel number and payload of a frame, where `raw` is one: it has a
/// header, a channel number that can be bound, and as many bytes behind the
/// header as its length field says, at least.
pub open spec fn parse_channel_data(raw: Seq<u8>) -> Option<(u16, Seq<u8>)> {
    if raw.len() < 4 {
        None
    } else {
        let number = from_bytes(raw[0], raw[1]);
        let len = from_bytes(raw[2], raw[3]);
        if !valid_channel_number(number) || len > raw.len() - 4 {
            None
        } else {
            Some((number, raw.subrange(4, 4 + len)))
        }
    }
}

/// A payload on a channel.
#[derive(Debug, PartialEq, Eq)]
pub struct ChannelData {
    pub number: u16,
    pub data: Vec<u8>,
}

impl ChannelData {
    /// The frame of this payload.
    pub fn encode(&self) -> (raw: Vec<u8>)
        requires
            self.data@.len() <= 0xFFFF,
        ensures
            raw@ == channel_data_frame(self.number, self.data@),
    {
        encode_channel_data(self.number, self.data.as_slice())
    }

    /// Reads a frame.
    pub fn decode(raw: &[u8]) -> (r: Option<ChannelData>)
        ensures
            match r {
                Some(channel_data) => parse_channel_data(raw@) == Some(
                    (channel_data.number, channel_data.data@),
                ),
                None => parse_channel_data(raw@) is None,
            },
    {
        if raw.len() < CHANNEL_DATA_HEADER_SIZE {
            return None;
        }
        let number: u16 = (raw[0] as u16) * 256 + (raw[1] as u16);
        let len: usize = (raw[2] as usize) * 256 + (raw[3] as usize);
        if !is_valid_channel_number(number) || len > raw.len() - CHANNEL_DATA_HEADER_SIZE {
            return None;
        }
        let mut data: Vec<u8> = Vec::new();
        let mut i: usize = 0;
        while i < len
            invariant
                i <= len,
                len <= raw@.len() - 4,
                raw@.len() <= usize::MAX,
                data@ == raw@.subrange(4, 4 + i),
            decreases len - i,
        {
            data.push(raw[CHANNEL_DATA_HEADER_SIZE + i]);
            i += 1;
            proof {
                assert(data@ =~= raw@.subrange(4, 4 + i));
            }
        }
        Some(ChannelData { number, data })
    }

    /// Whether `raw` is a frame.
    pub fn is_channel_data(raw: &[u8]) -> (b: bool)
        ensures
            b == parse_channel_data(raw@) is Some,
    {
        if raw.len() < CHANNEL_DATA_HEADER_SIZE {
            return false;
        }
        let number: u16 = (raw[0] as u16) * 256 + (raw[1] as u16);
        let len: usize = (raw[2] as usize) * 256 + (raw[3] as usize);
        is_valid_channel_number(number) && len <= raw.len() - CHANNEL_DATA_HEADER_SIZE
    }
}

/// The frame that carries `data` on channel `number`.
pub fn encode_channel_data(number: u16, data: &[u8]) -> (raw: Vec<u8>)
    requires
        data@.len() <= 0xFFFF,
    ensures
        raw@ == channel_data_frame(number, data@),
{
    let len: u16 = data.len() as u16;
    let mut raw: Vec<u8> = Vec::new();
    raw.push((number / 256) as u8);
    raw.push((number % 256) as u8);
    raw.push((len / 256) as u8);
    raw.push((len % 256) as u8);
    let ghost header = raw@;
    let mut i: usize = 0;
    while i < data.len()
        invariant
            i <= data@.len(),
            raw@ == header + data@.subrange(0, i as int),
        decreases data@.len() - i,
    {
        raw.push(data[i]);
        i += 1;
        proof {
            assert(raw@ =~= header + data@.subrange(0, i as int));
        }
    }
    proof {
        assert(data@.subrange(0, data@.len() as int) =~= data@);
    }
    let rest: usize = data.len() % 4;
    let pad: usize = if rest == 0 {
        0
    } else {
        4 - rest
    };
    let ghost body = raw@;
    let mut j: usize = 0;
    while j < pad
        invariant
            j <= pad,
            raw@ == body + Seq::new(j as nat, |i: int| 0u8),
        decreases pad - j,
    {
        raw.push(0u8);
        j += 1;
        proof {
            assert(raw@ =~= body + Seq::new(j as nat, |i: int| 0u8));
        }
    }
    proof {
        assert(raw@ =~= channel_data_frame(number, data@));
    }
    raw
}

/// A frame is read back as the channel number and the payload that it was
/// made from.
pub proof fn lemma_frame_round_trip(number: u16, data: Seq<u8>)
    requires
        valid_channel_number(number),
        data.len() <= 0xFFFF,
    ensures
        parse_channel_data(channel_data_frame(number, data)) == Some((number, data)),
{
    let raw = channel_data_frame(number, data);
    let len = data.len() as u16;
    assert(raw.len() == 4 + data.len() + padding(data.len() as int));
    assert(raw[0] == high_byte(number) && raw[1] == low_byte(number));
    assert(raw[2] == high_byte(len) && raw[3] == low_byte(len));
    assert(from_bytes(high_byte(number), low_byte(number)) == number);
    assert(from_bytes(high_byte(len), low_byte(len)) == len);
    assert(raw.subrange(4, 4 + len) =~= data);
}

/// The length of a frame is a multiple of four.
pub proof fn lemma_frame_aligned(number: u16, data: Seq<u8>)
    ensures
        channel_data_frame(number, data).len() % 4 == 0,
        channel_data_frame(number, data).len() == 4 + data.len() + padding(data.len() as int),
{
}

} // verus!
