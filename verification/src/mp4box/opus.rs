//! The Opus audio sample entry box and the Opus specific box inside it,
//! which are only written.
use crate::bigendian::{be_write_i16, be_write_u16, be_write_u32, u16_bytes, u32_bytes};
use crate::error::{Error, Result};
use crate::mp4box::{header_bytes, BoxHeader, Mp4Box, WriteBox};
use crate::types::{BoxType, FixedPointU16};
use vstd::prelude::*;

verus! {

/// The channel mapping family of an Opus stream: family 0 is mono or
/// stereo.
#[derive(Debug, Clone, Copy, PartialEq, Eq, Structural)]
pub enum ChannelMappingFamily {
    Family0 { stereo: bool },
}

/// The number of channels of a channel mapping.
pub open spec fn channel_count(f: ChannelMappingFamily) -> u8 {
    match f {
        ChannelMappingFamily::Family0 { stereo } => if stereo {
            2
        } else {
            1
        },
    }
}

/// The Opus specific box.
#[derive(Debug, Clone, Copy, PartialEq, Eq, Structural)]
pub struct DopsBox {
    pub version: u8,
    pub pre_skip: u16,
    pub input_sample_rate: u32,
    pub output_gain: i16,
    pub channel_mapping_family: ChannelMappingFamily,
}

/// The encoding of a dOps box, header included: the version, the channel
/// count, the pre-skip, the input sample rate, the output gain and the
/// mapping family 0.
pub open spec fn dops_bytes(b: DopsBox) -> Seq<u8> {
    header_bytes(BoxType::DopsBox, 19) + seq![b.version, channel_count(b.channel_mapping_family)] + u16_bytes(
        b.pre_skip,
    ) + u32_bytes(b.input_sample_rate) + u16_bytes(b.output_gain as u16) + seq![0u8]
}

impl Mp4Box for DopsBox {
    open spec fn has_size(&self) -> bool {
        true
    }

    fn box_type(&self) -> (t: BoxType)
        ensures
            t == BoxType::DopsBox,
    {
        BoxType::DopsBox
    }

    fn box_size(&self) -> (s: u64)
        ensures
            s == 19,
    {
        19
    }
}

impl WriteBox for DopsBox {
    open spec fn writable(&self) -> bool {
        true
    }

    fn write_box(&self, writer: &mut Vec<u8>) -> (res: Result<u64>)
        ensures
            final(writer)@ == old(writer)@ + dops_bytes(*self),
            res == Ok::<u64, Error>(19),
    {
        let mut written: u64 = 0;
        written = written + BoxHeader::new(self.box_type(), self.box_size()).write(writer)?;
        writer.push(self.version);
        written = written + 1;
        let num_channels: u8 = match self.channel_mapping_family {
            ChannelMappingFamily::Family0 { stereo } => if stereo {
                2
            } else {
                1
            },
        };
        writer.push(num_channels);
        written = written + 1;
        be_write_u16(writer, self.pre_skip);
        written = written + 2;
        be_write_u32(writer, self.input_sample_rate);
        written = written + 4;
        be_write_i16(writer, self.output_gain);
        written = written + 2;
        writer.push(0);
        written = written + 1;
        assert(final(writer)@ =~= old(writer)@ + dops_bytes(*self));
        Ok(written)
    }
}

/// The Opus sample entry box: the audio sample entry fields and the dOps
/// box.
#[derive(Debug, Clone, Copy, PartialEq, Eq, Structural)]
pub struct OpusBox {
    pub data_reference_index: u16,
    pub channelcount: u16,
    pub samplesize: u16,
    pub samplerate: FixedPointU16,
    pub dops: DopsBox,
}

/// The encoding of an Opus box, header included.
pub open spec fn opus_bytes(b: OpusBox) -> Seq<u8> {
    header_bytes(BoxType::OpusBox, 55) + u32_bytes(0) + u16_bytes(0) + u16_bytes(b.data_reference_index)
        + u16_bytes(0) + u16_bytes(0) + u32_bytes(0) + u16_bytes(b.channelcount) + u16_bytes(b.samplesize)
        + u32_bytes(0) + u32_bytes(b.samplerate@) + dops_bytes(b.dops)
}

impl Mp4Box for OpusBox {
    open spec fn has_size(&self) -> bool {
        true
    }

    fn box_type(&self) -> (t: BoxType)
        ensures
            t == BoxType::OpusBox,
    {
        BoxType::OpusBox
    }

    fn box_size(&self) -> (s: u64)
        ensures
            s == 55,
    {
        36 + 19
    }
}

impl WriteBox for OpusBox {
    open spec fn writable(&self) -> bool {
        true
    }

    fn write_box(&self, writer: &mut Vec<u8>) -> (res: Result<u64>)
        ensures
            final(writer)@ == old(writer)@ + opus_bytes(*self),
            res == Ok::<u64, Error>(55),
    {
        let mut written: u64 = 0;
        written = written + BoxHeader::new(self.box_type(), self.box_size()).write(writer)?;
        be_write_u32(writer, 0);
        written = written + 4;
        be_write_u16(writer, 0);
        written = written + 2;
        be_write_u16(writer, self.data_reference_index);
        written = written + 2;
        be_write_u16(writer, 0);
        written = written + 2;
        be_write_u16(writer, 0);
        written = written + 2;
        be_write_u32(writer, 0);
        written = written + 4;
        be_write_u16(writer, self.channelcount);
        written = written + 2;
        be_write_u16(writer, self.samplesize);
        written = written + 2;
        be_write_u32(writer, 0);
        written = written + 4;
        be_write_u32(writer, self.samplerate.raw_value());
        written = written + 4;
        written = written + self.dops.write_box(writer)?;
        assert(final(writer)@ =~= old(writer)@ + opus_bytes(*self));
        Ok(written)
    }
}

/// The sound box, which holds nothing; its size is not defined.
#[derive(Debug, Clone, Copy, PartialEq, Eq, Structural)]
pub struct SounBox {}

impl Default for SounBox {
    fn default() -> (b: Self)
        ensures
            b == (SounBox {}),
    {
        SounBox {}
    }
}

impl Mp4Box for SounBox {
    /// No sound box has a size.
    open spec fn has_size(&self) -> bool {
        false
    }

    fn box_type(&self) -> (t: BoxType)
        ensures
            t == BoxType::SounBox,
    {
        BoxType::SounBox
    }

    fn box_size(&self) -> (s: u64) {
        0
    }
}

} // verus!
