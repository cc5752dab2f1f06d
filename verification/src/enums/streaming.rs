//! Formats, depths and byte orders of a stream.
use vstd::prelude::*;

verus! {

/// The format in which a stream is sent. Nothing here encodes FLAC: the samples of such a
/// stream are those of [`StreamingFormat::Lpcm`], without a header.
#[derive(Clone, Copy, Debug, PartialEq, Eq, Structural)]
pub enum StreamingFormat {
    Lpcm,
    Wav,
    Rf64,
    Flac,
}

/// How the length of a stream is announced to a client.
#[derive(Clone, Copy, Debug, PartialEq, Eq, Structural)]
pub enum StreamSize {
    /// As one part of the greatest length that fits in 32 bits.
    U32maxNotChunked,
    /// In chunks, up to that length.
    U32maxChunked,
}

/// How many bits a sent sample has.
#[derive(Clone, Copy, Debug, PartialEq, Eq, Structural)]
pub enum BitDepth {
    Bits16,
    Bits24,
}

/// Which byte of a sent sample comes first.
#[derive(Clone, Copy, Debug, PartialEq, Eq, Structural)]
pub enum Endian {
    Little,
    Big,
}

impl BitDepth {
    /// The bytes of one sample.
    pub open spec fn bytes(self) -> nat {
        match self {
            BitDepth::Bits16 => 2,
            BitDepth::Bits24 => 3,
        }
    }

    /// Whether there is a depth of so many bits.
    pub open spec fn is_depth(bits: u16) -> bool {
        bits == 16 || bits == 24
    }

    /// The depth of so many bits.
    pub open spec fn of(bits: u16) -> BitDepth
        recommends
            BitDepth::is_depth(bits),
    {
        if bits == 16 {
            BitDepth::Bits16
        } else {
            BitDepth::Bits24
        }
    }

    /// The depth of so many bits.
    pub fn from_bits(bits: u16) -> (r: BitDepth)
        requires
            BitDepth::is_depth(bits),
        ensures
            r == BitDepth::of(bits),
            r.bytes() * 8 == bits,
    {
        if bits == 16 {
            BitDepth::Bits16
        } else {
            BitDepth::Bits24
        }
    }
}

impl Endian {
    /// Streams with a header are little endian, raw streams big endian.
    pub open spec fn of(use_wave_format: bool) -> Endian {
        if use_wave_format {
            Endian::Little
        } else {
            Endian::Big
        }
    }

    /// The byte order of a stream.
    pub fn from_wave_format(use_wave_format: bool) -> (r: Endian)
        ensures
            r == Endian::of(use_wave_format),
    {
        if use_wave_format {
            Endian::Little
        } else {
            Endian::Big
        }
    }
}

} // verus!
