//! AAC bitstream utilities.
//!
//! Parses and encodes the AAC-LC (audio object type 2) AudioSpecificConfig
//! (ISO/IEC 14496-3) and the ADTS header (ISO/IEC 13818-7), converts between
//! ADTS frames and raw AAC, and builds an `mp4a` sample entry.
//!
//! Out of scope: SBR / PS, `dependsOnCoreCoder == 1`, `extensionFlag == 1`,
//! program config elements, ADTS frames with several raw data blocks, ADTS CRC
//! generation and checking, LATM / LOAS.
use vstd::prelude::*;

use crate::bits::{
    bit_at, bit_window, bits_of, bits_val, lemma_bits_of_shape, lemma_bits_val_of_matching,
    lemma_bits_val_pins_bits, lemma_bits_val_window, lemma_seq_val_bits_of, lemma_seq_val_bound,
    packs, pow2, seq_val, BitReader, BitWriter,
};
use crate::codec::{box_encodable, unknowns_view, BoxCodec};
use crate::descriptor::{desc_bytes, lemma_size_bytes_small};
use crate::entry::{AudioSampleEntryFields, EntryV, FixedPointNumber};
use crate::error::{Error, ErrorKind};
use crate::esds::{
    dcd_bytes, dcd_payload, dsi_bytes, es_payload, DecoderConfigDescriptor, DecoderConfigV,
    DecoderSpecificInfo, EsDescriptor, EsDescriptorV, EsdsBox, EsdsBoxV, SlConfigDescriptor,
};
use crate::sample_entries::Mp4aBox;

verus! {

/// AAC audio object type. Only AOT 2 (AAC-LC) is accepted.
#[derive(Debug, Clone, Copy, PartialEq, Eq, Hash, Structural)]
pub enum AudioObjectType {
    /// AOT 2 (AAC-LC)
    AacLc,
}

impl AudioObjectType {
    /// The raw AOT value in the bitstream.
    pub fn as_u8(self) -> (r: u8)
        ensures
            r == 2,
    {
        match self {
            AudioObjectType::AacLc => 2,
        }
    }
}

/// `profile` of an ADTS header: the AOT minus one, so 1 for AAC-LC.
pub const ADTS_PROFILE_AAC_LC: u32 = 1;

/// Fixed value of the ADTS `layer` field.
pub const ADTS_LAYER_ZERO: u32 = 0;

/// Fixed value written to `adts_buffer_fullness` (the usual VBR value).
pub const ADTS_BUFFER_FULLNESS_VBR: u32 = 0x7FF;

/// ADTS header size without CRC (`protection_absent == 1`).
pub const ADTS_HEADER_SIZE_NO_CRC: usize = 7;

/// ADTS header size with a 16-bit CRC (`protection_absent == 0`).
pub const ADTS_HEADER_SIZE_WITH_CRC: usize = 9;

/// Largest value of the 13-bit ADTS `frame_length`.
pub const ADTS_FRAME_LENGTH_MAX: usize = 8191;

/// Largest explicit (24-bit) sampling frequency.
pub const EXPLICIT_SAMPLING_FREQUENCY_MAX: u32 = 0xFF_FFFF;

/// Sampling frequency (Hz) of the standard `samplingFrequencyIndex` values 0..=12.
pub open spec fn frequency_of_index(index: int) -> Option<u32> {
    if index == 0 {
        Some(96000u32)
    } else if index == 1 {
        Some(88200u32)
    } else if index == 2 {
        Some(64000u32)
    } else if index == 3 {
        Some(48000u32)
    } else if index == 4 {
        Some(44100u32)
    } else if index == 5 {
        Some(32000u32)
    } else if index == 6 {
        Some(24000u32)
    } else if index == 7 {
        Some(22050u32)
    } else if index == 8 {
        Some(16000u32)
    } else if index == 9 {
        Some(12000u32)
    } else if index == 10 {
        Some(11025u32)
    } else if index == 11 {
        Some(8000u32)
    } else if index == 12 {
        Some(7350u32)
    } else {
        None
    }
}

/// The standard index of a frequency, if it is one of the table's.
pub open spec fn index_of_frequency(hz: u32) -> Option<u8> {
    if hz == 96000 {
        Some(0u8)
    } else if hz == 88200 {
        Some(1u8)
    } else if hz == 64000 {
        Some(2u8)
    } else if hz == 48000 {
        Some(3u8)
    } else if hz == 44100 {
        Some(4u8)
    } else if hz == 32000 {
        Some(5u8)
    } else if hz == 24000 {
        Some(6u8)
    } else if hz == 22050 {
        Some(7u8)
    } else if hz == 16000 {
        Some(8u8)
    } else if hz == 12000 {
        Some(9u8)
    } else if hz == 11025 {
        Some(10u8)
    } else if hz == 8000 {
        Some(11u8)
    } else if hz == 7350 {
        Some(12u8)
    } else {
        None
    }
}

fn table_frequency(index: u8) -> (r: Option<u32>)
    ensures
        r == frequency_of_index(index as int),
{
    match index {
        0 => Some(96000),
        1 => Some(88200),
        2 => Some(64000),
        3 => Some(48000),
        4 => Some(44100),
        5 => Some(32000),
        6 => Some(24000),
        7 => Some(22050),
        8 => Some(16000),
        9 => Some(12000),
        10 => Some(11025),
        11 => Some(8000),
        12 => Some(7350),
        _ => None,
    }
}

fn table_index(hz: u32) -> (r: Option<u8>)
    ensures
        r == index_of_frequency(hz),
{
    match hz {
        96000 => Some(0),
        88200 => Some(1),
        64000 => Some(2),
        48000 => Some(3),
        44100 => Some(4),
        32000 => Some(5),
        24000 => Some(6),
        22050 => Some(7),
        16000 => Some(8),
        12000 => Some(9),
        11025 => Some(10),
        8000 => Some(11),
        7350 => Some(12),
        _ => None,
    }
}

/// Sampling frequency of an AudioSpecificConfig.
///
/// A frequency of the standard table is normally carried as its
/// `samplingFrequencyIndex` (index form); any other frequency is carried as
/// index `0xF` followed by a 24-bit value (explicit form). The form is kept so
/// that a parsed configuration encodes back to the same bytes.
#[derive(Debug, Clone, Copy, PartialEq, Eq, Hash, Structural)]
pub struct SamplingFrequency {
    index: Option<u8>,
    frequency: u32,
}

impl SamplingFrequency {
    /// The standard index when in index form, `None` in explicit form.
    pub closed spec fn index_spec(self) -> Option<u8> {
        self.index
    }

    /// The effective frequency in Hz.
    pub closed spec fn hz_spec(self) -> u32 {
        self.frequency
    }

    /// Index form agrees with the table; explicit form fits in 24 bits and is not 0.
    pub open spec fn wf(self) -> bool {
        match self.index_spec() {
            Some(i) => i <= 12 && frequency_of_index(i as int) == Some(self.hz_spec()),
            None => 1 <= self.hz_spec() <= 0xFF_FFFF,
        }
    }

    /// Every sampling frequency is well formed: the constructors check it.
    #[verifier::type_invariant]
    spec fn inv(self) -> bool {
        self.wf()
    }

    /// Two frequencies with the same form and value are the same value.
    pub proof fn lemma_ext(a: Self, b: Self)
        requires
            a.index_spec() == b.index_spec(),
            a.hz_spec() == b.hz_spec(),
        ensures
            a == b,
    {
    }

    /// A frequency built from a table index and one built from that index's
    /// frequency are the same value (both in index form).
    pub proof fn lemma_from_index_matches_from_hz(i: u8, a: Self, b: Self)
        requires
            i <= 12,
            a.index_spec() == Some(i),
            Some(a.hz_spec()) == frequency_of_index(i as int),
            b.hz_spec() == a.hz_spec(),
            b.index_spec() == index_of_frequency(a.hz_spec()),
        ensures
            a == b,
    {
    }

    /// Builds the frequency `hz`: index form when `hz` is in the standard
    /// table, explicit form otherwise. Fails unless `1 <= hz <= 16777215`.
    pub fn from_hz(hz: u32) -> (r: Result<Self, Error>)
        ensures
            r is Ok <==> 1 <= hz <= 0xFF_FFFF,
            r matches Ok(f) ==> f.wf() && f.hz_spec() == hz && f.index_spec()
                == index_of_frequency(hz),
            r matches Err(e) ==> e.kind == ErrorKind::InvalidInput,
    {
        if hz == 0 || hz > EXPLICIT_SAMPLING_FREQUENCY_MAX {
            return Err(Error::invalid_input("sampling frequency must be 1..=16777215"));
        }
        Ok(SamplingFrequency { index: table_index(hz), frequency: hz })
    }

    /// Builds the frequency of a standard `samplingFrequencyIndex` (0..=12).
    pub fn from_index(index: u8) -> (r: Result<Self, Error>)
        ensures
            r is Ok <==> index <= 12,
            r matches Ok(f) ==> f.wf() && f.index_spec() == Some(index) && Some(f.hz_spec())
                == frequency_of_index(index as int),
            r matches Err(e) ==> e.kind == ErrorKind::InvalidInput,
    {
        match table_frequency(index) {
            Some(frequency) => Ok(SamplingFrequency { index: Some(index), frequency }),
            None => Err(Error::invalid_input("AAC sampling frequency index must be 0..=12")),
        }
    }

    /// The effective sampling frequency in Hz.
    pub fn hz(self) -> (r: u32)
        ensures
            r == self.hz_spec(),
    {
        self.frequency
    }

    /// The standard index, for the ADTS header; fails in explicit form, which
    /// ADTS cannot carry.
    pub fn sampling_frequency_index(self) -> (r: Result<u8, Error>)
        ensures
            r is Ok <==> self.index_spec() is Some,
            r matches Ok(i) ==> self.index_spec() == Some(i),
            r matches Err(e) ==> e.kind == ErrorKind::InvalidInput,
    {
        match self.index {
            Some(index) => Ok(index),
            None => Err(
                Error::invalid_input(
                    "ADTS cannot represent an explicit sampling frequency (index 0xF)",
                ),
            ),
        }
    }

    fn explicit(frequency: u32) -> (r: Self)
        requires
            1 <= frequency <= 0xFF_FFFF,
        ensures
            r.index_spec() is None,
            r.hz_spec() == frequency,
    {
        SamplingFrequency { index: None, frequency }
    }
}

/// AAC channel configuration (`channelConfiguration` 1..=7). Values 0 (program
/// config element) and 8..=15 (reserved) are not accepted.
#[derive(Debug, Clone, Copy, PartialEq, Eq, Hash, Structural)]
pub enum ChannelConfiguration {
    /// 1 channel (mono)
    Mono,
    /// 2 channels (stereo)
    Stereo,
    /// 3 channels
    Channels3,
    /// 4 channels
    Channels4,
    /// 5 channels
    Channels5,
    /// 6 channels (5.1)
    FivePointOne,
    /// 8 channels (7.1), `channelConfiguration` 7
    SevenPointOne,
}

/// The configuration whose raw value is `raw`, if `raw` is 1..=7.
pub open spec fn channel_configuration_of(raw: int) -> Option<ChannelConfiguration> {
    if raw == 1 {
        Some(ChannelConfiguration::Mono)
    } else if raw == 2 {
        Some(ChannelConfiguration::Stereo)
    } else if raw == 3 {
        Some(ChannelConfiguration::Channels3)
    } else if raw == 4 {
        Some(ChannelConfiguration::Channels4)
    } else if raw == 5 {
        Some(ChannelConfiguration::Channels5)
    } else if raw == 6 {
        Some(ChannelConfiguration::FivePointOne)
    } else if raw == 7 {
        Some(ChannelConfiguration::SevenPointOne)
    } else {
        None
    }
}

impl ChannelConfiguration {
    /// The raw `channelConfiguration` value.
    pub open spec fn raw(self) -> u8 {
        match self {
            ChannelConfiguration::Mono => 1,
            ChannelConfiguration::Stereo => 2,
            ChannelConfiguration::Channels3 => 3,
            ChannelConfiguration::Channels4 => 4,
            ChannelConfiguration::Channels5 => 5,
            ChannelConfiguration::FivePointOne => 6,
            ChannelConfiguration::SevenPointOne => 7,
        }
    }

    /// The number of channels: the raw value, except 8 for 7.1.
    pub open spec fn count(self) -> u16 {
        match self {
            ChannelConfiguration::SevenPointOne => 8,
            _ => self.raw() as u16,
        }
    }

    /// Builds the configuration from its raw value; fails for 0 and 8..=15.
    pub fn from_raw(raw: u8) -> (r: Result<Self, Error>)
        ensures
            r is Ok <==> 1 <= raw <= 7,
            r matches Ok(c) ==> c.raw() == raw && Some(c) == channel_configuration_of(raw as int),
            r matches Err(e) ==> e.kind == ErrorKind::InvalidInput,
    {
        match channel_configuration_from_raw(raw) {
            Some(c) => Ok(c),
            None => Err(Error::invalid_input("AAC channel configuration must be 1..=7")),
        }
    }

    /// The raw `channelConfiguration` value.
    pub fn as_u8(self) -> (r: u8)
        ensures
            r == self.raw(),
            1 <= r <= 7,
    {
        match self {
            ChannelConfiguration::Mono => 1,
            ChannelConfiguration::Stereo => 2,
            ChannelConfiguration::Channels3 => 3,
            ChannelConfiguration::Channels4 => 4,
            ChannelConfiguration::Channels5 => 5,
            ChannelConfiguration::FivePointOne => 6,
            ChannelConfiguration::SevenPointOne => 7,
        }
    }

    /// The number of channels (8 for [`ChannelConfiguration::SevenPointOne`]).
    pub fn channel_count(self) -> (r: u16)
        ensures
            r == self.count(),
            r == if self.raw() == 7 {
                8
            } else {
                self.raw() as u16
            },
    {
        match self {
            ChannelConfiguration::SevenPointOne => 8,
            _ => self.as_u8() as u16,
        }
    }
}

/// The configuration of a raw `channelConfiguration` value, `None` for 0 and 8..=15.
pub fn channel_configuration_from_raw(raw: u8) -> (r: Option<ChannelConfiguration>)
    ensures
        r == channel_configuration_of(raw as int),
        r matches Some(c) ==> c.raw() == raw,
{
    match raw {
        1 => Some(ChannelConfiguration::Mono),
        2 => Some(ChannelConfiguration::Stereo),
        3 => Some(ChannelConfiguration::Channels3),
        4 => Some(ChannelConfiguration::Channels4),
        5 => Some(ChannelConfiguration::Channels5),
        6 => Some(ChannelConfiguration::FivePointOne),
        7 => Some(ChannelConfiguration::SevenPointOne),
        _ => None,
    }
}

/// An accepted AAC-LC AudioSpecificConfig.
#[derive(Debug, Clone, Copy, PartialEq, Eq, Hash, Structural)]
pub struct AudioSpecificConfig {
    /// Always [`AudioObjectType::AacLc`]
    pub audio_object_type: AudioObjectType,
    /// Sampling frequency
    pub sampling_frequency: SamplingFrequency,
    /// Channel configuration
    pub channel_configuration: ChannelConfiguration,
}

impl AudioSpecificConfig {
    pub open spec fn wf(self) -> bool {
        self.sampling_frequency.wf()
    }
}

/// The 4-bit `samplingFrequencyIndex` written for a frequency (15 in explicit form).
pub open spec fn sfi_code(f: SamplingFrequency) -> nat {
    match f.index_spec() {
        Some(i) => i as nat,
        None => 15,
    }
}

/// The bits of the canonical encoding of an AudioSpecificConfig:
/// `audioObjectType` (5) = 2, `samplingFrequencyIndex` (4) [+ 24-bit frequency
/// when it is 0xF], `channelConfiguration` (4), and the three
/// GASpecificConfig flags, all 0.
pub open spec fn asc_bits(c: AudioSpecificConfig) -> Seq<u8> {
    let freq_bits = match c.sampling_frequency.index_spec() {
        Some(i) => bits_of(i as nat, 4),
        None => bits_of(15, 4) + bits_of(c.sampling_frequency.hz_spec() as nat, 24),
    };
    bits_of(2, 5) + freq_bits + bits_of(c.channel_configuration.raw() as nat, 4) + bits_of(0, 3)
}

/// Bit position of the `channelConfiguration` field.
pub open spec fn asc_channel_pos(c: AudioSpecificConfig) -> int {
    if c.sampling_frequency.index_spec() is Some {
        9
    } else {
        33
    }
}

/// `bytes` is the encoding of some valid AudioSpecificConfig.
pub open spec fn asc_acceptable(bytes: Seq<u8>) -> bool {
    exists|c: AudioSpecificConfig| c.wf() && packs(bytes, #[trigger] asc_bits(c))
}

proof fn lemma_bits_of_val(v: nat, n: nat)
    requires
        v < pow2(n),
    ensures
        bits_of(v, n).len() == n,
        seq_val(bits_of(v, n)) == v,
{
    lemma_bits_of_shape(v, n);
    lemma_seq_val_bits_of(v, n);
}

proof fn lemma_small_pow2()
    ensures
        pow2(1) == 2,
        pow2(2) == 4,
        pow2(3) == 8,
        pow2(4) == 16,
        pow2(5) == 32,
        pow2(11) == 2048,
        pow2(12) == 4096,
        pow2(13) == 8192,
        pow2(24) == 0x100_0000,
{
    reveal_with_fuel(pow2, 25);
}

/// Reading the fields back from any packing of `asc_bits(c)` gives `c`'s fields.
proof fn lemma_asc_fields(s: Seq<u8>, c: AudioSpecificConfig)
    requires
        c.wf(),
        packs(s, asc_bits(c)),
    ensures
        asc_bits(c).len() == asc_channel_pos(c) + 7,
        s.len() * 8 == asc_bits(c).len(),
        bits_val(s, 0, 5) == 2,
        bits_val(s, 5, 4) == sfi_code(c.sampling_frequency),
        c.sampling_frequency.index_spec() is None ==> bits_val(s, 9, 24)
            == c.sampling_frequency.hz_spec(),
        bits_val(s, asc_channel_pos(c), 4) == c.channel_configuration.raw(),
        bit_at(s, asc_channel_pos(c) + 4) == 0,
        bit_at(s, asc_channel_pos(c) + 5) == 0,
        bit_at(s, asc_channel_pos(c) + 6) == 0,
{
    lemma_small_pow2();
    let f = c.sampling_frequency;
    let b = asc_bits(c);
    lemma_bits_of_val(2, 5);
    lemma_bits_of_val(c.channel_configuration.raw() as nat, 4);
    lemma_bits_of_val(0, 3);
    lemma_bits_of_val(sfi_code(f), 4);
    let p = asc_channel_pos(c);
    let ch = bits_of(c.channel_configuration.raw() as nat, 4);
    match f.index_spec() {
        Some(i) => {
            assert(b =~= bits_of(2, 5) + bits_of(i as nat, 4) + ch + bits_of(0, 3));
        },
        None => {
            lemma_bits_of_val(f.hz_spec() as nat, 24);
            assert(b =~= bits_of(2, 5) + bits_of(15, 4) + bits_of(f.hz_spec() as nat, 24) + ch
                + bits_of(0, 3));
            let fb = bits_of(f.hz_spec() as nat, 24);
            assert forall|j: int| 0 <= j < fb.len() implies bit_at(s, 9 + j) == #[trigger] fb[j] by {
                assert(b[9 + j] == fb[j]);
            }
            lemma_bits_val_of_matching(s, 9, fb);
        },
    }
    assert(b.len() == p + 7);
    assert(s.len() * 8 == b.len());
    let a = bits_of(2, 5);
    assert forall|j: int| 0 <= j < a.len() implies bit_at(s, 0 + j) == #[trigger] a[j] by {
        assert(b[j] == a[j]);
    }
    lemma_bits_val_of_matching(s, 0, a);
    let sb = bits_of(sfi_code(f), 4);
    assert forall|j: int| 0 <= j < sb.len() implies bit_at(s, 5 + j) == #[trigger] sb[j] by {
        assert(b[5 + j] == sb[j]);
    }
    lemma_bits_val_of_matching(s, 5, sb);
    assert forall|j: int| 0 <= j < ch.len() implies bit_at(s, p + j) == #[trigger] ch[j] by {
        assert(b[p + j] == ch[j]);
    }
    lemma_bits_val_of_matching(s, p, ch);
    assert(bits_of(0, 3) =~= seq![0u8, 0u8, 0u8]) by {
        reveal_with_fuel(bits_of, 4);
    }
    assert(b[p + 4] == 0 && b[p + 5] == 0 && b[p + 6] == 0);
}

/// What every acceptable input looks like, field by field.
proof fn lemma_asc_acceptable_facts(s: Seq<u8>)
    ensures
        asc_acceptable(s) ==> {
            let sfi = bits_val(s, 5, 4);
            let p: int = if sfi <= 12 {
                9
            } else {
                33
            };
            &&& bits_val(s, 0, 5) == 2
            &&& sfi <= 12 || sfi == 15
            &&& sfi == 15 ==> bits_val(s, 9, 24) != 0
            &&& s.len() * 8 == p + 7
            &&& 1 <= bits_val(s, p, 4) <= 7
            &&& bit_at(s, p + 4) == 0
            &&& bit_at(s, p + 5) == 0
            &&& bit_at(s, p + 6) == 0
        },
{
    if asc_acceptable(s) {
        let c = choose|c: AudioSpecificConfig| c.wf() && packs(s, #[trigger] asc_bits(c));
        lemma_asc_fields(s, c);
    }
}

/// Parses an AAC-LC AudioSpecificConfig.
///
/// Accepted: `audioObjectType` 2, `samplingFrequencyIndex` 0..=12 or 0xF with
/// an explicit frequency 1..=16777215, `channelConfiguration` 1..=7, the three
/// GASpecificConfig flags all 0, and nothing after them. In other words the
/// input is accepted exactly when it is the canonical encoding of a
/// configuration, and the result is that configuration.
pub fn parse_audio_specific_config(input: &[u8]) -> (r: Result<AudioSpecificConfig, Error>)
    ensures
        r is Ok <==> asc_acceptable(input@),
        r matches Ok(c) ==> c.wf() && packs(input@, asc_bits(c)),
        r matches Err(e) ==> e.kind == ErrorKind::InvalidInput,
{
    let ghost s = input@;
    let mut reader = BitReader::new(input);
    proof {
        lemma_small_pow2();
        lemma_asc_acceptable_facts(s);
    }
    let aot = match reader.read_bits(5) {
        Ok(v) => v,
        Err(e) => {
            return Err(e);
        },
    };
    if aot != 2 {
        return Err(Error::invalid_input("AAC audio object type must be 2 (AAC-LC)"));
    }
    let sfi = match reader.read_bits(4) {
        Ok(v) => v,
        Err(e) => {
            return Err(e);
        },
    };
    let ghost ch_pos: int = if sfi <= 12 {
        9
    } else {
        33
    };
    let sampling_frequency = if sfi <= 12 {
        let f = SamplingFrequency::from_index(sfi as u8);
        match f {
            Ok(f) => f,
            Err(e) => {
                return Err(e);
            },
        }
    } else if sfi == 15 {
        let frequency = match reader.read_bits(24) {
            Ok(v) => v,
            Err(e) => {
                return Err(e);
            },
        };
        if frequency == 0 {
            return Err(Error::invalid_input("AAC explicit sampling frequency must not be 0"));
        }
        SamplingFrequency::explicit(frequency)
    } else {
        return Err(Error::invalid_input("AAC sampling frequency index 13 / 14 is reserved"));
    };
    let raw_ch = match reader.read_bits(4) {
        Ok(v) => v,
        Err(e) => {
            return Err(e);
        },
    };
    let channel_configuration = match channel_configuration_from_raw(raw_ch as u8) {
        Some(c) => c,
        None => {
            return Err(Error::invalid_input("AAC channel configuration must be 1..=7"));
        },
    };
    let frame_length_flag = match reader.read_bit() {
        Ok(b) => b,
        Err(e) => {
            return Err(e);
        },
    };
    let depends_on_core_coder = match reader.read_bit() {
        Ok(b) => b,
        Err(e) => {
            return Err(e);
        },
    };
    let extension_flag = match reader.read_bit() {
        Ok(b) => b,
        Err(e) => {
            return Err(e);
        },
    };
    let flags_ok = frame_length_flag == 0 && depends_on_core_coder == 0 && extension_flag == 0;
    proof {
        assert(flags_ok <==> bit_at(s, ch_pos + 4 + 0) == 0 && bit_at(s, ch_pos + 4 + 1) == 0
            && bit_at(s, ch_pos + 4 + 2) == 0);
        assert(flags_ok ==> forall|j: int| 0 <= j < 3 ==> #[trigger] bit_at(s, ch_pos + 4 + j) == 0)
            by {
            if flags_ok {
                assert forall|j: int| 0 <= j < 3 implies #[trigger] bit_at(s, ch_pos + 4 + j) == 0 by {
                    if j == 0 {
                    } else if j == 1 {
                    } else {
                    }
                }
            }
        }
    }
    let c = AudioSpecificConfig {
        audio_object_type: AudioObjectType::AacLc,
        sampling_frequency,
        channel_configuration,
    };
    if !flags_ok {
        return Err(
            Error::invalid_input(
                "AAC GASpecificConfig flags (frameLengthFlag / dependsOnCoreCoder / extensionFlag) must be 0",
            ),
        );
    }
    proof {
        reader.lemma_pos_bound();
    }
    if !reader.is_at_end() {
        return Err(Error::invalid_input("AAC AudioSpecificConfig has trailing bytes"));
    }
    proof {
        lemma_asc_packs_read(s, c, ch_pos);
    }
    Ok(c)
}

/// The fields read from `s` rebuild exactly the bits of `c`.
proof fn lemma_asc_packs_read(s: Seq<u8>, c: AudioSpecificConfig, ch_pos: int)
    requires
        c.wf(),
        ch_pos == asc_channel_pos(c),
        s.len() * 8 == ch_pos + 7,
        bits_val(s, 0, 5) == 2,
        bits_val(s, 5, 4) == sfi_code(c.sampling_frequency),
        c.sampling_frequency.index_spec() is None ==> bits_val(s, 9, 24)
            == c.sampling_frequency.hz_spec(),
        bits_val(s, ch_pos, 4) == c.channel_configuration.raw(),
        forall|j: int| 0 <= j < 3 ==> #[trigger] bit_at(s, ch_pos + 4 + j) == 0,
    ensures
        packs(s, asc_bits(c)),
{
    lemma_small_pow2();
    let f = c.sampling_frequency;
    let b = asc_bits(c);
    lemma_bits_of_shape(2, 5);
    lemma_bits_of_shape(sfi_code(f), 4);
    lemma_bits_of_shape(c.channel_configuration.raw() as nat, 4);
    lemma_bits_of_shape(0, 3);
    lemma_bits_val_pins_bits(s, 0, 5, 2);
    lemma_bits_val_pins_bits(s, 5, 4, sfi_code(f));
    lemma_bits_val_pins_bits(s, ch_pos, 4, c.channel_configuration.raw() as nat);
    assert(bits_of(0, 3) =~= seq![0u8, 0u8, 0u8]) by {
        reveal_with_fuel(bits_of, 4);
    }
    let ch = bits_of(c.channel_configuration.raw() as nat, 4);
    if f.index_spec() is None {
        lemma_bits_of_shape(f.hz_spec() as nat, 24);
        lemma_bits_val_pins_bits(s, 9, 24, f.hz_spec() as nat);
        assert(b =~= bits_of(2, 5) + bits_of(15, 4) + bits_of(f.hz_spec() as nat, 24) + ch + bits_of(
            0,
            3,
        ));
    } else {
        assert(b =~= bits_of(2, 5) + bits_of(sfi_code(f), 4) + ch + bits_of(0, 3));
    }
    assert(b.len() == ch_pos + 7);
    assert forall|i: int| 0 <= i < b.len() implies #[trigger] bit_at(s, i) == b[i] by {
        if i < 5 {
            assert(bit_at(s, 0 + i) == bits_of(2, 5)[i]);
        } else if i < 9 {
            assert(bit_at(s, 5 + (i - 5)) == bits_of(sfi_code(f), 4)[i - 5]);
        } else if i < ch_pos {
            assert(bit_at(s, 9 + (i - 9)) == bits_of(f.hz_spec() as nat, 24)[i - 9]);
        } else if i < ch_pos + 4 {
            assert(bit_at(s, ch_pos + (i - ch_pos)) == ch[i - ch_pos]);
        } else {
            assert(bit_at(s, ch_pos + 4 + (i - ch_pos - 4)) == 0);
        }
    }
    assert(s.len() == (b.len() + 7) / 8);
}

/// Encodes a configuration into its canonical bytes: 2 bytes in index form,
/// 5 bytes in explicit form.
pub fn encode_audio_specific_config(config: &AudioSpecificConfig) -> (r: Vec<u8>)
    ensures
        packs(r@, asc_bits(*config)),
        r@[0] >> 3u8 == 2,
        r@[r@.len() - 1] & 7u8 == 0,
        r@.len() == if config.sampling_frequency.index_spec() is Some {
            2int
        } else {
            5int
        },
{
    proof {
        use_type_invariant(&config.sampling_frequency);
    }
    let mut writer = BitWriter::new();
    proof {
        lemma_bits_of_shape(2, 5);
        lemma_bits_of_shape(sfi_code(config.sampling_frequency), 4);
        lemma_bits_of_shape(15, 4);
        lemma_bits_of_shape(config.sampling_frequency.hz_spec() as nat, 24);
    }
    writer.push_bits(config.audio_object_type.as_u8() as u32, 5);
    match config.sampling_frequency.index {
        Some(index) => {
            writer.push_bits(index as u32, 4);
        },
        None => {
            writer.push_bits(15, 4);
            writer.push_bits(config.sampling_frequency.frequency, 24);
        },
    }
    proof {
        lemma_bits_of_shape(config.channel_configuration.raw() as nat, 4);
    }
    writer.push_bits(config.channel_configuration.as_u8() as u32, 4);
    writer.push_bit(0);
    writer.push_bit(0);
    writer.push_bit(0);
    proof {
        let b = asc_bits(*config);
        lemma_bits_of_shape(2, 5);
        lemma_bits_of_shape(sfi_code(config.sampling_frequency), 4);
        lemma_bits_of_shape(config.channel_configuration.raw() as nat, 4);
        lemma_bits_of_shape(config.sampling_frequency.hz_spec() as nat, 24);
        assert(bits_of(0, 3) =~= seq![0u8, 0u8, 0u8]) by {
            reveal_with_fuel(bits_of, 4);
        }
        assert(writer.written() =~= b);
    }
    let r = writer.into_bytes();
    proof {
        lemma_asc_bytes_ends(r@, *config);
    }
    r
}

/// The encoding of a configuration starts with the audio object type 2
/// (AAC-LC) in the top five bits of its first byte, and ends with the three
/// GASpecificConfig flags at 0 in the low three bits of its last byte.
pub proof fn lemma_asc_bytes_ends(bytes: Seq<u8>, c: AudioSpecificConfig)
    requires
        packs(bytes, asc_bits(c)),
    ensures
        bytes.len() >= 2,
        bytes[0] >> 3u8 == 2,
        bytes[bytes.len() - 1] & 7u8 == 0,
{
    let b = asc_bits(c);
    lemma_bits_of_shape(2, 5);
    lemma_bits_of_shape(15, 4);
    lemma_bits_of_shape(sfi_code(c.sampling_frequency), 4);
    lemma_bits_of_shape(c.sampling_frequency.hz_spec() as nat, 24);
    lemma_bits_of_shape(c.channel_configuration.raw() as nat, 4);
    lemma_bits_of_shape(0, 3);
    assert(bits_of(2, 5) =~= seq![0u8, 0u8, 0u8, 1u8, 0u8]) by {
        reveal_with_fuel(bits_of, 6);
    }
    assert(bits_of(0, 3) =~= seq![0u8, 0u8, 0u8]) by {
        reveal_with_fuel(bits_of, 4);
    }
    let l = b.len() as int;
    assert(l == 16 || l == 40);
    assert forall|k: int| 0 <= k < 5 implies b[k] == bits_of(2, 5)[k] by {}
    assert forall|k: int| l - 3 <= k < l implies b[k] == 0 by {
        assert(b[k] == bits_of(0, 3)[k - (l - 3)]);
    }
    let f = bytes[0];
    assert(bit_at(bytes, 0) == b[0] && bit_at(bytes, 1) == b[1] && bit_at(bytes, 2) == b[2]);
    assert(bit_at(bytes, 3) == b[3] && bit_at(bytes, 4) == b[4]);
    assert((f >> 7u8) & 1u8 == 0 && (f >> 6u8) & 1u8 == 0 && (f >> 5u8) & 1u8 == 0);
    assert((f >> 4u8) & 1u8 == 1 && (f >> 3u8) & 1u8 == 0);
    assert(f >> 3u8 == 2) by (bit_vector)
        requires
            (f >> 7u8) & 1u8 == 0,
            (f >> 6u8) & 1u8 == 0,
            (f >> 5u8) & 1u8 == 0,
            (f >> 4u8) & 1u8 == 1,
            (f >> 3u8) & 1u8 == 0,
    ;
    let last = bytes.len() - 1;
    let g = bytes[last];
    assert(bit_at(bytes, l - 3) == b[l - 3] && bit_at(bytes, l - 2) == b[l - 2] && bit_at(bytes, l - 1) == b[l - 1]);
    assert((l - 1) / 8 == last && (l - 2) / 8 == last && (l - 3) / 8 == last);
    assert((g >> 2u8) & 1u8 == 0 && (g >> 1u8) & 1u8 == 0 && (g >> 0u8) & 1u8 == 0);
    assert(g & 7u8 == 0) by (bit_vector)
        requires
            (g >> 2u8) & 1u8 == 0,
            (g >> 1u8) & 1u8 == 0,
            (g >> 0u8) & 1u8 == 0,
    ;
}

/// A configuration has a single encoding, and an encoding a single configuration.
pub proof fn lemma_asc_encoding_injective(s: Seq<u8>, c1: AudioSpecificConfig, c2: AudioSpecificConfig)
    requires
        c1.wf(),
        c2.wf(),
        packs(s, asc_bits(c1)),
        packs(s, asc_bits(c2)),
    ensures
        c1 == c2,
{
    lemma_asc_fields(s, c1);
    lemma_asc_fields(s, c2);
    let f1 = c1.sampling_frequency;
    let f2 = c2.sampling_frequency;
    assert(sfi_code(f1) == sfi_code(f2));
    if f1.index_spec() is Some {
        assert(f2.index_spec() is Some);
    } else {
        assert(f2.index_spec() is None);
    }
    SamplingFrequency::lemma_ext(f1, f2);
    assert(c1.channel_configuration.raw() == c2.channel_configuration.raw());
}

/// MPEG version of an ADTS header (the `ID` bit).
#[derive(Debug, Clone, Copy, PartialEq, Eq, Hash, Structural)]
pub enum AdtsMpegVersion {
    /// MPEG-4 (`ID = 0`)
    Mpeg4,
    /// MPEG-2 (`ID = 1`)
    Mpeg2,
}

/// A parsed ADTS header.
#[derive(Debug, Clone, Copy, PartialEq, Eq, Hash, Structural)]
pub struct AdtsHeader {
    /// MPEG version (`ID` bit)
    pub mpeg_version: AdtsMpegVersion,
    /// `protection_absent`: `true` for a 7-byte header, `false` for a 9-byte header with CRC
    pub protection_absent: bool,
    /// Always [`AudioObjectType::AacLc`]
    pub audio_object_type: AudioObjectType,
    /// 0..=12
    pub sampling_frequency_index: u8,
    /// Channel configuration
    pub channel_configuration: ChannelConfiguration,
    /// Frame length in bytes, header included
    pub frame_length: u16,
    /// `original_copy` bit
    pub original_copy: bool,
    /// `home` bit
    pub home: bool,
}

impl AdtsHeader {
    /// The header size in bytes: 7, or 9 with a CRC.
    pub open spec fn header_size(self) -> int {
        if self.protection_absent {
            7
        } else {
            9
        }
    }

    /// The sampling frequency of the header's `sampling_frequency_index`.
    pub fn sampling_frequency(&self) -> (r: SamplingFrequency)
        requires
            self.sampling_frequency_index <= 12,
        ensures
            r.wf(),
            r.index_spec() == Some(self.sampling_frequency_index),
            Some(r.hz_spec()) == frequency_of_index(self.sampling_frequency_index as int),
    {
        match SamplingFrequency::from_index(self.sampling_frequency_index) {
            Ok(f) => f,
            Err(_) => {
                assert(false);
                SamplingFrequency::explicit(1)
            },
        }
    }
}

/// The values of an ADTS header chosen by the caller when building a frame.
///
/// The other fields are fixed: layer 0, private bit 0, copyright bits 0,
/// `adts_buffer_fullness` 0x7FF, one raw data block, no CRC.
#[derive(Debug, Clone, Copy, PartialEq, Eq, Hash, Structural)]
pub struct AdtsEncodeConfig {
    /// MPEG version (`ID` bit)
    pub mpeg_version: AdtsMpegVersion,
    /// `original_copy` bit
    pub original_copy: bool,
    /// `home` bit
    pub home: bool,
}

/// The header that `parse_adts_frame` reads from `s`, if it accepts `s`.
///
/// Fields (bit offset, width): syncword (0, 12) = 0xFFF, ID (12, 1), layer
/// (13, 2) = 0, protection_absent (15, 1), profile (16, 2) = 1,
/// sampling_frequency_index (18, 4) <= 12, private bit (22, 1),
/// channel_configuration (23, 3) in 1..=7, original_copy (26, 1), home (27, 1),
/// copyright bits (28, 2), frame_length (30, 13), buffer fullness (43, 11),
/// number_of_raw_data_blocks_in_frame (54, 2) = 0; and the frame length must
/// cover the header and fit in `s`.
pub open spec fn adts_header_spec(s: Seq<u8>) -> Option<AdtsHeader> {
    if s.len() < 7 {
        None
    } else {
        let sfi = bits_val(s, 18, 4);
        let ch = channel_configuration_of(bits_val(s, 23, 3) as int);
        let pa = bit_at(s, 15) == 1;
        let fl = bits_val(s, 30, 13);
        let hs: int = if pa {
            7
        } else {
            9
        };
        if bits_val(s, 0, 12) == 0xFFF && bits_val(s, 13, 2) == 0 && bits_val(s, 16, 2) == 1 && sfi
            <= 12 && ch is Some && bits_val(s, 54, 2) == 0 && hs <= fl && fl <= s.len() {
            Some(
                AdtsHeader {
                    mpeg_version: if bit_at(s, 12) == 0 {
                        AdtsMpegVersion::Mpeg4
                    } else {
                        AdtsMpegVersion::Mpeg2
                    },
                    protection_absent: pa,
                    audio_object_type: AudioObjectType::AacLc,
                    sampling_frequency_index: sfi as u8,
                    channel_configuration: ch->0,
                    frame_length: fl as u16,
                    original_copy: bit_at(s, 26) == 1,
                    home: bit_at(s, 27) == 1,
                },
            )
        } else {
            None
        }
    }
}

/// Parses one ADTS frame (header, then raw data block).
///
/// When `frame_length` is shorter than the input, only that many bytes are the
/// frame. The CRC of a 9-byte header is skipped, not checked. Returns the
/// header and the raw AAC bytes (`frame_length` minus the header).
pub fn parse_adts_frame(input: &[u8]) -> (r: Result<(AdtsHeader, &[u8]), Error>)
    ensures
        r is Ok <==> adts_header_spec(input@) is Some,
        r matches Ok((h, raw)) ==> Some(h) == adts_header_spec(input@) && raw@ == input@.subrange(
            h.header_size(),
            h.frame_length as int,
        ),
        r matches Err(e) ==> e.kind == ErrorKind::InvalidInput,
{
    let ghost s = input@;
    proof {
        lemma_small_pow2();
    }
    let mut reader = BitReader::new(input);
    let syncword = match reader.read_bits(12) {
        Ok(v) => v,
        Err(e) => {
            return Err(e);
        },
    };
    if syncword != 0xFFF {
        return Err(Error::invalid_input("ADTS syncword must be 0xFFF"));
    }
    let id = match reader.read_bit() {
        Ok(v) => v,
        Err(e) => {
            return Err(e);
        },
    };
    let mpeg_version = if id == 0 {
        AdtsMpegVersion::Mpeg4
    } else {
        AdtsMpegVersion::Mpeg2
    };
    let layer = match reader.read_bits(2) {
        Ok(v) => v,
        Err(e) => {
            return Err(e);
        },
    };
    if layer != ADTS_LAYER_ZERO {
        return Err(Error::invalid_input("ADTS layer must be 0"));
    }
    let protection_absent = match reader.read_bit() {
        Ok(v) => v != 0,
        Err(e) => {
            return Err(e);
        },
    };
    let profile = match reader.read_bits(2) {
        Ok(v) => v,
        Err(e) => {
            return Err(e);
        },
    };
    if profile != ADTS_PROFILE_AAC_LC {
        return Err(Error::invalid_input("ADTS profile must be 1 (AAC-LC)"));
    }
    let sampling_frequency_index = match reader.read_bits(4) {
        Ok(v) => v as u8,
        Err(e) => {
            return Err(e);
        },
    };
    if sampling_frequency_index > 12 {
        return Err(Error::invalid_input("ADTS sampling frequency index must be 0..=12"));
    }
    let _private_bit = match reader.read_bit() {
        Ok(v) => v,
        Err(e) => {
            return Err(e);
        },
    };
    let raw_ch = match reader.read_bits(3) {
        Ok(v) => v as u8,
        Err(e) => {
            return Err(e);
        },
    };
    let channel_configuration = match channel_configuration_from_raw(raw_ch) {
        Some(c) => c,
        None => {
            return Err(Error::invalid_input("ADTS channel configuration must be 1..=7"));
        },
    };
    let original_copy = match reader.read_bit() {
        Ok(v) => v != 0,
        Err(e) => {
            return Err(e);
        },
    };
    let home = match reader.read_bit() {
        Ok(v) => v != 0,
        Err(e) => {
            return Err(e);
        },
    };
    let _copyright_identification_bit = match reader.read_bit() {
        Ok(v) => v,
        Err(e) => {
            return Err(e);
        },
    };
    let _copyright_identification_start = match reader.read_bit() {
        Ok(v) => v,
        Err(e) => {
            return Err(e);
        },
    };
    let frame_length = match reader.read_bits(13) {
        Ok(v) => v as u16,
        Err(e) => {
            return Err(e);
        },
    };
    let _adts_buffer_fullness = match reader.read_bits(11) {
        Ok(v) => v,
        Err(e) => {
            return Err(e);
        },
    };
    let number_of_raw_data_blocks_in_frame = match reader.read_bits(2) {
        Ok(v) => v,
        Err(e) => {
            return Err(e);
        },
    };
    if number_of_raw_data_blocks_in_frame != 0 {
        return Err(Error::invalid_input("ADTS number_of_raw_data_blocks_in_frame must be 0"));
    }
    let header_size = if protection_absent {
        ADTS_HEADER_SIZE_NO_CRC
    } else {
        ADTS_HEADER_SIZE_WITH_CRC
    };
    if (frame_length as usize) < header_size {
        return Err(Error::invalid_input("ADTS frame_length must not be smaller than the header size"));
    }
    let frame_end = frame_length as usize;
    if frame_end > input.len() {
        return Err(Error::invalid_input("ADTS frame_length exceeds the input length"));
    }
    let header = AdtsHeader {
        mpeg_version,
        protection_absent,
        audio_object_type: AudioObjectType::AacLc,
        sampling_frequency_index,
        channel_configuration,
        frame_length,
        original_copy,
        home,
    };
    Ok((header, vstd::slice::slice_subrange(input, header_size, frame_end)))
}

/// The bits of the 7-byte ADTS header that `wrap_raw_aac_in_adts` writes.
pub open spec fn adts_header_bits(
    sfi: nat,
    ch: nat,
    config: AdtsEncodeConfig,
    frame_length: nat,
) -> Seq<u8> {
    let id: nat = match config.mpeg_version {
        AdtsMpegVersion::Mpeg4 => 0,
        AdtsMpegVersion::Mpeg2 => 1,
    };
    let oc: nat = if config.original_copy {
        1
    } else {
        0
    };
    let home: nat = if config.home {
        1
    } else {
        0
    };
    bits_of(0xFFF, 12) + bits_of(id, 1) + bits_of(0, 2) + bits_of(1, 1) + bits_of(1, 2) + bits_of(
        sfi,
        4,
    ) + bits_of(0, 1) + bits_of(ch, 3) + bits_of(oc, 1) + bits_of(home, 1) + bits_of(0, 2)
        + bits_of(frame_length, 13) + bits_of(0x7FF, 11) + bits_of(0, 2)
}

fn adts_header_bytes(
    id: u32,
    sfi: u32,
    ch: u32,
    config: &AdtsEncodeConfig,
    frame_length: u32,
) -> (r: Vec<u8>)
    requires
        id == match config.mpeg_version {
            AdtsMpegVersion::Mpeg4 => 0u32,
            AdtsMpegVersion::Mpeg2 => 1u32,
        },
    ensures
        r@.len() == 7,
        packs(r@, adts_header_bits(sfi as nat, ch as nat, *config, frame_length as nat)),
{
    let ghost hb = adts_header_bits(sfi as nat, ch as nat, *config, frame_length as nat);
    let oc: u32 = if config.original_copy {
        1
    } else {
        0
    };
    let home: u32 = if config.home {
        1
    } else {
        0
    };
    proof {
        lemma_bits_of_shape(0xFFF, 12);
        lemma_bits_of_shape(id as nat, 1);
        lemma_bits_of_shape(0, 2);
        lemma_bits_of_shape(1, 1);
        lemma_bits_of_shape(1, 2);
        lemma_bits_of_shape(sfi as nat, 4);
        lemma_bits_of_shape(0, 1);
        lemma_bits_of_shape(ch as nat, 3);
        lemma_bits_of_shape(oc as nat, 1);
        lemma_bits_of_shape(home as nat, 1);
        lemma_bits_of_shape(frame_length as nat, 13);
        lemma_bits_of_shape(0x7FF, 11);
    }
    let mut writer = BitWriter::new();
    writer.push_bits(0xFFF, 12);
    proof {
        assert(writer.written() =~= bits_of(0xFFF, 12));
    }
    writer.push_bits(id, 1);
    writer.push_bits(ADTS_LAYER_ZERO, 2);
    writer.push_bits(1, 1);
    writer.push_bits(ADTS_PROFILE_AAC_LC, 2);
    writer.push_bits(sfi, 4);
    writer.push_bits(0, 1);
    writer.push_bits(ch, 3);
    writer.push_bits(oc, 1);
    writer.push_bits(home, 1);
    writer.push_bits(0, 2);
    writer.push_bits(frame_length, 13);
    writer.push_bits(ADTS_BUFFER_FULLNESS_VBR, 11);
    writer.push_bits(0, 2);
    proof {
        assert(writer.written() == hb);
    }
    writer.into_bytes()
}

/// Builds an ADTS frame from raw AAC and a configuration: a 7-byte header
/// without CRC followed by `raw`.
///
/// Fails when the configuration's frequency is in explicit form (ADTS has no
/// explicit frequency) or when 7 + `raw.len()` does not fit in 13 bits.
pub fn wrap_raw_aac_in_adts(
    raw: &[u8],
    asc: &AudioSpecificConfig,
    config: &AdtsEncodeConfig,
) -> (r: Result<Vec<u8>, Error>)
    ensures
        r is Ok <==> asc.sampling_frequency.index_spec() is Some && 7 + raw@.len() <= 8191,
        r matches Ok(f) ==> f@.len() == 7 + raw@.len() && f@.skip(7) == raw@ && packs(
            f@.take(7),
            adts_header_bits(
                sfi_code(asc.sampling_frequency),
                asc.channel_configuration.raw() as nat,
                *config,
                (7 + raw@.len()) as nat,
            ),
        ),
        r matches Err(e) ==> e.kind == ErrorKind::InvalidInput,
{
    proof {
        use_type_invariant(&asc.sampling_frequency);
    }
    let sampling_frequency_index = match asc.sampling_frequency.sampling_frequency_index() {
        Ok(i) => i,
        Err(e) => {
            return Err(e);
        },
    };
    if raw.len() > ADTS_FRAME_LENGTH_MAX - ADTS_HEADER_SIZE_NO_CRC {
        return Err(Error::invalid_input("ADTS frame_length (header + raw) does not fit in 13 bits"));
    }
    let frame_length = ADTS_HEADER_SIZE_NO_CRC + raw.len();
    let id: u8 = match config.mpeg_version {
        AdtsMpegVersion::Mpeg4 => 0,
        AdtsMpegVersion::Mpeg2 => 1,
    };
    let mut out = adts_header_bytes(
        id as u32,
        sampling_frequency_index as u32,
        asc.channel_configuration.as_u8() as u32,
        config,
        frame_length as u32,
    );
    let ghost header_bytes = out@;
    out.extend_from_slice(raw);
    proof {
        assert(header_bytes.len() == 7);
        assert(out@.take(7) =~= header_bytes);
        assert(out@.skip(7) =~= raw@);
    }
    Ok(out)
}

proof fn lemma_field_of(h: Seq<u8>, hb: Seq<u8>, p: int, n: nat, v: nat)
    requires
        forall|i: int| 0 <= i < hb.len() ==> #[trigger] bit_at(h, i) == hb[i],
        0 <= p,
        p + n <= hb.len(),
        hb.subrange(p, p + n) == bits_of(v, n),
        v < pow2(n),
    ensures
        bits_val(h, p, n) == v,
{
    let w = hb.subrange(p, p + n);
    lemma_bits_of_val(v, n);
    assert forall|j: int| 0 <= j < w.len() implies bit_at(h, p + j) == #[trigger] w[j] by {
        assert(w[j] == hb[p + j]);
    }
    lemma_bits_val_of_matching(h, p, w);
}

proof fn lemma_bits_val_prefix(f: Seq<u8>, k: int, p: int, n: nat)
    requires
        0 <= k <= f.len(),
        0 <= p,
        p + n <= k * 8,
    ensures
        bits_val(f, p, n) == bits_val(f.take(k), p, n),
    decreases n,
{
    if n > 0 {
        lemma_bits_val_prefix(f, k, p, (n - 1) as nat);
        let i = p + n - 1;
        assert(f.take(k)[i / 8] == f[i / 8]);
    }
}

proof fn lemma_bit_at_prefix(f: Seq<u8>, k: int, i: int)
    requires
        0 <= k <= f.len(),
        0 <= i < k * 8,
    ensures
        bit_at(f, i) == bit_at(f.take(k), i),
{
    assert(f.take(k)[i / 8] == f[i / 8]);
}

/// A frame built by [`wrap_raw_aac_in_adts`] parses back to the caller's
/// values, a 7-byte header, and the raw bytes.
pub proof fn lemma_adts_wrap_then_parse(
    f: Seq<u8>,
    raw: Seq<u8>,
    asc: AudioSpecificConfig,
    config: AdtsEncodeConfig,
)
    requires
        asc.wf(),
        asc.sampling_frequency.index_spec() is Some,
        7 + raw.len() <= 8191,
        f.len() == 7 + raw.len(),
        f.skip(7) == raw,
        packs(
            f.take(7),
            adts_header_bits(
                sfi_code(asc.sampling_frequency),
                asc.channel_configuration.raw() as nat,
                config,
                (7 + raw.len()) as nat,
            ),
        ),
    ensures
        adts_header_spec(f) == Some(
            AdtsHeader {
                mpeg_version: config.mpeg_version,
                protection_absent: true,
                audio_object_type: AudioObjectType::AacLc,
                sampling_frequency_index: asc.sampling_frequency.index_spec()->0,
                channel_configuration: asc.channel_configuration,
                frame_length: (7 + raw.len()) as u16,
                original_copy: config.original_copy,
                home: config.home,
            },
        ),
        f.subrange(7, 7 + raw.len() as int) == raw,
{
    lemma_small_pow2();
    let h = f.take(7);
    let sfi = sfi_code(asc.sampling_frequency);
    let ch = asc.channel_configuration.raw() as nat;
    let fl = (7 + raw.len()) as nat;
    let id: nat = match config.mpeg_version {
        AdtsMpegVersion::Mpeg4 => 0,
        AdtsMpegVersion::Mpeg2 => 1,
    };
    let oc: nat = if config.original_copy {
        1
    } else {
        0
    };
    let home: nat = if config.home {
        1
    } else {
        0
    };
    let hb = adts_header_bits(sfi, ch, config, fl);
    lemma_bits_of_shape(0xFFF, 12);
    lemma_bits_of_shape(id, 1);
    lemma_bits_of_shape(0, 2);
    lemma_bits_of_shape(1, 1);
    lemma_bits_of_shape(1, 2);
    lemma_bits_of_shape(sfi, 4);
    lemma_bits_of_shape(0, 1);
    lemma_bits_of_shape(ch, 3);
    lemma_bits_of_shape(oc, 1);
    lemma_bits_of_shape(home, 1);
    lemma_bits_of_shape(fl, 13);
    lemma_bits_of_shape(0x7FF, 11);
    assert(hb.len() == 56);
    assert(hb.subrange(0, 12) =~= bits_of(0xFFF, 12));
    assert(hb.subrange(12, 13) =~= bits_of(id, 1));
    assert(hb.subrange(13, 15) =~= bits_of(0, 2));
    assert(hb.subrange(15, 16) =~= bits_of(1, 1));
    assert(hb.subrange(16, 18) =~= bits_of(1, 2));
    assert(hb.subrange(18, 22) =~= bits_of(sfi, 4));
    assert(hb.subrange(23, 26) =~= bits_of(ch, 3));
    assert(hb.subrange(26, 27) =~= bits_of(oc, 1));
    assert(hb.subrange(27, 28) =~= bits_of(home, 1));
    assert(hb.subrange(30, 43) =~= bits_of(fl, 13));
    assert(hb.subrange(54, 56) =~= bits_of(0, 2));
    lemma_field_of(h, hb, 0, 12, 0xFFF);
    lemma_field_of(h, hb, 12, 1, id);
    lemma_field_of(h, hb, 13, 2, 0);
    lemma_field_of(h, hb, 15, 1, 1);
    lemma_field_of(h, hb, 16, 2, 1);
    lemma_field_of(h, hb, 18, 4, sfi);
    lemma_field_of(h, hb, 23, 3, ch);
    lemma_field_of(h, hb, 26, 1, oc);
    lemma_field_of(h, hb, 27, 1, home);
    lemma_field_of(h, hb, 30, 13, fl);
    lemma_field_of(h, hb, 54, 2, 0);
    lemma_bits_val_prefix(f, 7, 0, 12);
    lemma_bits_val_prefix(f, 7, 13, 2);
    lemma_bits_val_prefix(f, 7, 16, 2);
    lemma_bits_val_prefix(f, 7, 18, 4);
    lemma_bits_val_prefix(f, 7, 23, 3);
    lemma_bits_val_prefix(f, 7, 30, 13);
    lemma_bits_val_prefix(f, 7, 54, 2);
    lemma_bits_val_prefix(f, 7, 12, 1);
    lemma_bits_val_prefix(f, 7, 15, 1);
    lemma_bits_val_prefix(f, 7, 26, 1);
    lemma_bits_val_prefix(f, 7, 27, 1);
    lemma_bit_at_prefix(f, 7, 12);
    lemma_bit_at_prefix(f, 7, 15);
    lemma_bit_at_prefix(f, 7, 26);
    lemma_bit_at_prefix(f, 7, 27);
    assert(bits_val(h, 12, 1) == bit_at(h, 12));
    assert(bits_val(h, 15, 1) == bit_at(h, 15));
    assert(bits_val(h, 26, 1) == bit_at(h, 26));
    assert(bits_val(h, 27, 1) == bit_at(h, 27));
    assert(f.subrange(7, 7 + raw.len() as int) =~= f.skip(7));
}

/// Encoding what was parsed gives back the input: any two bytes sequences
/// that carry the bits of the same configuration are the same.
pub proof fn lemma_asc_parse_then_encode(input: Seq<u8>, c: AudioSpecificConfig, encoded: Seq<u8>)
    requires
        c.wf(),
        packs(input, asc_bits(c)),
        packs(encoded, asc_bits(c)),
    ensures
        encoded == input,
{
    crate::bits::lemma_packs_unique(encoded, input, asc_bits(c));
}

/// Parsing what was encoded gives back the configuration: the encoding of a
/// valid configuration is acceptable, and only that configuration packs it.
pub proof fn lemma_asc_encode_then_parse(c: AudioSpecificConfig, encoded: Seq<u8>, parsed: AudioSpecificConfig)
    requires
        c.wf(),
        packs(encoded, asc_bits(c)),
        parsed.wf(),
        packs(encoded, asc_bits(parsed)),
    ensures
        asc_acceptable(encoded),
        parsed == c,
{
    lemma_asc_encoding_injective(encoded, c, parsed);
}

/// The values a caller chooses when building an `mp4a` sample entry.
#[derive(Debug, Clone, PartialEq, Eq, Hash)]
pub struct Mp4aSampleEntryConfig {
    /// `ES_ID` (at least [`EsDescriptor::MIN_ES_ID`]; 0 is reserved)
    pub es_id: u16,
    /// Decoder buffer size in bytes; must fit in 24 bits
    pub buffer_size_db: u32,
    /// Maximum bitrate (bps)
    pub max_bitrate: u32,
    /// Average bitrate (bps; 0 when unknown)
    pub avg_bitrate: u32,
}

/// The audio fields of the `mp4a` entry built for `asc`: data reference index
/// 1, sample size 16, the configuration's channel count, and the sampling rate
/// when it fits in 16 bits (0 otherwise).
pub open spec fn mp4a_audio_fields(asc: AudioSpecificConfig) -> AudioSampleEntryFields {
    let hz = asc.sampling_frequency.hz_spec();
    AudioSampleEntryFields {
        data_reference_index: 1,
        channelcount: asc.channel_configuration.count(),
        samplesize: 16,
        samplerate: FixedPointNumber {
            integer: if hz <= 0xFFFF {
                hz as u16
            } else {
                0
            },
            fraction: 0,
        },
    }
}

/// The `ES_Descriptor` of the `mp4a` entry built with `config`, carrying
/// `payload` as its `DecoderSpecificInfo`: lowest priority, no optional
/// fields, MPEG-4 audio, audio stream, downstream.
pub open spec fn mp4a_es(config: Mp4aSampleEntryConfig, payload: Seq<u8>) -> EsDescriptorV {
    EsDescriptorV {
        es_id: config.es_id,
        stream_priority: 0,
        depends_on_es_id: None,
        url_string: None,
        ocr_es_id: None,
        dec_config_descr: DecoderConfigV {
            object_type_indication: 0x40,
            stream_type: 5,
            up_stream: 0,
            buffer_size_db: config.buffer_size_db,
            max_bitrate: config.max_bitrate,
            avg_bitrate: config.avg_bitrate,
            dec_specific_info: Some(payload),
        },
    }
}

/// The `mp4a` entry built for `asc` and `config`, with `payload` the encoded
/// configuration.
pub open spec fn mp4a_entry(
    asc: AudioSpecificConfig,
    config: Mp4aSampleEntryConfig,
    payload: Seq<u8>,
) -> EntryV<AudioSampleEntryFields, EsdsBoxV> {
    EntryV {
        fields: mp4a_audio_fields(asc),
        config: EsdsBoxV { es: mp4a_es(config, payload) },
        unknown_boxes: Seq::empty(),
    }
}

/// Channel counts: the configurations 1 to 6 read from a raw
/// `channelConfiguration` value have that many channels (5.1 has 6), and
/// configuration 7 (7.1) has 8.
pub proof fn lemma_channel_counts()
    ensures
        forall|k: int| 1 <= k <= 6 ==> ((#[trigger] channel_configuration_of(k)) matches Some(c) && c.count() == k),
        channel_configuration_of(7) matches Some(c) && c.count() == 8,
        forall|c: ChannelConfiguration| #[trigger] c.count() == if c.raw() == 7 {
            8
        } else {
            c.raw() as u16
        },
{
}

/// An `mp4a` entry built from a configuration describes an MPEG-4 audio
/// stream: object type indication 0x40 (MPEG-4 Audio), stream type 5
/// (AudioStream), not upstream, with the encoded configuration as decoder
/// specific information and the caller's ES id, buffer size and bit rates;
/// its fields give data reference 1, 16-bit samples, the configuration's
/// channel count (the raw value, 8 for 7.1) and its frequency when it fits
/// 16 bits.
pub proof fn lemma_mp4a_entry_describes_audio(
    asc: AudioSpecificConfig,
    config: Mp4aSampleEntryConfig,
    payload: Seq<u8>,
)
    ensures
        ({
            let e = mp4a_entry(asc, config, payload);
            let d = e.config.es.dec_config_descr;
            let hz = asc.sampling_frequency.hz_spec();
            &&& d.object_type_indication == 0x40
            &&& d.stream_type == 5
            &&& d.up_stream == 0
            &&& d.dec_specific_info == Some(payload)
            &&& d.buffer_size_db == config.buffer_size_db
            &&& d.max_bitrate == config.max_bitrate
            &&& d.avg_bitrate == config.avg_bitrate
            &&& e.config.es.es_id == config.es_id
            &&& e.unknown_boxes.len() == 0
            &&& e.fields.data_reference_index == 1
            &&& e.fields.samplesize == 16
            &&& e.fields.channelcount == if asc.channel_configuration.raw() == 7 {
                8
            } else {
                asc.channel_configuration.raw() as u16
            }
            &&& e.fields.samplerate.integer == if hz <= 0xFFFF {
                hz
            } else {
                0
            }
            &&& e.fields.samplerate.fraction == 0
        }),
{
}

proof fn lemma_mp4a_entry_valid(asc: AudioSpecificConfig, config: Mp4aSampleEntryConfig, payload: Seq<u8>)
    requires
        config.buffer_size_db <= 0xFF_FFFF,
        payload.len() <= 5,
    ensures
        Mp4aBox::valid(mp4a_entry(asc, config, payload)),
        box_encodable::<Mp4aBox>(mp4a_entry(asc, config, payload)),
{
    let es = mp4a_es(config, payload);
    lemma_size_bytes_small(payload.len());
    assert(dsi_bytes(Some(payload)).len() == 2 + payload.len());
    let dp = dcd_payload(es.dec_config_descr);
    assert(dp.len() <= 20);
    lemma_size_bytes_small(dp.len());
    assert(dcd_bytes(es.dec_config_descr).len() <= 22);
    lemma_size_bytes_small(1);
    let ep = es_payload(es);
    assert(ep.len() <= 28);
    lemma_size_bytes_small(ep.len());
    let v = mp4a_entry(asc, config, payload);
    assert(crate::codec::unknowns_bytes(v.unknown_boxes) =~= Seq::<u8>::empty());
    assert(crate::codec::unknowns_valid(v.unknown_boxes));
    crate::entry::lemma_entry_roundtrip::<AudioSampleEntryFields, EsdsBox>(v);
}

/// Builds an `mp4a` sample entry for an AAC-LC configuration.
///
/// The `esds` carries the canonical encoding of `asc` as its
/// `DecoderSpecificInfo`. Fails with `InvalidInput` when `es_id` is 0 or
/// `buffer_size_db` does not fit in 24 bits. The entry built can be encoded
/// and decodes back to itself.
pub fn build_mp4a_box(asc: &AudioSpecificConfig, config: &Mp4aSampleEntryConfig) -> (r: Result<
    Mp4aBox,
    Error,
>)
    ensures
        r is Ok <==> config.es_id >= 1 && config.buffer_size_db <= 0xFF_FFFF,
        r matches Err(e) ==> e.kind == ErrorKind::InvalidInput,
        r matches Ok(b) ==> b@.config.es.dec_config_descr.dec_specific_info matches Some(p) && packs(
            p,
            asc_bits(*asc),
        ) && b@ == mp4a_entry(*asc, *config, p),
        r matches Ok(b) ==> Mp4aBox::valid(b@) && box_encodable::<Mp4aBox>(b@),
        r matches Ok(b) ==> b@.config.es.dec_config_descr.stream_type == 5
            && b@.config.es.dec_config_descr.object_type_indication == 0x40
            && b@.fields.channelcount == if asc.channel_configuration.raw() == 7 {
            8
        } else {
            asc.channel_configuration.raw() as u16
        },
{
    proof {
        use_type_invariant(&asc.sampling_frequency);
    }
    let payload = encode_audio_specific_config(asc);
    let hz = asc.sampling_frequency.hz();
    if config.es_id < EsDescriptor::MIN_ES_ID {
        return Err(Error::invalid_input("es_id must be 1 or greater (0 is reserved)"));
    }
    if config.buffer_size_db > 0xFF_FFFF {
        return Err(Error::invalid_input("buffer_size_db must fit in 24 bits (0..=16777215)"));
    }
    let audio = AudioSampleEntryFields {
        data_reference_index: AudioSampleEntryFields::DEFAULT_DATA_REFERENCE_INDEX,
        channelcount: asc.channel_configuration.channel_count(),
        samplesize: AudioSampleEntryFields::DEFAULT_SAMPLESIZE,
        samplerate: FixedPointNumber::new(
            if hz <= 0xFFFF {
                hz as u16
            } else {
                0
            },
            0,
        ),
    };
    let ghost p = payload@;
    let esds_box = EsdsBox {
        es: EsDescriptor {
            es_id: config.es_id,
            stream_priority: EsDescriptor::LOWEST_STREAM_PRIORITY,
            depends_on_es_id: None,
            url_string: None,
            ocr_es_id: None,
            dec_config_descr: DecoderConfigDescriptor {
                object_type_indication:
                    DecoderConfigDescriptor::OBJECT_TYPE_INDICATION_AUDIO_ISO_IEC_14496_3,
                stream_type: DecoderConfigDescriptor::STREAM_TYPE_AUDIO,
                up_stream: DecoderConfigDescriptor::UP_STREAM_FALSE,
                buffer_size_db: config.buffer_size_db,
                max_bitrate: config.max_bitrate,
                avg_bitrate: config.avg_bitrate,
                dec_specific_info: Some(DecoderSpecificInfo { payload }),
            },
            sl_config_descr: SlConfigDescriptor,
        },
    };
    let unknown_boxes = Vec::new();
    let b = Mp4aBox { audio, esds_box, unknown_boxes };
    proof {
        assert(unknowns_view(b.unknown_boxes@) =~= Seq::empty());
        assert(b@ == mp4a_entry(*asc, *config, p));
        lemma_mp4a_entry_valid(*asc, *config, p);
    }
    Ok(b)
}

} // verus!
