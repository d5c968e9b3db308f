use shiguredo_mp4::aac::{
    build_mp4a_box, encode_audio_specific_config, parse_adts_frame, parse_audio_specific_config,
    wrap_raw_aac_in_adts, AdtsEncodeConfig, AdtsMpegVersion, AudioObjectType, AudioSpecificConfig,
    ChannelConfiguration, Mp4aSampleEntryConfig, SamplingFrequency,
};
use shiguredo_mp4::entry::AudioSampleEntryFields;
use shiguredo_mp4::error::ErrorKind;
use shiguredo_mp4::esds::EsDescriptor;
use shiguredo_mp4::sample_entries::Mp4aBox;

///
#[derive(Debug, Clone, Default)]
struct BitWriter {
    bytes: Vec<u8>,
    bit_pos: u8,
}

impl BitWriter {
    fn new() -> Self {
        Self::default()
    }

    fn push_bits(&mut self, value: u32, n: u32) {
        for i in (0..n).rev() {
            let bit = ((value >> i) & 1) as u8;
            if self.bit_pos == 0 {
                self.bytes.push(0);
            }
            let last = self.bytes.len() - 1;
            self.bytes[last] |= bit << (7 - self.bit_pos);
            self.bit_pos = (self.bit_pos + 1) % 8;
        }
    }

    fn push_bit(&mut self, bit: u8) {
        self.push_bits(u32::from(bit), 1);
    }

    fn into_bytes(self) -> Vec<u8> {
        self.bytes
    }
}

///
fn build_asc(
    aot: u8,
    sampling_frequency_index: u8,
    explicit: Option<u32>,
    channel_configuration: u8,
    flags: [u8; 3],
) -> Vec<u8> {
    let mut w = BitWriter::new();
    w.push_bits(u32::from(aot), 5);
    w.push_bits(u32::from(sampling_frequency_index), 4);
    if let Some(freq) = explicit {
        w.push_bits(freq, 24);
    }
    w.push_bits(u32::from(channel_configuration), 4);
    w.push_bit(flags[0]);
    w.push_bit(flags[1]);
    w.push_bit(flags[2]);
    w.into_bytes()
}

///
#[allow(clippy::too_many_arguments)]
fn build_adts_header(
    syncword: u32,
    id: u8,
    layer: u32,
    protection_absent: u8,
    profile: u32,
    sampling_frequency_index: u8,
    private_bit: u8,
    channel_configuration: u8,
    original_copy: u8,
    home: u8,
    copyright_bit: u8,
    copyright_start: u8,
    frame_length: u16,
    buffer_fullness: u32,
    nrdb: u32,
    crc: Option<u16>,
) -> Vec<u8> {
    let mut w = BitWriter::new();
    w.push_bits(syncword, 12);
    w.push_bit(id);
    w.push_bits(layer, 2);
    w.push_bit(protection_absent);
    w.push_bits(profile, 2);
    w.push_bits(u32::from(sampling_frequency_index), 4);
    w.push_bit(private_bit);
    w.push_bits(u32::from(channel_configuration), 3);
    w.push_bit(original_copy);
    w.push_bit(home);
    w.push_bit(copyright_bit);
    w.push_bit(copyright_start);
    w.push_bits(u32::from(frame_length), 13);
    w.push_bits(buffer_fullness, 11);
    w.push_bits(nrdb, 2);
    let mut bytes = w.into_bytes();
    if let Some(crc) = crc {
        bytes.extend_from_slice(&crc.to_be_bytes());
    }
    bytes
}

fn asc_48k_stereo() -> AudioSpecificConfig {
    AudioSpecificConfig {
        audio_object_type: AudioObjectType::AacLc,
        sampling_frequency: SamplingFrequency::from_hz(48000).expect("48000 is accepted"),
        channel_configuration: ChannelConfiguration::Stereo,
    }
}

fn default_mp4a_config() -> Mp4aSampleEntryConfig {
    Mp4aSampleEntryConfig {
        es_id: 1,
        buffer_size_db: 0,
        max_bitrate: 128000,
        avg_bitrate: 128000,
    }
}

fn default_adts_config() -> AdtsEncodeConfig {
    AdtsEncodeConfig {
        mpeg_version: AdtsMpegVersion::Mpeg4,
        original_copy: false,
        home: false,
    }
}


#[test]
fn parse_asc_48k_stereo() {
    let config = parse_audio_specific_config(&[0x11, 0x90])
        .expect("0x11 0x90 (AAC-LC 48kHz stereo) parses");
    assert_eq!(config.audio_object_type, AudioObjectType::AacLc);
    assert_eq!(config.sampling_frequency.hz(), 48000);
    assert_eq!(config.channel_configuration, ChannelConfiguration::Stereo);
}

#[test]
fn parse_asc_44100_mono() {
    let config = parse_audio_specific_config(&[0x12, 0x08])
        .expect("0x12 0x08 (AAC-LC 44.1kHz mono) parses");
    assert_eq!(config.audio_object_type, AudioObjectType::AacLc);
    assert_eq!(config.sampling_frequency.hz(), 44100);
    assert_eq!(config.channel_configuration, ChannelConfiguration::Mono);
}

#[test]
fn parse_asc_44100_stereo() {
    let config = parse_audio_specific_config(&[0x12, 0x10])
        .expect("0x12 0x10 (AAC-LC 44.1kHz stereo) parses");
    assert_eq!(config.sampling_frequency.hz(), 44100);
    assert_eq!(config.channel_configuration, ChannelConfiguration::Stereo);
}

#[test]
fn parse_asc_frequency_index_boundaries() {
    // index 0 (96000)
    let bytes = build_asc(2, 0, None, 2, [0, 0, 0]);
    let config = parse_audio_specific_config(&bytes).expect("index 0 parses");
    assert_eq!(config.sampling_frequency.hz(), 96000);

    // index 12 (7350)
    let bytes = build_asc(2, 12, None, 1, [0, 0, 0]);
    let config = parse_audio_specific_config(&bytes).expect("index 12 parses");
    assert_eq!(config.sampling_frequency.hz(), 7350);
}

#[test]
fn parse_asc_channel_configuration_7() {
    let bytes = build_asc(2, 3, None, 7, [0, 0, 0]);
    let config = parse_audio_specific_config(&bytes).expect("channel 7 parses");
    assert_eq!(
        config.channel_configuration,
        ChannelConfiguration::SevenPointOne
    );
}

#[test]
fn parse_asc_explicit_frequency() {
    let bytes = build_asc(2, 15, Some(44100), 2, [0, 0, 0]);
    let config = parse_audio_specific_config(&bytes).expect("explicit frequency parses");
    assert_eq!(config.sampling_frequency.hz(), 44100);
    assert_eq!(config.channel_configuration, ChannelConfiguration::Stereo);
    let bytes = build_asc(2, 15, Some(0xFF_FFFF), 1, [0, 0, 0]);
    let config = parse_audio_specific_config(&bytes).expect("the largest explicit frequency parses");
    assert_eq!(config.sampling_frequency.hz(), 0xFF_FFFF);
}


#[test]
fn reject_asc_empty_input() {
    let err = parse_audio_specific_config(&[]).expect_err("empty input is rejected");
    assert_eq!(err.kind, ErrorKind::InvalidInput);
}

#[test]
fn reject_asc_short_input() {
    let err = parse_audio_specific_config(&[0x11]).expect_err("one byte of input is rejected");
    assert_eq!(err.kind, ErrorKind::InvalidInput);
}

#[test]
fn reject_asc_non_aac_lc_aot() {
    for aot in [1u8, 5, 31] {
        let bytes = build_asc(aot, 3, None, 2, [0, 0, 0]);
        let err =
            parse_audio_specific_config(&bytes).expect_err(&format!("AOT {aot} is rejected"));
        assert_eq!(err.kind, ErrorKind::InvalidInput);
    }
}

#[test]
fn reject_asc_reserved_frequency_index() {
    for index in [13u8, 14] {
        let bytes = build_asc(2, index, None, 2, [0, 0, 0]);
        let err =
            parse_audio_specific_config(&bytes).expect_err(&format!("sfi {index} is rejected"));
        assert_eq!(err.kind, ErrorKind::InvalidInput);
    }
}

#[test]
fn reject_asc_explicit_frequency_zero() {
    let bytes = build_asc(2, 15, Some(0), 2, [0, 0, 0]);
    let err = parse_audio_specific_config(&bytes).expect_err("explicit frequency 0 is rejected");
    assert_eq!(err.kind, ErrorKind::InvalidInput);
}

#[test]
fn reject_asc_invalid_channel_configuration() {
    for channel in [0u8, 8, 15] {
        let bytes = build_asc(2, 3, None, channel, [0, 0, 0]);
        let err = parse_audio_specific_config(&bytes)
            .expect_err(&format!("channel {channel} is rejected"));
        assert_eq!(err.kind, ErrorKind::InvalidInput);
    }
}

///
#[test]
fn reject_asc_nonzero_gaspecific_flags() {
    let flags_variants: [[u8; 3]; 3] = [[1, 0, 0], [0, 1, 0], [0, 0, 1]];
    for flags in flags_variants {
        let bytes = build_asc(2, 3, None, 2, flags);
        let err = parse_audio_specific_config(&bytes)
            .expect_err(&format!("flags {flags:?} is rejected"));
        assert_eq!(err.kind, ErrorKind::InvalidInput);
    }
}

///
#[test]
fn reject_asc_trailing_bytes() {
    let err = parse_audio_specific_config(&[0x12, 0x08, 0x56, 0xe5, 0x00])
        .expect_err("trailing SBR extension bytes is rejected");
    assert_eq!(err.kind, ErrorKind::InvalidInput);
}

#[test]
fn reject_asc_zero_padded_trailing_byte() {
    let err = parse_audio_specific_config(&[0x12, 0x10, 0x00])
        .expect_err("trailing zero padding is rejected");
    assert_eq!(err.kind, ErrorKind::InvalidInput);
}

// ===== encode_audio_specific_config =====

#[test]
fn encode_asc_roundtrip() {
    let inputs: [&[u8]; 5] = [
        &[0x11, 0x90], // 48 kHz stereo
        &[0x12, 0x10], // 44.1 kHz stereo
        &[0x16, 0x08], // 7350 Hz mono
        &[0x10, 0x10], // 96 kHz stereo
        &[0x11, 0xb8], // 48 kHz 8ch
    ];
    for input in inputs {
        let config = parse_audio_specific_config(input).expect("the input parses");
        let encoded = encode_audio_specific_config(&config);
        assert_eq!(
            encoded, input,
            "encode(parse({input:?})) matches the input"
        );
    }
}

#[test]
fn encode_asc_explicit_frequency_roundtrip() {
    let bytes = build_asc(2, 15, Some(44100), 2, [0, 0, 0]);
    let config = parse_audio_specific_config(&bytes).expect("explicit frequency parses");
    let encoded = encode_audio_specific_config(&config);
    assert_eq!(encoded.len(), 5);
    assert_eq!(encoded, bytes);
    let reparsed = parse_audio_specific_config(&encoded).expect("parses again");
    assert_eq!(reparsed, config);
}

#[test]
fn encode_asc_hand_built_valid() {
    let config = AudioSpecificConfig {
        audio_object_type: AudioObjectType::AacLc,
        sampling_frequency: SamplingFrequency::from_hz(44100).expect("44100 is accepted"),
        channel_configuration: ChannelConfiguration::Mono,
    };
    let encoded = encode_audio_specific_config(&config);
    assert_eq!(encoded, [0x12, 0x08]);
}

// ===== SamplingFrequency::from_hz =====

#[test]
fn sampling_frequency_from_hz_standard_frequency_is_index() {
    for hz in [96000u32, 48000, 7350] {
        let frequency = SamplingFrequency::from_hz(hz).expect("a valid Hz is accepted");
        assert_eq!(frequency.hz(), hz);
        let config = AudioSpecificConfig {
            audio_object_type: AudioObjectType::AacLc,
            sampling_frequency: frequency,
            channel_configuration: ChannelConfiguration::Stereo,
        };
        assert_eq!(encode_audio_specific_config(&config).len(), 2);
    }

    let config = AudioSpecificConfig {
        audio_object_type: AudioObjectType::AacLc,
        sampling_frequency: SamplingFrequency::from_hz(48000).expect("48000 is accepted"),
        channel_configuration: ChannelConfiguration::Stereo,
    };
    let encoded = encode_audio_specific_config(&config);
    assert_eq!(encoded, [0x11, 0x90]);
}

#[test]
fn sampling_frequency_from_hz_non_standard_frequency_is_explicit() {
    for hz in [44000u32, 65535, 0xFF_FFFF] {
        let frequency = SamplingFrequency::from_hz(hz).expect("a valid Hz is accepted");
        assert_eq!(frequency.hz(), hz);
        let config = AudioSpecificConfig {
            audio_object_type: AudioObjectType::AacLc,
            sampling_frequency: frequency,
            channel_configuration: ChannelConfiguration::Stereo,
        };
        assert_eq!(encode_audio_specific_config(&config).len(), 5);
    }
}

#[test]
fn reject_sampling_frequency_from_hz_invalid_range() {
    for hz in [0u32, 0x0100_0000] {
        let err =
            SamplingFrequency::from_hz(hz).expect_err(&format!("{hz} Hz is rejected by from_hz"));
        assert_eq!(err.kind, ErrorKind::InvalidInput);
    }
}

#[test]
fn audio_object_type_aac_lc_as_u8_is_2() {
    assert_eq!(AudioObjectType::AacLc.as_u8(), 2);
}


#[test]
fn parse_adts_7byte_header() {
    let header = build_adts_header(0xFFF, 0, 0, 1, 1, 4, 0, 1, 0, 0, 0, 0, 10, 0x7FF, 0, None);
    assert_eq!(header.len(), 7);
    let raw = [0xAA, 0xBB, 0xCC];
    let mut frame = header.clone();
    frame.extend_from_slice(&raw);

    let (parsed, parsed_raw) = parse_adts_frame(&frame).expect("a 7-byte header parses");
    assert_eq!(parsed.mpeg_version, AdtsMpegVersion::Mpeg4);
    assert!(parsed.protection_absent);
    assert_eq!(parsed.audio_object_type, AudioObjectType::AacLc);
    assert_eq!(parsed.sampling_frequency_index, 4);
    assert_eq!(parsed.channel_configuration, ChannelConfiguration::Mono);
    assert_eq!(parsed.frame_length, 10);
    assert!(!parsed.original_copy);
    assert!(!parsed.home);
    assert_eq!(parsed_raw, &raw[..]);
}

#[test]
fn parse_adts_mpeg2() {
    let header = build_adts_header(0xFFF, 1, 0, 1, 1, 3, 0, 2, 0, 0, 0, 0, 9, 0x7FF, 0, None);
    let mut frame = header.clone();
    frame.extend_from_slice(&[0x01, 0x02]);
    let (parsed, _) = parse_adts_frame(&frame).expect("MPEG-2 parses");
    assert_eq!(parsed.mpeg_version, AdtsMpegVersion::Mpeg2);
    assert_eq!(parsed.sampling_frequency_index, 3);
    assert_eq!(parsed.channel_configuration, ChannelConfiguration::Stereo);
}

#[test]
fn parse_adts_original_copy_and_home() {
    let header = build_adts_header(0xFFF, 0, 0, 1, 1, 3, 0, 2, 1, 1, 0, 0, 9, 0x7FF, 0, None);
    let mut frame = header.clone();
    frame.extend_from_slice(&[0x01, 0x02]);
    let (parsed, _) = parse_adts_frame(&frame).expect("with original_copy / home parses");
    assert!(parsed.original_copy);
    assert!(parsed.home);
}

///
#[test]
fn parse_adts_private_bit_and_copyright_accepted() {
    let header = build_adts_header(0xFFF, 0, 0, 1, 1, 3, 1, 2, 0, 0, 1, 1, 9, 0x7FF, 0, None);
    let mut frame = header.clone();
    frame.extend_from_slice(&[0x01, 0x02]);
    let (parsed, parsed_raw) =
        parse_adts_frame(&frame).expect("private_bit=1 / copyright=1 are skipped and accepted");
    assert_eq!(parsed.sampling_frequency_index, 3);
    assert_eq!(parsed.channel_configuration, ChannelConfiguration::Stereo);
    assert_eq!(parsed_raw, &[0x01, 0x02][..]);
}

///
#[test]
fn parse_adts_9byte_header_with_crc() {
    let header = build_adts_header(
        0xFFF,
        0,
        0,
        0,
        1,
        3,
        0,
        2,
        0,
        0,
        0,
        0,
        11,
        0x7FF,
        0,
        Some(0x1234),
    );
    assert_eq!(header.len(), 9);
    let raw = [0xDE, 0xAD];
    let mut frame = header.clone();
    frame.extend_from_slice(&raw);

    let (parsed, parsed_raw) = parse_adts_frame(&frame).expect("with CRC parses");
    assert!(!parsed.protection_absent);
    assert_eq!(parsed.frame_length, 11);
    assert_eq!(parsed_raw, &raw[..]);
}

#[test]
fn parse_adts_trailing_bytes_are_ignored() {
    let header = build_adts_header(0xFFF, 0, 0, 1, 1, 3, 0, 2, 0, 0, 0, 0, 8, 0x7FF, 0, None);
    let mut frame = header.clone();
    frame.extend_from_slice(&[0x01, 0x02]);
    frame.push(0xFF);

    let (parsed, parsed_raw) = parse_adts_frame(&frame).expect("trailing bytes parses");
    assert_eq!(parsed.frame_length, 8);
    assert_eq!(parsed_raw, &[0x01][..]);
}


#[test]
fn reject_adts_wrong_syncword() {
    for syncword in [0u32, 0xFFE, 0x7FF] {
        let header =
            build_adts_header(syncword, 0, 0, 1, 1, 3, 0, 2, 0, 0, 0, 0, 9, 0x7FF, 0, None);
        let mut frame = header.clone();
        frame.extend_from_slice(&[0x01, 0x02]);
        let err =
            parse_adts_frame(&frame).expect_err(&format!("syncword {syncword:#x} is rejected"));
        assert_eq!(err.kind, ErrorKind::InvalidInput);
    }
}

#[test]
fn reject_adts_nonzero_layer() {
    for layer in [1u32, 3] {
        let header = build_adts_header(
            0xFFF, 0, layer, 1, 1, 3, 0, 2, 0, 0, 0, 0, 9, 0x7FF, 0, None,
        );
        let mut frame = header.clone();
        frame.extend_from_slice(&[0x01, 0x02]);
        let err = parse_adts_frame(&frame).expect_err(&format!("layer {layer} is rejected"));
        assert_eq!(err.kind, ErrorKind::InvalidInput);
    }
}

#[test]
fn reject_adts_profile_not_aac_lc() {
    for profile in [0u32, 2, 3] {
        let header = build_adts_header(
            0xFFF, 0, 0, 1, profile, 3, 0, 2, 0, 0, 0, 0, 9, 0x7FF, 0, None,
        );
        let mut frame = header.clone();
        frame.extend_from_slice(&[0x01, 0x02]);
        let err = parse_adts_frame(&frame).expect_err(&format!("profile {profile} is rejected"));
        assert_eq!(err.kind, ErrorKind::InvalidInput);
    }
}

#[test]
fn reject_adts_reserved_frequency_index() {
    for index in [13u8, 14, 15] {
        let header = build_adts_header(
            0xFFF, 0, 0, 1, 1, index, 0, 2, 0, 0, 0, 0, 9, 0x7FF, 0, None,
        );
        let mut frame = header.clone();
        frame.extend_from_slice(&[0x01, 0x02]);
        let err = parse_adts_frame(&frame).expect_err(&format!("sfi {index} is rejected"));
        assert_eq!(err.kind, ErrorKind::InvalidInput);
    }
}

///
#[test]
fn reject_adts_invalid_channel_configuration() {
    let channel = 0u8;
    let header = build_adts_header(
        0xFFF, 0, 0, 1, 1, 3, 0, channel, 0, 0, 0, 0, 9, 0x7FF, 0, None,
    );
    let mut frame = header.clone();
    frame.extend_from_slice(&[0x01, 0x02]);
    let err = parse_adts_frame(&frame).expect_err(&format!("channel {channel} is rejected"));
    assert_eq!(err.kind, ErrorKind::InvalidInput);
}

#[test]
fn reject_adts_multiple_raw_data_blocks() {
    for nrdb in [1u32, 3] {
        let header =
            build_adts_header(0xFFF, 0, 0, 1, 1, 3, 0, 2, 0, 0, 0, 0, 9, 0x7FF, nrdb, None);
        let mut frame = header.clone();
        frame.extend_from_slice(&[0x01, 0x02]);
        let err = parse_adts_frame(&frame).expect_err(&format!("nrdb {nrdb} is rejected"));
        assert_eq!(err.kind, ErrorKind::InvalidInput);
    }
}

#[test]
fn reject_adts_frame_length_below_header() {
    let header = build_adts_header(0xFFF, 0, 0, 1, 1, 3, 0, 2, 0, 0, 0, 0, 6, 0x7FF, 0, None);
    let err = parse_adts_frame(&header).expect_err("frame_length below the header is rejected");
    assert_eq!(err.kind, ErrorKind::InvalidInput);
}

#[test]
fn reject_adts_frame_length_exceeds_input() {
    let header = build_adts_header(0xFFF, 0, 0, 1, 1, 3, 0, 2, 0, 0, 0, 0, 12, 0x7FF, 0, None);
    let mut frame = header.clone();
    frame.extend_from_slice(&[0x01, 0x02]);
    let err = parse_adts_frame(&frame).expect_err("frame_length beyond the input is rejected");
    assert_eq!(err.kind, ErrorKind::InvalidInput);
}

#[test]
fn reject_adts_truncated_header() {
    let header = build_adts_header(0xFFF, 0, 0, 1, 1, 3, 0, 2, 0, 0, 0, 0, 9, 0x7FF, 0, None);
    let truncated = &header[..5];
    let err = parse_adts_frame(truncated).expect_err("a truncated header is rejected");
    assert_eq!(err.kind, ErrorKind::InvalidInput);
}

// ===== wrap_raw_aac_in_adts =====

#[test]
fn wrap_raw_aac_in_adts_roundtrip() {
    let asc = asc_48k_stereo();
    let raw = [0xAA, 0xBB, 0xCC, 0xDD];
    let config = AdtsEncodeConfig {
        mpeg_version: AdtsMpegVersion::Mpeg2,
        original_copy: true,
        home: true,
    };
    let frame = wrap_raw_aac_in_adts(&raw, &asc, &config).expect("builds");
    assert_eq!(frame.len(), 7 + raw.len());

    let (header, parsed_raw) = parse_adts_frame(&frame).expect("the built frame parses");
    assert_eq!(header.mpeg_version, AdtsMpegVersion::Mpeg2);
    assert!(header.protection_absent);
    assert_eq!(header.audio_object_type, AudioObjectType::AacLc);
    assert_eq!(header.sampling_frequency_index, 3);
    assert_eq!(header.channel_configuration, ChannelConfiguration::Stereo);
    assert_eq!(header.frame_length, 11);
    assert!(header.original_copy);
    assert!(header.home);
    assert_eq!(parsed_raw, &raw[..]);
}

#[test]
fn reject_wrap_adts_explicit_frequency() {
    let asc = AudioSpecificConfig {
        audio_object_type: AudioObjectType::AacLc,
        sampling_frequency: SamplingFrequency::from_hz(44000).expect("44000 is accepted"),
        channel_configuration: ChannelConfiguration::Stereo,
    };
    let err = wrap_raw_aac_in_adts(&[0x01], &asc, &default_adts_config())
        .expect_err("an ASC with an explicit frequency is rejected");
    assert_eq!(err.kind, ErrorKind::InvalidInput);
}

#[test]
fn reject_wrap_adts_frame_length_overflow() {
    let asc = asc_48k_stereo();
    let raw = vec![0u8; 8185];
    let err = wrap_raw_aac_in_adts(&raw, &asc, &default_adts_config())
        .expect_err("a frame_length beyond 13 bits is rejected");
    assert_eq!(err.kind, ErrorKind::InvalidInput);
}

// ===== build_mp4a_box =====

#[test]
fn build_mp4a_box_fixed_and_derived_values() {
    let asc = asc_48k_stereo();
    let config = Mp4aSampleEntryConfig {
        es_id: 7,
        buffer_size_db: 65536,
        max_bitrate: 256000,
        avg_bitrate: 128000,
    };
    let mp4a = build_mp4a_box(&asc, &config).expect("a valid ASC builds");

    assert_eq!(mp4a.audio.channelcount, 2);
    assert_eq!(mp4a.audio.samplerate.integer, 48000);
    assert_eq!(mp4a.audio.samplerate.fraction, 0);

    assert_eq!(
        mp4a.audio.data_reference_index,
        AudioSampleEntryFields::DEFAULT_DATA_REFERENCE_INDEX
    );
    assert_eq!(
        mp4a.audio.samplesize,
        AudioSampleEntryFields::DEFAULT_SAMPLESIZE
    );
    assert!(mp4a.unknown_boxes.is_empty());
    assert_eq!(
        mp4a.esds_box.es.stream_priority,
        EsDescriptor::LOWEST_STREAM_PRIORITY
    );

    assert_eq!(mp4a.esds_box.es.es_id, 7);
    assert_eq!(
        mp4a.esds_box.es.dec_config_descr.buffer_size_db,
        65536
    );
    assert_eq!(mp4a.esds_box.es.dec_config_descr.max_bitrate, 256000);
    assert_eq!(mp4a.esds_box.es.dec_config_descr.avg_bitrate, 128000);

    let payload = mp4a
        .esds_box
        .es
        .dec_config_descr
        .dec_specific_info
        .as_ref()
        .expect("dec_specific_info is present")
        .payload
        .clone();
    assert_eq!(payload, [0x11, 0x90]);
    let reparsed = parse_audio_specific_config(&payload).expect("the payload parses again");
    assert_eq!(reparsed, asc);
}

#[test]
fn build_mp4a_box_channel_7_maps_to_8_channels() {
    let asc = AudioSpecificConfig {
        audio_object_type: AudioObjectType::AacLc,
        sampling_frequency: SamplingFrequency::from_hz(48000).expect("48000 is accepted"),
        channel_configuration: ChannelConfiguration::SevenPointOne,
    };
    let mp4a = build_mp4a_box(&asc, &default_mp4a_config()).expect("channel 7 builds");
    assert_eq!(mp4a.audio.channelcount, 8);
}

///
#[test]
fn build_mp4a_box_96khz_samplerate_zero() {
    let asc = AudioSpecificConfig {
        audio_object_type: AudioObjectType::AacLc,
        sampling_frequency: SamplingFrequency::from_hz(96000).expect("96000 is accepted"),
        channel_configuration: ChannelConfiguration::Stereo,
    };
    let mp4a = build_mp4a_box(&asc, &default_mp4a_config()).expect("96 kHz builds");
    assert_eq!(mp4a.audio.samplerate.integer, 0);
    assert_eq!(mp4a.audio.samplerate.fraction, 0);
    let payload = mp4a
        .esds_box
        .es
        .dec_config_descr
        .dec_specific_info
        .as_ref()
        .expect("dec_specific_info is present")
        .payload
        .clone();
    let reparsed = parse_audio_specific_config(&payload).expect("the payload parses again");
    assert_eq!(reparsed.sampling_frequency.hz(), 96000);
}

#[test]
fn build_mp4a_box_explicit_frequency_over_u16() {
    let asc = AudioSpecificConfig {
        audio_object_type: AudioObjectType::AacLc,
        sampling_frequency: SamplingFrequency::from_hz(70000).expect("70000 is accepted"),
        channel_configuration: ChannelConfiguration::Stereo,
    };
    let mp4a =
        build_mp4a_box(&asc, &default_mp4a_config()).expect("explicit frequency 70000 builds");
    assert_eq!(mp4a.audio.samplerate.integer, 0);
}

#[test]
fn reject_build_mp4a_box_zero_es_id() {
    let asc = asc_48k_stereo();
    let config = Mp4aSampleEntryConfig {
        es_id: 0,
        ..default_mp4a_config()
    };
    let err = build_mp4a_box(&asc, &config).expect_err("es_id 0 is rejected");
    assert_eq!(err.kind, ErrorKind::InvalidInput);
}

#[test]
fn reject_build_mp4a_box_buffer_size_db_overflow() {
    let asc = asc_48k_stereo();
    let config = Mp4aSampleEntryConfig {
        buffer_size_db: 0x0100_0000,
        ..default_mp4a_config()
    };
    let err = build_mp4a_box(&asc, &config).expect_err("buffer_size_db beyond 24 bits is rejected");
    assert_eq!(err.kind, ErrorKind::InvalidInput);
}

#[test]
fn build_mp4a_box_roundtrip() {
    let asc = asc_48k_stereo();
    let mp4a = build_mp4a_box(&asc, &default_mp4a_config()).expect("builds");
    let encoded = mp4a.encode_to_vec().expect("encodes");
    let (decoded, size) = Mp4aBox::decode(&encoded).expect("decodes");
    assert_eq!(size, encoded.len());
    assert_eq!(decoded, mp4a);
}

// ===== ADTS stream tests =====

/// The 7 header bytes of an ADTS frame of AAC-LC / 44.1 kHz / mono (MPEG-4,
/// no CRC, VBR buffer fullness 0x7FF, one raw data block), laid out bit by
/// bit from the ADTS header syntax.
fn adts_lc_44100_mono_header(frame_length: u16) -> [u8; 7] {
    let fl = frame_length as u32;
    [
        0xFF,                                  // syncword (high 8 bits)
        0xF1,                                  // syncword, ID = 0, layer = 0, protection_absent = 1
        0x50,                                  // profile = 1, sf_index = 4, private = 0, channel (bit 2) = 0
        0x40 | (fl >> 11) as u8,               // channel (bits 1..0) = 01, flags = 0, frame_length (12..11)
        (fl >> 3) as u8,                       // frame_length (10..3)
        (((fl & 7) << 5) as u8) | 0x1F,        // frame_length (2..0), buffer fullness (10..6)
        0xFC,                                  // buffer fullness (5..0), raw data blocks - 1 = 0
    ]
}

/// An ADTS stream of AAC-LC / 44.1 kHz / mono frames with raw payloads of
/// varied sizes; the headers are written out by hand above, not by the
/// library's own header writer.
fn adts_stream() -> Vec<u8> {
    let mut stream = Vec::new();
    for (i, raw_len) in [6usize, 21, 1, 300, 17].into_iter().enumerate() {
        let frame_length = (7 + raw_len) as u16;
        stream.extend_from_slice(&adts_lc_44100_mono_header(frame_length));
        for j in 0..raw_len {
            stream.push((i * 31 + j) as u8);
        }
    }
    stream
}

/// The first frame of an ADTS stream parses
#[test]
fn real_adts_first_frame_parses() {
    let stream = adts_stream();
    let (header, raw) = parse_adts_frame(&stream).expect("the first ADTS frame parses");
    // The library writes the same 7 header bytes for this frame.
    let written = build_adts_header(0xFFF, 0, 0, 1, 1, 4, 0, 1, 0, 0, 0, 0, 13, 0x7FF, 0, None);
    assert_eq!(written[..], stream[..7]);
    assert_eq!(header.mpeg_version, AdtsMpegVersion::Mpeg4);
    assert!(header.protection_absent);
    assert_eq!(header.audio_object_type, AudioObjectType::AacLc);
    assert_eq!(header.sampling_frequency_index, 4);
    assert_eq!(header.channel_configuration, ChannelConfiguration::Mono);
    assert_eq!(header.frame_length as usize, 7 + raw.len());
    assert!(!raw.is_empty(), "the raw AAC payload is not empty");
}

/// Every frame of an ADTS stream parses, one after the other
#[test]
fn real_adts_all_frames_parse() {
    let stream = adts_stream();
    let mut offset = 0;
    let mut count = 0;
    while offset < stream.len() {
        let (header, raw) =
            parse_adts_frame(&stream[offset..]).expect("every ADTS frame parses");
        assert_eq!(header.sampling_frequency_index, 4);
        assert_eq!(header.channel_configuration, ChannelConfiguration::Mono);
        offset += header.frame_length as usize;
        count += 1;
        assert!(!raw.is_empty(), "every frame has a raw AAC payload");
    }
    assert!(count >= 2, "the stream holds several frames");
}

// ===== SamplingFrequency::from_index / ChannelConfiguration::from_raw =====

#[test]
fn sampling_frequency_from_index_table() {
    for (index, hz) in [
        (0u8, 96000u32),
        (3, 48000),
        (4, 44100),
        (6, 24000),
        (12, 7350),
    ] {
        let frequency = SamplingFrequency::from_index(index).expect("index 0..=12 is accepted");
        assert_eq!(frequency.hz(), hz);
    }
}

#[test]
fn sampling_frequency_from_index_rejects_reserved_and_explicit() {
    for index in [13u8, 14, 15, 16, 255] {
        let err =
            SamplingFrequency::from_index(index).expect_err(&format!("index {index} is rejected"));
        assert_eq!(err.kind, ErrorKind::InvalidInput);
    }
}

#[test]
fn sampling_frequency_from_index_matches_from_hz() {
    let from_index = SamplingFrequency::from_index(3).expect("index 3 is accepted");
    let from_hz = SamplingFrequency::from_hz(48000).expect("48000 is accepted");
    assert_eq!(from_index, from_hz);
}

#[test]
fn channel_configuration_from_raw_accepts_1_to_7() {
    for raw in 1u8..=7 {
        let channel_configuration =
            ChannelConfiguration::from_raw(raw).expect("1..=7 is accepted");
        assert_eq!(channel_configuration.as_u8(), raw);
    }
    assert_eq!(
        ChannelConfiguration::from_raw(7)
            .expect("7 is accepted")
            .channel_count(),
        8
    );
}

#[test]
fn channel_configuration_from_raw_rejects_pce_and_reserved() {
    for raw in [0u8, 8, 15] {
        let err = ChannelConfiguration::from_raw(raw)
            .expect_err(&format!("channelConfiguration {raw} is rejected"));
        assert_eq!(err.kind, ErrorKind::InvalidInput);
    }
}

#[test]
fn adts_header_sampling_frequency() {
    let mut frame = build_adts_header(0xFFF, 0, 0, 1, 1, 4, 0, 2, 0, 0, 0, 0, 9, 0x7FF, 0, None);
    frame.extend_from_slice(&[0xDE, 0xAD]);

    let (header, _) = parse_adts_frame(&frame).expect("an ADTS frame parses");

    assert_eq!(header.sampling_frequency_index, 4);
    assert_eq!(header.sampling_frequency().hz(), 44100);
}
