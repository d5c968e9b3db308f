//! MP4 (ISO base media file format) building blocks: AAC bitstream handling,
//! sample entry boxes, RFC 6381 codec strings and a fragmented MP4 muxer.
#![allow(unused_imports)]

pub mod error;
pub mod bits;
pub mod aac;
pub mod bytes;
pub mod codec;
pub mod entry;
pub mod config_simple;
pub mod sample_entries;
pub mod nal_list;
pub mod avcc;
pub mod hvcc;
pub mod dfla;
pub mod descriptor;
pub mod text;
pub mod esds;
pub mod subtitle;
pub mod tx3g;
pub mod sample_entry;
pub mod codec_string;
pub mod deep;
pub mod init_boxes;
pub mod media_boxes;
pub mod mux;
pub mod fmp4;
pub mod fmp4_init;
pub mod fmp4_media;
pub mod segment_muxer;
