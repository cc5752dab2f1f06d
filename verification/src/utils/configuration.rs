//! The settings that the program keeps.
use crate::enums::streaming::{StreamSize, StreamingFormat};
use crate::utils::text::texts;
use vstd::prelude::*;

verus! {

/// The settings that streaming, calibration and the set-up wizard use.
#[derive(Clone, Debug)]
pub struct Configuration {
    /// The address of the network interface to use.
    pub last_network: Option<String>,
    /// The address of the renderer to use.
    pub last_renderer: Option<String>,
    /// The addresses of the renderers to start.
    pub active_renderers: Vec<String>,
    /// The name of the device whose sound is captured.
    pub sound_source: Option<String>,
    /// Its place among devices.
    pub sound_source_index: Option<i32>,
    /// The name of the device that listens for the latency pulse.
    pub input_device: Option<String>,
    /// The format of the stream.
    pub streaming_format: Option<StreamingFormat>,
    /// How the length of a WAV stream is announced.
    pub wav_stream_size: Option<StreamSize>,
    /// Whether latency is calibrated at startup.
    pub auto_calibrate: Option<bool>,
    /// The greatest latency that is good enough, in milliseconds.
    pub latency_threshold_ms: Option<u32>,
    /// How long reads wait for captured samples, in milliseconds.
    pub capture_timeout: Option<u32>,
}

/// The settings, with their texts.
#[verifier::ext_equal]
pub struct Settings {
    pub last_network: Option<Seq<char>>,
    pub last_renderer: Option<Seq<char>>,
    pub active_renderers: Seq<Seq<char>>,
    pub sound_source: Option<Seq<char>>,
    pub sound_source_index: Option<i32>,
    pub input_device: Option<Seq<char>>,
    pub streaming_format: Option<StreamingFormat>,
    pub wav_stream_size: Option<StreamSize>,
    pub auto_calibrate: Option<bool>,
    pub latency_threshold_ms: Option<u32>,
    pub capture_timeout: Option<u32>,
}

/// The text of a string that may be absent.
pub open spec fn text_of(s: Option<String>) -> Option<Seq<char>> {
    match s {
        Some(t) => Some(t@),
        None => None,
    }
}

impl Configuration {
    /// The settings, with their texts.
    pub open spec fn view(&self) -> Settings {
        Settings {
            last_network: text_of(self.last_network),
            last_renderer: text_of(self.last_renderer),
            active_renderers: texts(self.active_renderers@),
            sound_source: text_of(self.sound_source),
            sound_source_index: self.sound_source_index,
            input_device: text_of(self.input_device),
            streaming_format: self.streaming_format,
            wav_stream_size: self.wav_stream_size,
            auto_calibrate: self.auto_calibrate,
            latency_threshold_ms: self.latency_threshold_ms,
            capture_timeout: self.capture_timeout,
        }
    }
}

} // verus!
