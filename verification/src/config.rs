//! Analysis parameters, their validation, and the message that announces them
//! to a newly connected client.

use vstd::prelude::*;

verus! {

/// Why a set of analysis parameters cannot be used.
#[derive(Clone, Copy, Debug, PartialEq, Eq, Structural)]
pub enum ConfigError {
    /// The sample rate is zero.
    ZeroSampleRate,
    /// The analysis window has fewer than two samples, so no window function
    /// can be laid over it.
    WindowTooSmall,
    /// No frequency band was asked for.
    ZeroBandCount,
    /// The target frame rate is zero.
    ZeroFrameRate,
    /// The lowest band starts at zero hertz, which has no place on a
    /// logarithmic scale.
    ZeroStartFrequency,
    /// The start frequency is not below the end frequency.
    EmptyFrequencyRange,
    /// A subscriber backlog with room for no frame at all.
    ZeroBacklog,
}

/// The parameters that an analyzer is built from. Frequencies are in hertz.
#[derive(Clone, Copy, Debug, PartialEq, Eq, Structural)]
pub struct AnalyzerConfig {
    /// Samples per second of the input stream.
    pub sample_rate: u32,
    /// Samples in one analysis window.
    pub window_size: usize,
    /// Number of frequency bands in a frame.
    pub band_count: usize,
    /// Most frames produced per second.
    pub frames_per_second: u32,
    /// Low edge of the lowest band.
    pub start_frequency: u32,
    /// High edge of the highest band.
    pub end_frequency: u32,
}

impl AnalyzerConfig {
    /// The first fault found in the parameters, looked for in the order in
    /// which `ConfigError` lists them, or `None` where they can be used.
    pub open spec fn spec_fault(&self) -> Option<ConfigError> {
        if self.sample_rate == 0 {
            Some(ConfigError::ZeroSampleRate)
        } else if self.window_size < 2 {
            Some(ConfigError::WindowTooSmall)
        } else if self.band_count == 0 {
            Some(ConfigError::ZeroBandCount)
        } else if self.frames_per_second == 0 {
            Some(ConfigError::ZeroFrameRate)
        } else if self.start_frequency == 0 {
            Some(ConfigError::ZeroStartFrequency)
        } else if self.start_frequency >= self.end_frequency {
            Some(ConfigError::EmptyFrequencyRange)
        } else {
            None
        }
    }

    /// The parameters can be used.
    pub open spec fn is_valid(&self) -> bool {
        &&& self.sample_rate > 0
        &&& self.window_size >= 2
        &&& self.band_count > 0
        &&& self.frames_per_second > 0
        &&& 0 < self.start_frequency < self.end_frequency
    }

    /// The usual parameters: 48 kHz input, windows of 1024 samples, 80 bands
    /// from 100 Hz to 18 kHz, at most 120 frames per second.
    pub fn standard() -> (config: AnalyzerConfig)
        ensures
            config == (AnalyzerConfig {
                sample_rate: 48000,
                window_size: 1024,
                band_count: 80,
                frames_per_second: 120,
                start_frequency: 100,
                end_frequency: 18000,
            }),
            config.is_valid(),
    {
        AnalyzerConfig {
            sample_rate: 48000,
            window_size: 1024,
            band_count: 80,
            frames_per_second: 120,
            start_frequency: 100,
            end_frequency: 18000,
        }
    }

    /// Validates the parameters and names the first fault.
    pub fn validate(&self) -> (r: Result<(), ConfigError>)
        ensures
            r is Ok <==> self.is_valid(),
            r matches Err(fault) ==> self.spec_fault() == Some(fault),
            r is Ok ==> self.spec_fault() is None,
    {
        if self.sample_rate == 0 {
            Err(ConfigError::ZeroSampleRate)
        } else if self.window_size < 2 {
            Err(ConfigError::WindowTooSmall)
        } else if self.band_count == 0 {
            Err(ConfigError::ZeroBandCount)
        } else if self.frames_per_second == 0 {
            Err(ConfigError::ZeroFrameRate)
        } else if self.start_frequency == 0 {
            Err(ConfigError::ZeroStartFrequency)
        } else if self.start_frequency >= self.end_frequency {
            Err(ConfigError::EmptyFrequencyRange)
        } else {
            Ok(())
        }
    }
}

/// Parameters are valid exactly when no fault is found in them.
pub proof fn lemma_valid_iff_no_fault(config: AnalyzerConfig)
    ensures
        config.is_valid() <==> config.spec_fault() is None,
{
}

/// The message sent once to each client before any frame.
#[derive(Debug)]
pub struct ConfigMessage {
    /// Always `"config"`.
    pub kind: String,
    /// Always `"fft"`.
    pub mode: String,
    /// Number of bytes in every frame that follows.
    pub bins: usize,
    /// Most frames sent per second.
    pub fps: u32,
}

impl ConfigMessage {
    /// The message that announces `config`.
    pub fn announce(config: &AnalyzerConfig) -> (message: ConfigMessage)
        ensures
            message.kind@ == "config"@,
            message.mode@ == "fft"@,
            message.bins == config.band_count,
            message.fps == config.frames_per_second,
    {
        ConfigMessage {
            kind: "config".to_owned(),
            mode: "fft".to_owned(),
            bins: config.band_count,
            fps: config.frames_per_second,
        }
    }
}

} // verus!
