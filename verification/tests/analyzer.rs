use spectrum_cast::analyzer::SpectrumAnalyzer;
use spectrum_cast::config::{AnalyzerConfig, ConfigError};
use spectrum_cast::pacing::frame_interval;

const START: u64 = 1_000_000;

fn standard_analyzer() -> SpectrumAnalyzer<f32> {
    SpectrumAnalyzer::new(AnalyzerConfig::standard(), START).unwrap()
}

fn ramp(from: usize, count: usize) -> Vec<f32> {
    (from..from + count).map(|i| i as f32).collect()
}

#[test]
fn analyzer_refuses_bad_parameters() {
    let no_bands = AnalyzerConfig { band_count: 0, ..AnalyzerConfig::standard() };
    assert_eq!(
        SpectrumAnalyzer::<f32>::new(no_bands, 0).err(),
        Some(ConfigError::ZeroBandCount)
    );
    let no_range = AnalyzerConfig {
        start_frequency: 18000,
        end_frequency: 100,
        ..AnalyzerConfig::standard()
    };
    assert_eq!(
        SpectrumAnalyzer::<f32>::new(no_range, 0).err(),
        Some(ConfigError::EmptyFrequencyRange)
    );
}

#[test]
fn new_analyzer_keeps_its_parameters() {
    let analyzer = standard_analyzer();
    assert_eq!(analyzer.config(), AnalyzerConfig::standard());
    assert_eq!(analyzer.pending(), 0);
}

#[test]
fn no_frame_before_a_full_window() {
    let mut analyzer = standard_analyzer();
    let late: u64 = START + 10 * frame_interval(120);
    assert!(analyzer.ingest(&ramp(0, 256), late).is_none());
    assert!(analyzer.ingest(&ramp(256, 256), late).is_none());
    assert!(analyzer.ingest(&ramp(512, 256), late).is_none());
    assert!(analyzer.ingest(&ramp(768, 255), late).is_none());
    assert_eq!(analyzer.pending(), 1023);
    let window = analyzer.ingest(&ramp(1023, 1), late).unwrap();
    assert_eq!(window, ramp(0, 1024));
    assert_eq!(analyzer.pending(), 0);
}

#[test]
fn empty_block_changes_nothing() {
    let mut analyzer = standard_analyzer();
    assert!(analyzer.ingest(&[], START + 1_000_000_000).is_none());
    assert_eq!(analyzer.pending(), 0);
    assert!(analyzer.ingest(&ramp(0, 10), START).is_none());
    assert!(analyzer.ingest(&[], START + 1_000_000_000).is_none());
    assert_eq!(analyzer.pending(), 10);
}

#[test]
fn chunks_need_not_align_with_the_window() {
    let mut analyzer = standard_analyzer();
    let late: u64 = START + 1_000_000_000;
    assert!(analyzer.ingest(&ramp(0, 700), late).is_none());
    // 700 more: only the first 324 still fit, the rest is dropped.
    let window = analyzer.ingest(&ramp(700, 700), late).unwrap();
    assert_eq!(window.len(), 1024);
    assert_eq!(window, ramp(0, 1024));
    assert_eq!(analyzer.pending(), 0);
}

#[test]
fn one_large_block_gives_one_window() {
    let mut analyzer = standard_analyzer();
    let window = analyzer.ingest(&ramp(0, 5000), START + 1_000_000_000).unwrap();
    assert_eq!(window, ramp(0, 1024));
    assert_eq!(analyzer.pending(), 0);
}

#[test]
fn second_frame_waits_for_the_interval() {
    let mut analyzer = standard_analyzer();
    let interval: u64 = frame_interval(120);
    let first: u64 = START + interval;
    assert!(analyzer.ingest(&ramp(0, 1024), first).is_some());
    // A full window again, but too soon after the first frame.
    assert!(analyzer.ingest(&ramp(0, 1024), first + interval - 1).is_none());
    assert_eq!(analyzer.pending(), 1024);
    assert!(analyzer.ingest(&[], first + interval - 1).is_none());
    // The interval has passed: the held window goes out.
    let window = analyzer.ingest(&[], first + interval).unwrap();
    assert_eq!(window, ramp(0, 1024));
}

#[test]
fn frame_never_comes_before_a_full_period() {
    // At 120 frames a second a period is 8_333_333.33 ns.
    let mut analyzer: SpectrumAnalyzer<f32> =
        SpectrumAnalyzer::new(AnalyzerConfig::standard(), 0).unwrap();
    assert!(analyzer.ingest(&ramp(0, 1024), 8_333_333).is_none());
    assert_eq!(analyzer.pending(), 1024);
    let window = analyzer.ingest(&[], 8_333_334).unwrap();
    assert_eq!(window, ramp(0, 1024));
    assert!(analyzer.ingest(&ramp(0, 1024), 8_333_334 + 8_333_333).is_none());
    assert!(analyzer.ingest(&[], 8_333_334 + 8_333_334).is_some());
}

#[test]
fn fastest_rate_still_paces() {
    let config = AnalyzerConfig { window_size: 2, frames_per_second: u32::MAX, ..AnalyzerConfig::standard() };
    let mut analyzer: SpectrumAnalyzer<i32> = SpectrumAnalyzer::new(config, 50).unwrap();
    assert_eq!(analyzer.ingest(&[1, 2], 50), None);
    assert_eq!(analyzer.ingest(&[], 51), Some(vec![1, 2]));
    assert_eq!(analyzer.ingest(&[3, 4], 51), None);
    assert_eq!(analyzer.ingest(&[], 52), Some(vec![3, 4]));
}

#[test]
fn frame_takes_one_byte_per_band() {
    let analyzer = standard_analyzer();
    assert!(analyzer.frame_of(vec![0; 79]).is_none());
    assert!(analyzer.frame_of(vec![0; 81]).is_none());
    let frame = analyzer.frame_of(vec![7; 80]).unwrap();
    assert_eq!(frame.band_count(), 80);
    assert_eq!(frame.as_bytes(), &[7u8; 80][..]);
}

#[test]
fn first_frame_waits_for_the_interval_too() {
    let mut analyzer = standard_analyzer();
    let interval: u64 = frame_interval(120);
    assert!(analyzer.ingest(&ramp(0, 1024), START).is_none());
    assert!(analyzer.ingest(&[], START + interval - 1).is_none());
    assert!(analyzer.ingest(&[], START + interval).is_some());
}

#[test]
fn full_window_is_held_and_later_samples_dropped() {
    let mut analyzer = standard_analyzer();
    assert!(analyzer.ingest(&ramp(0, 1024), START + 1).is_none());
    assert_eq!(analyzer.pending(), 1024);
    // These arrive while the window is held: they are lost.
    assert!(analyzer.ingest(&ramp(5000, 256), START + 2).is_none());
    assert_eq!(analyzer.pending(), 1024);
    let window = analyzer.ingest(&ramp(9000, 256), START + frame_interval(120)).unwrap();
    assert_eq!(window, ramp(0, 1024));
    assert_eq!(analyzer.pending(), 0);
}

#[test]
fn clock_running_back_gives_no_frame() {
    let mut analyzer = standard_analyzer();
    assert!(analyzer.ingest(&ramp(0, 1024), 0).is_none());
    assert!(analyzer.ingest(&[], START - 1).is_none());
    assert_eq!(analyzer.pending(), 1024);
}

#[test]
fn windows_follow_one_another() {
    let config = AnalyzerConfig { window_size: 4, frames_per_second: 1000, ..AnalyzerConfig::standard() };
    let mut analyzer: SpectrumAnalyzer<i32> = SpectrumAnalyzer::new(config, 0).unwrap();
    assert_eq!(frame_interval(1000), 1_000_000);
    assert_eq!(analyzer.ingest(&[1, 2, 3], 1_000_000), None);
    assert_eq!(analyzer.ingest(&[4, 5, 6], 1_000_000), Some(vec![1, 2, 3, 4]));
    assert_eq!(analyzer.ingest(&[7, 8], 1_500_000), None);
    assert_eq!(analyzer.ingest(&[9, 10], 1_999_999), None);
    assert_eq!(analyzer.ingest(&[11], 2_000_000), Some(vec![7, 8, 9, 10]));
    assert_eq!(analyzer.ingest(&[12, 13, 14, 15], 3_000_000), Some(vec![12, 13, 14, 15]));
}
