use audio_interrogator::devices::types::{holds, type_label};
use audio_interrogator::devices::AudioDeviceInfo;

#[test]
fn new_device_has_documented_defaults() {
    let d = AudioDeviceInfo::new("hw:0,0".to_string(), "ALSA".to_string());
    assert_eq!(d.name, "hw:0,0");
    assert_eq!(d.driver, "ALSA");
    assert_eq!(d.device_type, "Unknown");
    assert_eq!(d.input_channels, 0);
    assert_eq!(d.output_channels, 0);
    assert!(d.supported_sample_rates.is_empty());
    assert_eq!(d.supported_buffer_sizes, vec![64, 128, 256, 512, 1024, 2048, 4096]);
    assert_eq!(d.default_sample_rate, 44100);
    assert_eq!(d.default_buffer_size, 1024);
    assert!(!d.has_input());
    assert!(!d.has_output());
}

#[test]
fn device_type_follows_channel_counts() {
    let cases = [
        (0, 0, "Unknown"),
        (2, 0, "Input"),
        (0, 2, "Output"),
        (1, 8, "Input/Output"),
    ];
    for (input, output, expected) in cases {
        let mut d = AudioDeviceInfo::new("x".to_string(), "CPAL".to_string());
        d.input_channels = input;
        d.output_channels = output;
        d.update_device_type();
        assert_eq!(d.device_type, expected);
        assert_eq!(d.has_input(), input > 0);
        assert_eq!(d.has_output(), output > 0);
        assert_eq!(d.name, "x");
        assert_eq!(d.driver, "CPAL");
        assert_eq!(d.input_channels, input);
        assert_eq!(d.output_channels, output);
    }
}

#[test]
fn device_type_is_recomputed_after_each_change() {
    let mut d = AudioDeviceInfo::new("x".to_string(), "CPAL".to_string());
    d.input_channels = 2;
    d.update_device_type();
    assert_eq!(d.device_type, "Input");
    d.output_channels = 2;
    d.update_device_type();
    assert_eq!(d.device_type, "Input/Output");
    d.input_channels = 0;
    d.update_device_type();
    assert_eq!(d.device_type, "Output");
    d.output_channels = 0;
    d.update_device_type();
    assert_eq!(d.device_type, "Unknown");
}

#[test]
fn type_label_names_the_four_types() {
    assert_eq!(type_label(true, true), "Input/Output");
    assert_eq!(type_label(true, false), "Input");
    assert_eq!(type_label(false, true), "Output");
    assert_eq!(type_label(false, false), "Unknown");
}

#[test]
fn empty_rate_list_means_common_rates() {
    let d = AudioDeviceInfo::new("x".to_string(), "CPAL".to_string());
    for rate in [8000, 11025, 22050, 44100, 48000, 88200, 96000, 176400, 192000] {
        assert!(d.supports_sample_rate(rate), "{rate}");
    }
    for rate in [0, 1, 7999, 8001, 16000, 32000, 44101, 384000, u32::MAX] {
        assert!(!d.supports_sample_rate(rate), "{rate}");
    }
}

#[test]
fn listed_rates_are_the_only_supported_ones() {
    let mut d = AudioDeviceInfo::new("x".to_string(), "CPAL".to_string());
    d.supported_sample_rates = vec![16000, 32000];
    assert!(d.supports_sample_rate(16000));
    assert!(d.supports_sample_rate(32000));
    assert!(!d.supports_sample_rate(44100));
    assert!(!d.supports_sample_rate(48000));
}

#[test]
fn buffer_sizes_are_looked_up_in_the_list() {
    let mut d = AudioDeviceInfo::new("x".to_string(), "CPAL".to_string());
    for size in [64, 128, 256, 512, 1024, 2048, 4096] {
        assert!(d.supports_buffer_size(size));
    }
    assert!(!d.supports_buffer_size(8192));
    assert!(!d.supports_buffer_size(0));
    d.supported_buffer_sizes = Vec::new();
    assert!(!d.supports_buffer_size(64));
    assert!(holds(&vec![1, 2, 3], 3));
    assert!(!holds(&vec![1, 2, 3], 4));
}
