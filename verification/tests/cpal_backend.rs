use audio_interrogator::devices::cpal_devices::{
    device_from_host, sort_and_dedup, DefaultConfig, HostDevice,
};
use audio_interrogator::devices::get_cpal_devices;
use audio_interrogator::devices::types::RateRange;

fn ranges(list: &[(u32, u32)]) -> Option<Vec<RateRange>> {
    Some(list.iter().map(|&(min, max)| RateRange { min, max }).collect())
}

fn config(channels: u16, sample_rate: u32) -> Option<DefaultConfig> {
    Some(DefaultConfig { channels, sample_rate })
}

#[test]
fn sort_and_dedup_gives_ascending_distinct_values() {
    assert_eq!(sort_and_dedup(&vec![48000, 44100, 48000, 8000, 44100]), vec![8000, 44100, 48000]);
    assert_eq!(sort_and_dedup(&Vec::new()), Vec::<u32>::new());
    assert_eq!(sort_and_dedup(&vec![5, 5, 5]), vec![5]);
    assert_eq!(sort_and_dedup(&vec![u32::MAX, 0, 1]), vec![0, 1, u32::MAX]);
    assert_eq!(sort_and_dedup(&vec![1, 2, 3]), vec![1, 2, 3]);
    assert_eq!(sort_and_dedup(&vec![3, 2, 1]), vec![1, 2, 3]);
}

#[test]
fn duplex_host_device_uses_input_ranges() {
    let d = device_from_host(HostDevice {
        name: Some("HDA Intel PCH".to_string()),
        default_input: config(2, 48000),
        default_output: config(6, 44100),
        input_ranges: ranges(&[(44100, 48000), (8000, 48000)]),
        output_ranges: ranges(&[(96000, 192000)]),
    });
    assert_eq!(d.name, "HDA Intel PCH");
    assert_eq!(d.device_type, "Input/Output");
    assert_eq!(d.input_channels, 2);
    assert_eq!(d.output_channels, 6);
    assert_eq!(d.supported_sample_rates, vec![8000, 44100, 48000]);
    assert_eq!(d.supported_buffer_sizes, vec![64, 128, 256, 512, 1024, 2048, 4096]);
    assert_eq!(d.default_sample_rate, 48000);
    assert_eq!(d.default_buffer_size, 1024);
    assert_eq!(d.driver, "CPAL");
}

#[test]
fn output_ranges_are_used_when_input_lists_none() {
    let d = device_from_host(HostDevice {
        name: Some("Speakers".to_string()),
        default_input: None,
        default_output: config(2, 96000),
        input_ranges: ranges(&[]),
        output_ranges: ranges(&[(96000, 192000), (44100, 96000)]),
    });
    assert_eq!(d.device_type, "Output");
    assert_eq!(d.supported_sample_rates, vec![44100, 96000, 192000]);
    assert_eq!(d.default_sample_rate, 96000);
    let e = device_from_host(HostDevice {
        name: Some("Speakers".to_string()),
        default_input: config(2, 22050),
        default_output: config(2, 96000),
        input_ranges: None,
        output_ranges: ranges(&[(32000, 32000)]),
    });
    assert_eq!(e.supported_sample_rates, vec![32000]);
    assert_eq!(e.default_sample_rate, 96000);
    assert_eq!(e.device_type, "Input/Output");
}

#[test]
fn unknown_values_fall_back_to_defaults() {
    let d = device_from_host(HostDevice {
        name: None,
        default_input: None,
        default_output: None,
        input_ranges: None,
        output_ranges: None,
    });
    assert_eq!(d.name, "Unknown Device");
    assert_eq!(d.device_type, "Unknown");
    assert_eq!(d.input_channels, 0);
    assert_eq!(d.output_channels, 0);
    assert!(d.supported_sample_rates.is_empty());
    assert_eq!(d.default_sample_rate, 44100);
    assert_eq!(d.default_buffer_size, 1024);
}

#[test]
fn default_rate_needs_a_listed_range() {
    let d = device_from_host(HostDevice {
        name: Some("x".to_string()),
        default_input: config(1, 16000),
        default_output: config(1, 32000),
        input_ranges: ranges(&[]),
        output_ranges: None,
    });
    assert_eq!(d.default_sample_rate, 44100);
    assert_eq!(d.device_type, "Input/Output");
    let e = device_from_host(HostDevice {
        name: Some("x".to_string()),
        default_input: None,
        default_output: config(1, 32000),
        input_ranges: ranges(&[(8000, 8000)]),
        output_ranges: ranges(&[(32000, 32000)]),
    });
    assert_eq!(e.default_sample_rate, 44100);
    assert_eq!(e.supported_sample_rates, vec![8000]);
}

#[test]
fn host_devices_keep_their_order() {
    let host = vec![
        HostDevice {
            name: Some("b".to_string()),
            default_input: config(1, 8000),
            default_output: None,
            input_ranges: None,
            output_ranges: None,
        },
        HostDevice {
            name: None,
            default_input: None,
            default_output: config(u16::MAX, 8000),
            input_ranges: None,
            output_ranges: None,
        },
        HostDevice {
            name: Some("a".to_string()),
            default_input: None,
            default_output: None,
            input_ranges: None,
            output_ranges: None,
        },
    ];
    let devices = get_cpal_devices(host);
    let got: Vec<(&str, &str, u32, u32)> = devices
        .iter()
        .map(|d| (d.name.as_str(), d.device_type.as_str(), d.input_channels, d.output_channels))
        .collect();
    assert_eq!(
        got,
        [("b", "Input", 1, 0), ("Unknown Device", "Output", 0, 65535), ("a", "Unknown", 0, 0)]
    );
    assert!(get_cpal_devices(Vec::new()).is_empty());
}
