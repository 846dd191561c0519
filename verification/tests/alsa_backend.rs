use audio_interrogator::devices::alsa_devices::{
    device_from_probe, device_names_to_probe, rates_in_range, summarize_probe, DeviceProbe,
    StreamCapabilities,
};
use audio_interrogator::devices::get_alsa_devices;
use audio_interrogator::devices::proc_asound::{CardDirectory, PcmEntry};
use audio_interrogator::devices::types::{common_sample_rates, RateRange};

fn stream(channels: Option<u32>, range: Option<(u32, u32)>) -> Option<StreamCapabilities> {
    Some(StreamCapabilities {
        max_channels: channels,
        rate_range: range.map(|(min, max)| RateRange { min, max }),
    })
}

fn probe(
    name: &str,
    playback: Option<StreamCapabilities>,
    capture: Option<StreamCapabilities>,
) -> DeviceProbe {
    DeviceProbe { name: name.to_string(), playback, capture }
}

#[test]
fn common_rates_within_bounds_are_reported() {
    assert_eq!(rates_in_range(44100, 48000), vec![44100, 48000]);
    assert_eq!(rates_in_range(8000, 192000), common_sample_rates());
    assert_eq!(rates_in_range(0, u32::MAX), common_sample_rates());
    assert_eq!(rates_in_range(44100, 44100), vec![44100]);
    assert_eq!(rates_in_range(8001, 22050), vec![11025, 22050]);
    assert_eq!(rates_in_range(4000, 96000), vec![8000, 11025, 22050, 44100, 48000, 88200, 96000]);
}

#[test]
fn bounds_are_reported_when_no_common_rate_fits() {
    assert_eq!(rates_in_range(1000, 2000), vec![1000, 2000]);
    assert_eq!(rates_in_range(48001, 88199), vec![48001, 88199]);
    assert_eq!(rates_in_range(16000, 16000), vec![16000, 16000]);
    assert_eq!(rates_in_range(48000, 44100), vec![48000, 44100]);
    assert_eq!(rates_in_range(192001, u32::MAX), vec![192001, u32::MAX]);
}

#[test]
fn common_rates_are_the_nine_ascending() {
    assert_eq!(
        common_sample_rates(),
        vec![8000, 11025, 22050, 44100, 48000, 88200, 96000, 176400, 192000]
    );
}

#[test]
fn probed_names_are_the_fixed_list() {
    assert_eq!(
        device_names_to_probe(),
        [
            "default", "hw:0,0", "hw:0,1", "hw:0,2", "hw:0,3", "hw:1,0", "hw:1,1", "hw:1,2",
            "hw:1,3", "hw:2,0", "hw:2,1", "hw:2,2", "hw:2,3", "plughw:0,0", "plughw:0,1",
            "plughw:1,0", "plughw:1,1",
        ]
    );
}

#[test]
fn duplex_probe_gives_input_output_device() {
    let d = device_from_probe(probe(
        "hw:0,0",
        stream(Some(8), Some((44100, 192000))),
        stream(Some(2), Some((8000, 48000))),
    ))
    .unwrap();
    assert_eq!(d.name, "hw:0,0");
    assert_eq!(d.device_type, "Input/Output");
    assert_eq!(d.input_channels, 2);
    assert_eq!(d.output_channels, 8);
    assert_eq!(d.supported_sample_rates, vec![44100, 48000, 88200, 96000, 176400, 192000]);
    assert_eq!(d.supported_buffer_sizes, vec![64, 128, 256, 512, 1024, 2048, 4096, 8192]);
    assert_eq!(d.default_sample_rate, 44100);
    assert_eq!(d.default_buffer_size, 1024);
    assert_eq!(d.driver, "ALSA");
}

#[test]
fn capture_rates_are_used_when_playback_has_none() {
    let d = device_from_probe(probe("default", None, stream(Some(2), Some((8000, 11025)))))
        .unwrap();
    assert_eq!(d.device_type, "Input");
    assert_eq!(d.supported_sample_rates, vec![8000, 11025]);
    let e = device_from_probe(probe(
        "default",
        stream(Some(2), None),
        stream(Some(2), Some((1000, 2000))),
    ))
    .unwrap();
    assert_eq!(e.device_type, "Input/Output");
    assert_eq!(e.supported_sample_rates, vec![1000, 2000]);
}

#[test]
fn probe_summary_holds_channels_and_rates() {
    let playback = stream(Some(6), Some((44100, 48000)));
    let capture = stream(Some(2), Some((8000, 8000)));
    assert_eq!(summarize_probe(playback, capture), (2, 6, vec![44100, 48000]));
    assert_eq!(summarize_probe(None, capture), (2, 0, vec![8000]));
    assert_eq!(summarize_probe(playback, None), (0, 6, vec![44100, 48000]));
    assert_eq!(summarize_probe(None, None), (0, 0, Vec::new()));
    assert_eq!(summarize_probe(stream(None, None), stream(Some(1), None)), (1, 0, Vec::new()));
}

#[test]
fn failed_queries_count_as_no_capability() {
    assert!(device_from_probe(probe("hw:2,3", None, None)).is_none());
    assert!(device_from_probe(probe("hw:2,3", stream(None, Some((8000, 48000))), None)).is_none());
    assert!(device_from_probe(probe("hw:2,3", stream(Some(0), None), stream(Some(0), None)))
        .is_none());
    let d = device_from_probe(probe("hw:2,3", stream(Some(2), None), stream(None, None))).unwrap();
    assert_eq!(d.device_type, "Output");
    assert_eq!(d.input_channels, 0);
    assert!(d.supported_sample_rates.is_empty());
}

#[test]
fn rates_come_from_playback_even_without_playback_channels() {
    let d = device_from_probe(probe(
        "hw:1,0",
        stream(None, Some((96000, 96000))),
        stream(Some(1), Some((8000, 8000))),
    ))
    .unwrap();
    assert_eq!(d.device_type, "Input");
    assert_eq!(d.supported_sample_rates, vec![96000]);
}

#[test]
fn filesystem_devices_come_before_probed_ones() {
    let root = vec![CardDirectory {
        name: "card0".to_string(),
        stream0: None,
        entries: vec![PcmEntry { name: "pcm0p".to_string(), info: Some(String::new()) }],
    }];
    let probes = vec![
        probe("default", stream(Some(2), Some((44100, 48000))), None),
        probe("hw:0,0", None, None),
        probe("hw:0,1", None, stream(Some(1), None)),
    ];
    let devices = get_alsa_devices(&root, probes);
    let got: Vec<(&str, &str)> =
        devices.iter().map(|d| (d.name.as_str(), d.device_type.as_str())).collect();
    assert_eq!(got, [("hw:0,0", "Output"), ("default", "Output"), ("hw:0,1", "Input")]);
    assert!(devices.iter().all(|d| d.driver == "ALSA"));
    assert_eq!(devices[0].supported_buffer_sizes.len(), 7);
    assert_eq!(devices[1].supported_buffer_sizes.len(), 8);
}

#[test]
fn nothing_to_enumerate_gives_an_empty_list() {
    assert!(get_alsa_devices(&Vec::new(), Vec::new()).is_empty());
    let silent: Vec<DeviceProbe> =
        device_names_to_probe().into_iter().map(|name| probe(&name, None, None)).collect();
    assert!(get_alsa_devices(&Vec::new(), silent).is_empty());
}
