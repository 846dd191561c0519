use audio_interrogator::devices::proc_asound::{CardDirectory, PcmEntry};
use audio_interrogator::devices::{get_proc_alsa_devices, read_pcm_info};

const INFO_FREE: &str = "card: 0\ndevice: 0\nsubdevice: 0\nstream: PLAYBACK\nid: ALC3246 Analog\nsubdevices_count: 1\nsubdevices_avail: 1\n";
const INFO_BUSY: &str = "card: 0\ndevice: 0\nsubdevice: 0\nstream: PLAYBACK\nid: ALC3246 Analog\nsubdevices_count: 1\nsubdevices_avail: 0\n";
const STREAM: &str = "USB Audio\n\nPlayback:\n  Channels: 6\nCapture:\n  Channels: 1\n";

fn entry(name: &str, info: Option<&str>) -> PcmEntry {
    PcmEntry { name: name.to_string(), info: info.map(|s| s.to_string()) }
}

fn card(name: &str, stream0: Option<&str>, entries: Vec<PcmEntry>) -> CardDirectory {
    CardDirectory { name: name.to_string(), stream0: stream0.map(|s| s.to_string()), entries }
}

#[test]
fn playback_stream_without_description_is_stereo_output() {
    let d = read_pcm_info(Some(INFO_FREE), None, "pcm0p", "PLAYBACK", "0").unwrap();
    assert_eq!(d.name, "hw:0,0");
    assert_eq!(d.driver, "ALSA");
    assert_eq!(d.output_channels, 2);
    assert_eq!(d.input_channels, 0);
    assert_eq!(d.device_type, "Output");
    assert!(d.supported_sample_rates.is_empty());
    assert_eq!(d.supported_buffer_sizes, vec![64, 128, 256, 512, 1024, 2048, 4096]);
    assert_eq!(d.default_sample_rate, 44100);
    assert_eq!(d.default_buffer_size, 1024);
}

#[test]
fn capture_stream_reads_its_section() {
    let d = read_pcm_info(Some(INFO_FREE), Some(STREAM), "pcm3c", "CAPTURE", "12").unwrap();
    assert_eq!(d.name, "hw:12,3");
    assert_eq!(d.input_channels, 1);
    assert_eq!(d.output_channels, 0);
    assert_eq!(d.device_type, "Input");
    let p = read_pcm_info(Some(INFO_FREE), Some(STREAM), "pcm3p", "PLAYBACK", "12").unwrap();
    assert_eq!(p.output_channels, 6);
    assert_eq!(p.device_type, "Output");
}

#[test]
fn unparseable_description_defaults_to_two_channels() {
    let d = read_pcm_info(Some(INFO_FREE), Some("nothing here"), "pcm0c", "CAPTURE", "1").unwrap();
    assert_eq!(d.input_channels, 2);
    assert_eq!(d.device_type, "Input");
    let e = read_pcm_info(Some(INFO_FREE), Some("Playback:\n Channels: ?\n"), "pcm0p", "PLAYBACK", "1")
        .unwrap();
    assert_eq!(e.output_channels, 2);
}

#[test]
fn zero_channels_give_unknown_type() {
    let d = read_pcm_info(Some(INFO_FREE), Some("Playback:\n Channels: 0\n"), "pcm0p", "PLAYBACK", "1")
        .unwrap();
    assert_eq!(d.output_channels, 0);
    assert_eq!(d.device_type, "Unknown");
}

#[test]
fn busy_stream_is_marked_in_use() {
    let d = read_pcm_info(Some(INFO_BUSY), None, "pcm0p", "PLAYBACK", "0").unwrap();
    assert_eq!(d.name, "hw:0,0 (IN USE)");
    let free = read_pcm_info(Some(INFO_FREE), None, "pcm0p", "PLAYBACK", "0").unwrap();
    assert_eq!(free.name, "hw:0,0");
    let two = "subdevices_count: 2\nsubdevices_avail: 0\n";
    assert_eq!(read_pcm_info(Some(two), None, "pcm0p", "PLAYBACK", "0").unwrap().name, "hw:0,0");
}

#[test]
fn missing_info_gives_no_device() {
    assert!(read_pcm_info(None, Some(STREAM), "pcm0p", "PLAYBACK", "0").is_none());
    assert!(read_pcm_info(None, None, "pcm0c", "CAPTURE", "0").is_none());
}

#[test]
fn device_number_is_taken_from_the_directory_name() {
    let name = |dir: &str| read_pcm_info(Some(""), None, dir, "PLAYBACK", "7").unwrap().name;
    assert_eq!(name("pcm0p"), "hw:7,0");
    assert_eq!(name("pcm10p"), "hw:7,10");
    assert_eq!(name("pcmp"), "hw:7,0");
    assert_eq!(name("pcm"), "hw:7,0");
}

#[test]
fn other_stream_types_set_no_channels() {
    let d = read_pcm_info(Some(""), None, "pcm0p", "DUPLEX", "0").unwrap();
    assert_eq!(d.input_channels, 0);
    assert_eq!(d.output_channels, 0);
    assert_eq!(d.device_type, "Unknown");
}

#[test]
fn tree_is_walked_in_directory_order() {
    let root = vec![
        card("cards", None, vec![]),
        card(
            "card1",
            Some(STREAM),
            vec![
                entry("id", None),
                entry("pcm0p", Some(INFO_FREE)),
                entry("pcm0c", Some(INFO_BUSY)),
                entry("usbmixer", Some("x")),
            ],
        ),
        card("PCH", None, vec![entry("pcm0p", Some(INFO_FREE))]),
        card(
            "card0",
            None,
            vec![
                entry("pcm3p", Some(INFO_BUSY)),
                entry("pcm1c", None),
                entry("pcm0c", Some(INFO_FREE)),
            ],
        ),
    ];
    let devices = get_proc_alsa_devices(&root);
    let got: Vec<(String, u32, u32, String)> = devices
        .iter()
        .map(|d| (d.name.clone(), d.input_channels, d.output_channels, d.device_type.clone()))
        .collect();
    let expected = vec![
        ("hw:1,0".to_string(), 0, 6, "Output".to_string()),
        ("hw:1,0 (IN USE)".to_string(), 1, 0, "Input".to_string()),
        ("hw:0,3 (IN USE)".to_string(), 0, 2, "Output".to_string()),
        ("hw:0,0".to_string(), 2, 0, "Input".to_string()),
    ];
    assert_eq!(got, expected);
    assert!(devices.iter().all(|d| d.driver == "ALSA"));
}

#[test]
fn empty_tree_gives_no_devices() {
    assert!(get_proc_alsa_devices(&Vec::new()).is_empty());
    assert!(get_proc_alsa_devices(&vec![card("card0", None, vec![])]).is_empty());
    assert!(get_proc_alsa_devices(&vec![card("seq", None, vec![entry("pcm0p", Some(""))])])
        .is_empty());
}

#[test]
fn card_named_directory_gives_its_suffix_as_number() {
    let root = vec![card("card", None, vec![entry("pcm0p", Some(""))])];
    let devices = get_proc_alsa_devices(&root);
    assert_eq!(devices.len(), 1);
    assert_eq!(devices[0].name, "hw:,0");
}
