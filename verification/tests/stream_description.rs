use audio_interrogator::devices::parse_stream_channels;

const STREAM: &str = "Creative Technology USB Sound Blaster at usb-0000:00:14.0-3, full speed : USB Audio

Playback:
  Status: Stop
  Interface 1
    Altset 1
    Format: S16_LE
    Channels: 6
    Endpoint: 1 OUT (ADAPTIVE)
    Rates: 44100, 48000
Capture:
  Status: Stop
  Interface 2
    Altset 1
    Format: S16_LE
    Channels: 2
    Endpoint: 2 IN (ASYNC)
    Rates: 44100, 48000
";

#[test]
fn channels_are_read_per_direction() {
    assert_eq!(parse_stream_channels(STREAM, "PLAYBACK"), Some(6));
    assert_eq!(parse_stream_channels(STREAM, "CAPTURE"), Some(2));
}

#[test]
fn any_other_stream_type_reads_the_capture_section() {
    assert_eq!(parse_stream_channels(STREAM, "playback"), Some(2));
    assert_eq!(parse_stream_channels(STREAM, ""), Some(2));
}

#[test]
fn missing_heading_gives_no_result() {
    let text = "Capture:\n  Channels: 2\n";
    assert_eq!(parse_stream_channels(text, "PLAYBACK"), None);
    assert_eq!(parse_stream_channels("", "PLAYBACK"), None);
    assert_eq!(parse_stream_channels("", "CAPTURE"), None);
    assert_eq!(parse_stream_channels("Channels: 2\n", "CAPTURE"), None);
}

#[test]
fn section_ends_at_the_next_heading() {
    let text = "Playback:\n  Status: Stop\nCapture:\n  Channels: 2\n";
    assert_eq!(parse_stream_channels(text, "PLAYBACK"), None);
    assert_eq!(parse_stream_channels(text, "CAPTURE"), Some(2));
    let reversed = "Capture:\n  Status: Stop\nPlayback:\n  Channels: 4\n";
    assert_eq!(parse_stream_channels(reversed, "CAPTURE"), None);
    assert_eq!(parse_stream_channels(reversed, "PLAYBACK"), Some(4));
}

#[test]
fn lines_before_the_heading_are_not_read() {
    let text = "  Channels: 8\nPlayback:\n  Channels: 2\n";
    assert_eq!(parse_stream_channels(text, "PLAYBACK"), Some(2));
}

#[test]
fn first_channels_line_decides() {
    let text = "Playback:\n  Channels: 2\n  Channels: 6\n";
    assert_eq!(parse_stream_channels(text, "PLAYBACK"), Some(2));
    let broken = "Playback:\n  Channels: two\n  Channels: 6\n";
    assert_eq!(parse_stream_channels(broken, "PLAYBACK"), None);
}

#[test]
fn unparseable_count_gives_no_result() {
    for bad in ["Channels:", "Channels: ", "Channels: x", "Channels: -2", "Channels: 2.0",
        "Channels: 4294967296", "Channels: 2 ch"]
    {
        let text = format!("Playback:\n  {bad}\n");
        assert_eq!(parse_stream_channels(&text, "PLAYBACK"), None, "{bad:?}");
    }
}

#[test]
fn count_is_trimmed_and_ends_at_the_next_colon() {
    assert_eq!(parse_stream_channels("Playback:\n\tChannels:   12  \r\n", "PLAYBACK"), Some(12));
    assert_eq!(parse_stream_channels("Playback:\n  Channels: 2: rest\n", "PLAYBACK"), Some(2));
    assert_eq!(parse_stream_channels("Playback:\n  Channels:+3\n", "PLAYBACK"), Some(3));
    assert_eq!(parse_stream_channels("Playback:\n  Channels: 0\n", "PLAYBACK"), Some(0));
    assert_eq!(
        parse_stream_channels("Playback:\n  Channels: 4294967295\n", "PLAYBACK"),
        Some(u32::MAX)
    );
}

#[test]
fn heading_may_stand_anywhere_in_a_line() {
    let text = "  x Capture: y\n Channels: 1\n";
    assert_eq!(parse_stream_channels(text, "CAPTURE"), Some(1));
}

#[test]
fn channels_line_must_start_with_the_key() {
    let text = "Playback:\n  Max Channels: 9\n  Channels: 2\n";
    assert_eq!(parse_stream_channels(text, "PLAYBACK"), Some(2));
}
