//! The low-level subsystem backend.
//!
//! Two sources are merged: the devices found in the directory tree of the
//! sound subsystem, and the well-known device names that answered a probe.
//! Opening a device is the caller's part; it reports what it found as a
//! [`DeviceProbe`].

use crate::devices::proc_asound::{
    directory_models, get_proc_alsa_devices, proc_devices, CardDirectory,
};
use crate::devices::types::{
    all_types_current, common_rates, common_sample_rates, device_type_label, models,
    strictly_ascending, type_label, AudioDeviceInfo, DeviceModel, RateRange,
};
use crate::text::string_texts;
use vstd::prelude::*;

verus! {

/// What one direction of a device reported once it was opened and
/// configured: its highest channel count and its rate range, each where the
/// query succeeded.
#[derive(Debug, Clone, Copy)]
pub struct StreamCapabilities {
    pub max_channels: Option<u32>,
    pub rate_range: Option<RateRange>,
}

/// The outcome of probing one device name. A direction that could not be
/// opened or configured is `None`.
#[derive(Debug, Clone)]
pub struct DeviceProbe {
    pub name: String,
    pub playback: Option<StreamCapabilities>,
    pub capture: Option<StreamCapabilities>,
}

/// What a [`DeviceProbe`] holds, as mathematical values.
pub struct DeviceProbeModel {
    pub name: Seq<char>,
    pub playback: Option<StreamCapabilities>,
    pub capture: Option<StreamCapabilities>,
}

impl View for DeviceProbe {
    type V = DeviceProbeModel;

    open spec fn view(&self) -> DeviceProbeModel {
        DeviceProbeModel { name: self.name@, playback: self.playback, capture: self.capture }
    }
}

/// The models of a list of probes, in order.
pub open spec fn probe_models(probes: Seq<DeviceProbe>) -> Seq<DeviceProbeModel> {
    Seq::new(probes.len(), |i: int| probes[i]@)
}

/// The buffer sizes, in frames, given to every probed device.
pub open spec fn probed_buffer_sizes() -> Seq<u32> {
    seq![64, 128, 256, 512, 1024, 2048, 4096, 8192]
}

/// The device names that are probed, in probing order.
pub open spec fn well_known_names() -> Seq<Seq<char>> {
    seq![
        "default"@,
        "hw:0,0"@,
        "hw:0,1"@,
        "hw:0,2"@,
        "hw:0,3"@,
        "hw:1,0"@,
        "hw:1,1"@,
        "hw:1,2"@,
        "hw:1,3"@,
        "hw:2,0"@,
        "hw:2,1"@,
        "hw:2,2"@,
        "hw:2,3"@,
        "plughw:0,0"@,
        "plughw:0,1"@,
        "plughw:1,0"@,
        "plughw:1,1"@,
    ]
}

/// The test "lies between `min` and `max`, both included".
pub open spec fn within(min: u32, max: u32) -> spec_fn(u32) -> bool {
    |rate: u32| min <= rate <= max
}

/// The rates reported for a stream that accepts `min` to `max`: the common
/// rates within these bounds, or the two bounds themselves where no common
/// rate lies within them.
pub open spec fn rates_for_range(min: u32, max: u32) -> Seq<u32> {
    let inside = common_rates().filter(within(min, max));
    if inside.len() == 0 {
        seq![min, max]
    } else {
        inside
    }
}

/// A filter keeps a strictly ascending list strictly ascending.
proof fn lemma_filter_keeps_ascending(s: Seq<u32>, test: spec_fn(u32) -> bool)
    requires
        strictly_ascending(s),
    ensures
        strictly_ascending(s.filter(test)),
    decreases s.len(),
{
    reveal(Seq::filter);
    if s.len() > 0 {
        let front = s.drop_last();
        lemma_filter_keeps_ascending(front, test);
        let kept = front.filter(test);
        assert forall|i: int| 0 <= i < kept.len() implies kept[i] < s.last() by {
            front.lemma_filter_contains_rev(test, kept[i]);
        }
    }
}

/// A stream with a rate range always reports a rate. Where the bounds are
/// in order, every reported rate lies within them; where the lower bound is
/// below the upper one, the reported rates are strictly ascending.
pub proof fn lemma_rates_for_range(min: u32, max: u32)
    ensures
        rates_for_range(min, max).len() > 0,
        min <= max ==> forall|i: int|
            0 <= i < rates_for_range(min, max).len() ==> min <= #[trigger] rates_for_range(
                min,
                max,
            )[i] <= max,
        min < max ==> strictly_ascending(rates_for_range(min, max)),
{
    lemma_filter_keeps_ascending(common_rates(), within(min, max));
}

/// The channel count that a direction contributes: its highest channel
/// count, or 0 where the direction or the count is missing.
pub open spec fn stream_channel_count(stream: Option<StreamCapabilities>) -> u32 {
    match stream {
        Some(StreamCapabilities { max_channels: Some(channels), .. }) => channels,
        _ => 0,
    }
}

/// The rates that a direction contributes: those of its rate range, or none
/// where the direction or the range is missing.
pub open spec fn stream_rates(stream: Option<StreamCapabilities>) -> Seq<u32> {
    match stream {
        Some(StreamCapabilities { rate_range: Some(range), .. }) => rates_for_range(
            range.min,
            range.max,
        ),
        _ => Seq::empty(),
    }
}

/// The rates of a probed device: those of the playback direction, or those
/// of the capture direction where playback contributes none.
pub open spec fn probed_rates(
    playback: Option<StreamCapabilities>,
    capture: Option<StreamCapabilities>,
) -> Seq<u32> {
    if stream_rates(playback).len() > 0 {
        stream_rates(playback)
    } else {
        stream_rates(capture)
    }
}

/// The record of a probed device. There is none where neither direction has
/// a channel.
pub open spec fn probed_device(probe: DeviceProbeModel) -> Option<DeviceModel> {
    let input_channels = stream_channel_count(probe.capture);
    let output_channels = stream_channel_count(probe.playback);
    if input_channels > 0 || output_channels > 0 {
        Some(
            DeviceModel {
                name: probe.name,
                device_type: device_type_label(input_channels > 0, output_channels > 0),
                input_channels,
                output_channels,
                supported_sample_rates: probed_rates(probe.playback, probe.capture),
                supported_buffer_sizes: probed_buffer_sizes(),
                default_sample_rate: 44100,
                default_buffer_size: 1024,
                driver: "ALSA"@,
            },
        )
    } else {
        None
    }
}

/// The records of the probes that found a channel, in probing order.
pub open spec fn probed_devices(probes: Seq<DeviceProbeModel>) -> Seq<DeviceModel>
    decreases probes.len(),
{
    if probes.len() == 0 {
        Seq::empty()
    } else {
        let earlier = probed_devices(probes.drop_last());
        match probed_device(probes.last()) {
            Some(device) => earlier.push(device),
            None => earlier,
        }
    }
}

/// The device names to probe, in probing order.
pub fn device_names_to_probe() -> (names: Vec<String>)
    ensures
        string_texts(names@) == well_known_names(),
{
    let mut names: Vec<String> = Vec::new();
    names.push("default".to_owned());
    names.push("hw:0,0".to_owned());
    names.push("hw:0,1".to_owned());
    names.push("hw:0,2".to_owned());
    names.push("hw:0,3".to_owned());
    names.push("hw:1,0".to_owned());
    names.push("hw:1,1".to_owned());
    names.push("hw:1,2".to_owned());
    names.push("hw:1,3".to_owned());
    names.push("hw:2,0".to_owned());
    names.push("hw:2,1".to_owned());
    names.push("hw:2,2".to_owned());
    names.push("hw:2,3".to_owned());
    names.push("plughw:0,0".to_owned());
    names.push("plughw:0,1".to_owned());
    names.push("plughw:1,0".to_owned());
    names.push("plughw:1,1".to_owned());
    names
}

/// The rates to report for a stream that accepts `min` to `max`.
pub fn rates_in_range(min: u32, max: u32) -> (rates: Vec<u32>)
    ensures
        rates@ == rates_for_range(min, max),
{
    let common = common_sample_rates();
    let mut rates: Vec<u32> = Vec::new();
    let mut i: usize = 0;
    while i < common.len()
        invariant
            i <= common.len(),
            common@ == common_rates(),
            rates@ == common@.take(i as int).filter(within(min, max)),
        decreases common.len() - i,
    {
        let rate = common[i];
        proof {
            assert(common@.take(i + 1) == common@.take(i as int).push(rate));
            common@.take(i as int).lemma_filter_push(rate, within(min, max));
        }
        if min <= rate && rate <= max {
            rates.push(rate);
        }
        i += 1;
    }
    assert(common@.take(i as int) == common@);
    if rates.len() == 0 {
        rates.push(min);
        rates.push(max);
    }
    rates
}

/// The rates that one direction contributes.
fn rates_of_stream(stream: Option<StreamCapabilities>) -> (rates: Vec<u32>)
    ensures
        rates@ == stream_rates(stream),
{
    match stream {
        Some(StreamCapabilities { rate_range: Some(range), .. }) => rates_in_range(
            range.min,
            range.max,
        ),
        _ => Vec::new(),
    }
}

/// The channel count that one direction contributes.
fn channels_of_stream(stream: Option<StreamCapabilities>) -> (channels: u32)
    ensures
        channels == stream_channel_count(stream),
{
    match stream {
        Some(StreamCapabilities { max_channels: Some(channels), .. }) => channels,
        _ => 0,
    }
}

/// What probing the two directions of a device tells of it: its input
/// channels, its output channels and its sample rates. A direction that
/// failed counts as 0 channels and contributes no rate.
pub fn summarize_probe(
    playback: Option<StreamCapabilities>,
    capture: Option<StreamCapabilities>,
) -> (summary: (u32, u32, Vec<u32>))
    ensures
        summary.0 == stream_channel_count(capture),
        summary.1 == stream_channel_count(playback),
        summary.2@ == probed_rates(playback, capture),
{
    let output_channels = channels_of_stream(playback);
    let input_channels = channels_of_stream(capture);
    let mut rates = rates_of_stream(playback);
    if rates.len() == 0 {
        rates = rates_of_stream(capture);
    }
    (input_channels, output_channels, rates)
}

/// Turns the outcome of one probe into a device record. A probe that found
/// no channel in either direction gives none.
pub fn device_from_probe(probe: DeviceProbe) -> (device: Option<AudioDeviceInfo>)
    ensures
        match device {
            Some(d) => probed_device(probe@) == Some(d@) && d@.type_is_current(),
            None => probed_device(probe@) is None,
        },
{
    let (input_channels, output_channels, rates) = summarize_probe(probe.playback, probe.capture);
    if input_channels > 0 || output_channels > 0 {
        Some(
            AudioDeviceInfo {
                name: probe.name,
                device_type: type_label(input_channels > 0, output_channels > 0),
                input_channels,
                output_channels,
                supported_sample_rates: rates,
                supported_buffer_sizes: vec![64, 128, 256, 512, 1024, 2048, 4096, 8192],
                default_sample_rate: 44100,
                default_buffer_size: 1024,
                driver: "ALSA".to_owned(),
            },
        )
    } else {
        None
    }
}

/// Lists the devices of the low-level subsystem: first those found in the
/// directory tree, then those of the probes that found a channel.
pub fn get_alsa_devices(root: &Vec<CardDirectory>, probes: Vec<DeviceProbe>) -> (devices: Vec<
    AudioDeviceInfo,
>)
    ensures
        models(devices@) == proc_devices(directory_models(root@)) + probed_devices(
            probe_models(probes@),
        ),
        all_types_current(models(devices@)),
{
    let mut devices = get_proc_alsa_devices(root);
    let ghost found = models(devices@);
    let ghost all = probe_models(probes@);
    for probe in it: probes
        invariant
            it.seq() == probes@,
            all == probe_models(probes@),
            models(devices@) == found + probed_devices(all.take(it.index() as int)),
            all_types_current(models(devices@)),
    {
        let ghost so_far = models(devices@);
        proof {
            assert(all.take(it.index() + 1).drop_last() == all.take(it.index() as int));
        }
        match device_from_probe(probe) {
            Some(device) => {
                devices.push(device);
                assert(models(devices@) == so_far.push(device@));
            },
            None => {},
        }
    }
    assert(all.take(probes@.len() as int) == all);
    devices
}

} // verus!
