//! The generic audio-API backend.
//!
//! Querying the host's audio API is the caller's part; it reports each
//! device it saw as a [`HostDevice`]. This module turns the reports into
//! device records.

use crate::devices::types::{
    all_types_current, default_buffer_sizes, device_type_label, models, strictly_ascending,
    type_label, AudioDeviceInfo, DeviceModel, RateRange,
};
use crate::text::optional_text;
use vstd::prelude::*;

verus! {

/// A default stream configuration: its channel count and its sample rate in
/// Hz.
#[derive(Debug, Clone, Copy)]
pub struct DefaultConfig {
    pub channels: u16,
    pub sample_rate: u32,
}

/// What the host's audio API told about one device. Each field is `None`
/// where the query failed.
#[derive(Debug, Clone)]
pub struct HostDevice {
    pub name: Option<String>,
    pub default_input: Option<DefaultConfig>,
    pub default_output: Option<DefaultConfig>,
    pub input_ranges: Option<Vec<RateRange>>,
    pub output_ranges: Option<Vec<RateRange>>,
}

/// What a [`HostDevice`] holds, as mathematical values.
pub struct HostDeviceModel {
    pub name: Option<Seq<char>>,
    pub default_input: Option<DefaultConfig>,
    pub default_output: Option<DefaultConfig>,
    pub input_ranges: Option<Seq<RateRange>>,
    pub output_ranges: Option<Seq<RateRange>>,
}

/// The ranges of an optional list.
pub open spec fn optional_ranges(ranges: Option<Vec<RateRange>>) -> Option<Seq<RateRange>> {
    match ranges {
        Some(list) => Some(list@),
        None => None,
    }
}

impl View for HostDevice {
    type V = HostDeviceModel;

    open spec fn view(&self) -> HostDeviceModel {
        HostDeviceModel {
            name: optional_text(self.name),
            default_input: self.default_input,
            default_output: self.default_output,
            input_ranges: optional_ranges(self.input_ranges),
            output_ranges: optional_ranges(self.output_ranges),
        }
    }
}

/// The models of a list of host devices, in order.
pub open spec fn host_models(devices: Seq<HostDevice>) -> Seq<HostDeviceModel> {
    Seq::new(devices.len(), |i: int| devices[i]@)
}

/// Both sequences hold the same values, however often and in whatever order.
pub open spec fn same_values(a: Seq<u32>, b: Seq<u32>) -> bool {
    forall|v: u32| a.contains(v) <==> b.contains(v)
}

/// `sorted` lists the values of `rates` in ascending order, each once.
pub open spec fn is_ascending_form(sorted: Seq<u32>, rates: Seq<u32>) -> bool {
    strictly_ascending(sorted) && same_values(sorted, rates)
}

/// The values of `rates` in ascending order, each once.
pub open spec fn ascending_form(rates: Seq<u32>) -> Seq<u32> {
    choose|sorted: Seq<u32>| is_ascending_form(sorted, rates)
}

/// Two strictly ascending sequences with the same values are equal.
pub proof fn lemma_ascending_unique(a: Seq<u32>, b: Seq<u32>)
    requires
        strictly_ascending(a),
        strictly_ascending(b),
        same_values(a, b),
    ensures
        a == b,
    decreases a.len(),
{
    if a.len() == 0 {
        if b.len() > 0 {
            assert(b.contains(b[0]));
        }
    } else {
        assert(a.contains(a.last()));
        let k = choose|k: int| 0 <= k < b.len() && b[k] == a.last();
        assert(b.contains(b.last()));
        let m = choose|m: int| 0 <= m < a.len() && a[m] == b.last();
        assert(a.last() == b.last());
        let a0 = a.drop_last();
        let b0 = b.drop_last();
        assert forall|v: u32| a0.contains(v) <==> b0.contains(v) by {
            if a0.contains(v) {
                let i = choose|i: int| 0 <= i < a0.len() && a0[i] == v;
                assert(a[i] == v);
                assert(a.contains(v));
                let j = choose|j: int| 0 <= j < b.len() && b[j] == v;
                assert(j < b.len() - 1);
                assert(b0[j] == v);
            }
            if b0.contains(v) {
                let i = choose|i: int| 0 <= i < b0.len() && b0[i] == v;
                assert(b[i] == v);
                assert(b.contains(v));
                let j = choose|j: int| 0 <= j < a.len() && a[j] == v;
                assert(j < a.len() - 1);
                assert(a0[j] == v);
            }
        }
        lemma_ascending_unique(a0, b0);
        assert(a == a0.push(a.last()));
        assert(b == b0.push(b.last()));
    }
}

/// The lower and the upper bound of each range, in the order of the ranges.
pub open spec fn range_bounds(ranges: Seq<RateRange>) -> Seq<u32>
    decreases ranges.len(),
{
    if ranges.len() == 0 {
        Seq::empty()
    } else {
        range_bounds(ranges.drop_last()).push(ranges.last().min).push(ranges.last().max)
    }
}

/// The bounds of an optional list of ranges; none where the list is missing.
pub open spec fn listed_bounds(ranges: Option<Seq<RateRange>>) -> Seq<u32> {
    match ranges {
        Some(list) => range_bounds(list),
        None => Seq::empty(),
    }
}

/// The channel count of an optional configuration; 0 where it is missing.
pub open spec fn config_channels(config: Option<DefaultConfig>) -> u32 {
    match config {
        Some(c) => c.channels as u32,
        None => 0,
    }
}

/// The sample rate of an optional configuration; 44100 Hz where it is
/// missing.
pub open spec fn config_rate(config: Option<DefaultConfig>) -> u32 {
    match config {
        Some(c) => c.sample_rate,
        None => 44100,
    }
}

/// The rate bounds of a host device: those of its input ranges, or those of
/// its output ranges where the input side lists none.
pub open spec fn host_rate_bounds(device: HostDeviceModel) -> Seq<u32> {
    if listed_bounds(device.input_ranges).len() > 0 {
        listed_bounds(device.input_ranges)
    } else {
        listed_bounds(device.output_ranges)
    }
}

/// The default sample rate of a host device: that of the default
/// configuration of the side whose ranges are used, and 44100 Hz where
/// neither side lists a range or that configuration is missing.
pub open spec fn host_default_rate(device: HostDeviceModel) -> u32 {
    if listed_bounds(device.input_ranges).len() > 0 {
        config_rate(device.default_input)
    } else if listed_bounds(device.output_ranges).len() > 0 {
        config_rate(device.default_output)
    } else {
        44100
    }
}

/// The record of a host device.
pub open spec fn host_device(device: HostDeviceModel) -> DeviceModel {
    let input_channels = config_channels(device.default_input);
    let output_channels = config_channels(device.default_output);
    DeviceModel {
        name: match device.name {
            Some(name) => name,
            None => "Unknown Device"@,
        },
        device_type: device_type_label(input_channels > 0, output_channels > 0),
        input_channels,
        output_channels,
        supported_sample_rates: ascending_form(host_rate_bounds(device)),
        supported_buffer_sizes: default_buffer_sizes(),
        default_sample_rate: host_default_rate(device),
        default_buffer_size: 1024,
        driver: "CPAL"@,
    }
}

/// The records of a list of host devices, in order.
pub open spec fn host_devices(devices: Seq<HostDeviceModel>) -> Seq<DeviceModel> {
    Seq::new(devices.len(), |i: int| host_device(devices[i]))
}

/// The number of leading elements of `s` that are smaller than `x`.
pub open spec fn rank(s: Seq<u32>, x: u32) -> nat
    decreases s.len(),
{
    if s.len() > 0 && s[0] < x {
        1 + rank(s.skip(1), x)
    } else {
        0
    }
}

/// `rank` counts a prefix: what stands before it is smaller than `x`, and
/// what stands at it, if anything, is not.
pub proof fn lemma_rank(s: Seq<u32>, x: u32)
    ensures
        rank(s, x) <= s.len(),
        forall|k: int| 0 <= k < rank(s, x) ==> s[k] < x,
        rank(s, x) < s.len() ==> s[rank(s, x) as int] >= x,
    decreases s.len(),
{
    if s.len() > 0 && s[0] < x {
        let rest = s.skip(1);
        lemma_rank(rest, x);
        assert forall|k: int| 0 <= k < rank(s, x) implies s[k] < x by {
            if k > 0 {
                assert(s[k] == rest[k - 1]);
            }
        }
    }
}

/// Adding a value to a list adds it to the list's values.
proof fn lemma_values_of_push(seen: Seq<u32>, x: u32)
    ensures
        forall|v: u32| seen.push(x).contains(v) <==> (v == x || seen.contains(v)),
{
    let next = seen.push(x);
    assert forall|v: u32| next.contains(v) <==> (v == x || seen.contains(v)) by {
        if seen.contains(v) {
            let k = choose|k: int| 0 <= k < seen.len() && seen[k] == v;
            assert(next[k] == v);
        }
        if v == x {
            assert(next[seen.len() as int] == v);
        }
    }
}

/// The ascending form of a list stays one when a value that it holds is
/// added to the list.
pub proof fn lemma_form_with_known(sorted: Seq<u32>, seen: Seq<u32>, x: u32)
    requires
        is_ascending_form(sorted, seen),
        sorted.contains(x),
    ensures
        is_ascending_form(sorted, seen.push(x)),
{
    lemma_values_of_push(seen, x);
}

/// The ascending form of a list, with a new value put in at its place, is
/// the ascending form of the list with that value added.
pub proof fn lemma_form_with_new(sorted: Seq<u32>, seen: Seq<u32>, x: u32, p: int)
    requires
        is_ascending_form(sorted, seen),
        0 <= p <= sorted.len(),
        forall|k: int| 0 <= k < p ==> sorted[k] < x,
        p < sorted.len() ==> sorted[p] > x,
    ensures
        is_ascending_form(sorted.insert(p, x), seen.push(x)),
{
    let after = sorted.insert(p, x);
    lemma_values_of_push(seen, x);
    assert(after[p] == x);
    assert forall|v: u32| after.contains(v) <==> (v == x || sorted.contains(v)) by {
        if sorted.contains(v) {
            let k = choose|k: int| 0 <= k < sorted.len() && sorted[k] == v;
            if k < p {
                assert(after[k] == v);
            } else {
                assert(after[k + 1] == v);
            }
        }
    }
    assert forall|v: u32| after.contains(v) <==> seen.push(x).contains(v) by {
        assert(sorted.contains(v) <==> seen.contains(v));
    }
}

/// Every list has an ascending form, and `ascending_form` is it.
pub proof fn lemma_ascending_form(rates: Seq<u32>)
    ensures
        is_ascending_form(ascending_form(rates), rates),
    decreases rates.len(),
{
    if rates.len() == 0 {
        assert(is_ascending_form(Seq::<u32>::empty(), rates));
    } else {
        let seen = rates.drop_last();
        let x = rates.last();
        lemma_ascending_form(seen);
        let sorted = ascending_form(seen);
        let p = rank(sorted, x) as int;
        lemma_rank(sorted, x);
        assert(seen.push(x) == rates);
        if p < sorted.len() && sorted[p] == x {
            lemma_form_with_known(sorted, seen, x);
        } else {
            lemma_form_with_new(sorted, seen, x, p);
        }
    }
}

/// The values of `rates` in ascending order, each once.
pub fn sort_and_dedup(rates: &Vec<u32>) -> (sorted: Vec<u32>)
    ensures
        is_ascending_form(sorted@, rates@),
        sorted@ == ascending_form(rates@),
{
    let mut sorted: Vec<u32> = Vec::new();
    let mut i: usize = 0;
    while i < rates.len()
        invariant
            i <= rates.len(),
            is_ascending_form(sorted@, rates@.take(i as int)),
        decreases rates.len() - i,
    {
        let rate = rates[i];
        let mut p: usize = 0;
        while p < sorted.len() && sorted[p] < rate
            invariant
                p <= sorted.len(),
                forall|k: int| 0 <= k < p ==> sorted@[k] < rate,
            decreases sorted.len() - p,
        {
            p += 1;
        }
        proof {
            assert(rates@.take(i + 1) == rates@.take(i as int).push(rate));
            if p < sorted.len() && sorted@[p as int] == rate {
                lemma_form_with_known(sorted@, rates@.take(i as int), rate);
            } else {
                lemma_form_with_new(sorted@, rates@.take(i as int), rate, p as int);
            }
        }
        if p == sorted.len() || sorted[p] != rate {
            sorted.insert(p, rate);
        }
        i += 1;
    }
    proof {
        assert(rates@.take(i as int) == rates@);
        lemma_ascending_form(rates@);
        lemma_ascending_unique(sorted@, ascending_form(rates@));
    }
    sorted
}

/// Appends the bounds of each range to `bounds`.
fn push_bounds(bounds: &mut Vec<u32>, ranges: &Option<Vec<RateRange>>)
    requires
        old(bounds)@.len() == 0,
    ensures
        final(bounds)@ == listed_bounds(optional_ranges(*ranges)),
{
    match ranges {
        Some(list) => {
            let mut i: usize = 0;
            while i < list.len()
                invariant
                    i <= list.len(),
                    bounds@ == range_bounds(list@.take(i as int)),
                decreases list.len() - i,
            {
                assert(list@.take(i + 1).drop_last() == list@.take(i as int));
                bounds.push(list[i].min);
                bounds.push(list[i].max);
                i += 1;
            }
            assert(list@.take(i as int) == list@);
        },
        None => {},
    }
}

/// Turns what the host's audio API told about one device into a record.
pub fn device_from_host(device: HostDevice) -> (record: AudioDeviceInfo)
    ensures
        record@ == host_device(device@),
        record@.type_is_current(),
{
    let input_channels: u32 = match device.default_input {
        Some(config) => config.channels as u32,
        None => 0,
    };
    let output_channels: u32 = match device.default_output {
        Some(config) => config.channels as u32,
        None => 0,
    };
    let mut bounds: Vec<u32> = Vec::new();
    let mut default_sample_rate: u32 = 44100;
    push_bounds(&mut bounds, &device.input_ranges);
    if bounds.len() > 0 {
        match device.default_input {
            Some(config) => {
                default_sample_rate = config.sample_rate;
            },
            None => {},
        }
    } else {
        push_bounds(&mut bounds, &device.output_ranges);
        if bounds.len() > 0 {
            match device.default_output {
                Some(config) => {
                    default_sample_rate = config.sample_rate;
                },
                None => {},
            }
        }
    }
    let name = match device.name {
        Some(name) => name,
        None => "Unknown Device".to_owned(),
    };
    AudioDeviceInfo {
        name,
        device_type: type_label(input_channels > 0, output_channels > 0),
        input_channels,
        output_channels,
        supported_sample_rates: sort_and_dedup(&bounds),
        supported_buffer_sizes: vec![64, 128, 256, 512, 1024, 2048, 4096],
        default_sample_rate,
        default_buffer_size: 1024,
        driver: "CPAL".to_owned(),
    }
}

/// Lists the devices of the generic audio API, one record per reported
/// device, in the order of the reports.
pub fn get_cpal_devices(host: Vec<HostDevice>) -> (devices: Vec<AudioDeviceInfo>)
    ensures
        models(devices@) == host_devices(host_models(host@)),
        all_types_current(models(devices@)),
{
    let mut devices: Vec<AudioDeviceInfo> = Vec::new();
    for device in it: host
        invariant
            it.seq() == host@,
            devices@.len() == it.index(),
            forall|k: int|
                0 <= k < devices@.len() ==> (#[trigger] devices@[k])@ == host_device(host@[k]@),
            all_types_current(models(devices@)),
    {
        let record = device_from_host(device);
        devices.push(record);
    }
    devices
}

} // verus!
