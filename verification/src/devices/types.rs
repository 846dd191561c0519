//! The device record and the system-wide snapshot.

use crate::text::{chars_of, contains, has_substring, optional_text, same_text};
use vstd::prelude::*;

verus! {

/// The sample rates, in Hz, that a device is taken to support when it lists
/// none.
pub open spec fn common_rates() -> Seq<u32> {
    seq![8000, 11025, 22050, 44100, 48000, 88200, 96000, 176400, 192000]
}

/// The buffer sizes, in frames, that a device is taken to support when the
/// backend cannot tell.
pub open spec fn default_buffer_sizes() -> Seq<u32> {
    seq![64, 128, 256, 512, 1024, 2048, 4096]
}

/// The device type that goes with the two capabilities.
pub open spec fn device_type_label(has_input: bool, has_output: bool) -> Seq<char> {
    if has_input && has_output {
        "Input/Output"@
    } else if has_input {
        "Input"@
    } else if has_output {
        "Output"@
    } else {
        "Unknown"@
    }
}

/// The lowest and the highest sample rate, in Hz, of one supported
/// configuration.
#[derive(Debug, Clone, Copy)]
pub struct RateRange {
    pub min: u32,
    pub max: u32,
}

/// Information about a single audio device.
#[derive(Debug, Clone)]
pub struct AudioDeviceInfo {
    /// Device name, as the backend reports it.
    pub name: String,
    /// Type of device: `Input`, `Output`, `Input/Output` or `Unknown`.
    pub device_type: String,
    /// Number of input channels available.
    pub input_channels: u32,
    /// Number of output channels available.
    pub output_channels: u32,
    /// Supported sample rates in Hz; empty stands for the common rates.
    pub supported_sample_rates: Vec<u32>,
    /// Supported buffer sizes in frames.
    pub supported_buffer_sizes: Vec<u32>,
    /// Default sample rate in Hz.
    pub default_sample_rate: u32,
    /// Default buffer size in frames.
    pub default_buffer_size: u32,
    /// Name of the backend that produced the record.
    pub driver: String,
}

/// What an [`AudioDeviceInfo`] holds, as mathematical values.
pub struct DeviceModel {
    pub name: Seq<char>,
    pub device_type: Seq<char>,
    pub input_channels: u32,
    pub output_channels: u32,
    pub supported_sample_rates: Seq<u32>,
    pub supported_buffer_sizes: Seq<u32>,
    pub default_sample_rate: u32,
    pub default_buffer_size: u32,
    pub driver: Seq<char>,
}

impl DeviceModel {
    /// The device can capture.
    pub open spec fn has_input(self) -> bool {
        self.input_channels > 0
    }

    /// The device can play back.
    pub open spec fn has_output(self) -> bool {
        self.output_channels > 0
    }

    /// The device type says what the channel counts say.
    pub open spec fn type_is_current(self) -> bool {
        self.device_type == device_type_label(self.has_input(), self.has_output())
    }

    /// The record with its device type brought in line with its channel
    /// counts.
    pub open spec fn with_current_type(self) -> DeviceModel {
        DeviceModel {
            device_type: device_type_label(self.has_input(), self.has_output()),
            ..self
        }
    }

    /// The device handles the sample rate `rate`.
    pub open spec fn supports_sample_rate(self, rate: u32) -> bool {
        if self.supported_sample_rates.len() == 0 {
            common_rates().contains(rate)
        } else {
            self.supported_sample_rates.contains(rate)
        }
    }

    /// A record as a backend first creates it: no channels, type `Unknown`,
    /// no listed rates, the default buffer sizes, 44100 Hz and 1024 frames.
    pub open spec fn fresh(name: Seq<char>, driver: Seq<char>) -> DeviceModel {
        DeviceModel {
            name,
            device_type: "Unknown"@,
            input_channels: 0,
            output_channels: 0,
            supported_sample_rates: Seq::empty(),
            supported_buffer_sizes: default_buffer_sizes(),
            default_sample_rate: 44100,
            default_buffer_size: 1024,
            driver,
        }
    }
}

impl View for AudioDeviceInfo {
    type V = DeviceModel;

    open spec fn view(&self) -> DeviceModel {
        DeviceModel {
            name: self.name@,
            device_type: self.device_type@,
            input_channels: self.input_channels,
            output_channels: self.output_channels,
            supported_sample_rates: self.supported_sample_rates@,
            supported_buffer_sizes: self.supported_buffer_sizes@,
            default_sample_rate: self.default_sample_rate,
            default_buffer_size: self.default_buffer_size,
            driver: self.driver@,
        }
    }
}

/// The models of a list of device records, in order.
pub open spec fn models(devices: Seq<AudioDeviceInfo>) -> Seq<DeviceModel> {
    Seq::new(devices.len(), |i: int| devices[i]@)
}

/// The records that a list of references points to, in order.
pub open spec fn targets(refs: Seq<&AudioDeviceInfo>) -> Seq<AudioDeviceInfo> {
    Seq::new(refs.len(), |i: int| *refs[i])
}

/// Every record of the list has a device type that agrees with its channel
/// counts.
pub open spec fn all_types_current(devices: Seq<DeviceModel>) -> bool {
    forall|i: int| 0 <= i < devices.len() ==> (#[trigger] devices[i]).type_is_current()
}

/// The four device types are four different texts, so a device type that is
/// current tells exactly which of the two capabilities the device has.
pub proof fn lemma_device_type_reflects_channels(device: DeviceModel)
    requires
        device.type_is_current(),
    ensures
        device.device_type == "Input/Output"@ <==> device.has_input() && device.has_output(),
        device.device_type == "Input"@ <==> device.has_input() && !device.has_output(),
        device.device_type == "Output"@ <==> !device.has_input() && device.has_output(),
        device.device_type == "Unknown"@ <==> !device.has_input() && !device.has_output(),
{
    reveal_strlit("Input/Output");
    reveal_strlit("Input");
    reveal_strlit("Output");
    reveal_strlit("Unknown");
    assert("Input/Output"@.len() == 12);
    assert("Input"@.len() == 5);
    assert("Output"@.len() == 6);
}

/// Each element is smaller than the next.
pub open spec fn strictly_ascending(s: Seq<u32>) -> bool {
    forall|i: int, j: int| 0 <= i < j < s.len() ==> s[i] < s[j]
}

/// Whether `values` holds `wanted`.
pub fn holds(values: &Vec<u32>, wanted: u32) -> (found: bool)
    ensures
        found == values@.contains(wanted),
{
    let mut i: usize = 0;
    while i < values.len()
        invariant
            i <= values.len(),
            forall|j: int| 0 <= j < i ==> values@[j] != wanted,
        decreases values.len() - i,
    {
        if values[i] == wanted {
            return true;
        }
        i += 1;
    }
    false
}

/// The common sample rates, ascending.
pub fn common_sample_rates() -> (rates: Vec<u32>)
    ensures
        rates@ == common_rates(),
{
    vec![8000, 11025, 22050, 44100, 48000, 88200, 96000, 176400, 192000]
}

/// The device type label for the two capabilities.
pub fn type_label(has_input: bool, has_output: bool) -> (label: String)
    ensures
        label@ == device_type_label(has_input, has_output),
{
    if has_input && has_output {
        "Input/Output".to_owned()
    } else if has_input {
        "Input".to_owned()
    } else if has_output {
        "Output".to_owned()
    } else {
        "Unknown".to_owned()
    }
}

impl AudioDeviceInfo {
    /// Creates a record with default values.
    pub fn new(name: String, driver: String) -> (device: Self)
        ensures
            device@ == DeviceModel::fresh(name@, driver@),
            device@.type_is_current(),
    {
        Self {
            name,
            device_type: "Unknown".to_owned(),
            input_channels: 0,
            output_channels: 0,
            supported_sample_rates: Vec::new(),
            supported_buffer_sizes: vec![64, 128, 256, 512, 1024, 2048, 4096],
            default_sample_rate: 44100,
            default_buffer_size: 1024,
            driver,
        }
    }

    /// Whether this device has input capabilities.
    pub fn has_input(&self) -> (b: bool)
        ensures
            b == self@.has_input(),
    {
        self.input_channels > 0
    }

    /// Whether this device has output capabilities.
    pub fn has_output(&self) -> (b: bool)
        ensures
            b == self@.has_output(),
    {
        self.output_channels > 0
    }

    /// Recomputes the device type from the channel counts; nothing else
    /// changes.
    pub fn update_device_type(&mut self)
        ensures
            final(self)@ == old(self)@.with_current_type(),
            final(self)@.type_is_current(),
    {
        self.device_type = type_label(self.has_input(), self.has_output());
    }

    /// Whether the sample rate is supported. A device that lists no rates
    /// supports the common ones.
    pub fn supports_sample_rate(&self, rate: u32) -> (b: bool)
        ensures
            b == self@.supports_sample_rate(rate),
    {
        if self.supported_sample_rates.len() == 0 {
            holds(&common_sample_rates(), rate)
        } else {
            holds(&self.supported_sample_rates, rate)
        }
    }

    /// Whether the buffer size is supported.
    pub fn supports_buffer_size(&self, size: u32) -> (b: bool)
        ensures
            b == self@.supported_buffer_sizes.contains(size),
    {
        holds(&self.supported_buffer_sizes, size)
    }
}

/// The device has the capability asked for: input where `input` is set,
/// output where it is not.
pub open spec fn is_capable(device: DeviceModel, input: bool) -> bool {
    if input {
        device.has_input()
    } else {
        device.has_output()
    }
}

/// The test "has the capability", on a device.
pub open spec fn capability_test(input: bool) -> spec_fn(DeviceModel) -> bool {
    |device: DeviceModel| is_capable(device, input)
}

/// The number of devices with the capability.
pub open spec fn capable_count(devices: Seq<DeviceModel>, input: bool) -> nat {
    devices.filter(capability_test(input)).len()
}

/// The number of devices with input channels.
pub open spec fn input_count(devices: Seq<DeviceModel>) -> nat {
    capable_count(devices, true)
}

/// The number of devices with output channels.
pub open spec fn output_count(devices: Seq<DeviceModel>) -> nat {
    capable_count(devices, false)
}

/// The name is taken for that of a default device: it holds `default` or
/// `hw:0`.
pub open spec fn is_default_name(name: Seq<char>) -> bool {
    has_substring(name, "default"@) || has_substring(name, "hw:0"@)
}

/// The device can be the default for the capability.
pub open spec fn is_default_candidate(device: DeviceModel, input: bool) -> bool {
    is_capable(device, input) && is_default_name(device.name)
}

/// `i` is the position of the first device that can be the default for the
/// capability.
pub open spec fn is_first_candidate(devices: Seq<DeviceModel>, input: bool, i: int) -> bool {
    &&& 0 <= i < devices.len()
    &&& is_default_candidate(devices[i], input)
    &&& forall|j: int| 0 <= j < i ==> !is_default_candidate(#[trigger] devices[j], input)
}

/// The name of the default device for the capability: that of the first
/// device, in list order, that can be the default. There is none where no
/// device can.
pub open spec fn default_device(devices: Seq<DeviceModel>, input: bool) -> Option<Seq<char>> {
    if exists|i: int| is_first_candidate(devices, input, i) {
        Some(devices[choose|i: int| is_first_candidate(devices, input, i)].name)
    } else {
        None
    }
}

/// System-wide audio information.
#[derive(Debug)]
pub struct SystemAudioInfo {
    /// All detected devices, in enumeration order.
    pub devices: Vec<AudioDeviceInfo>,
    /// Name of the default input device, if any.
    pub default_input: Option<String>,
    /// Name of the default output device, if any.
    pub default_output: Option<String>,
    /// Number of devices with input channels.
    pub total_input_devices: usize,
    /// Number of devices with output channels.
    pub total_output_devices: usize,
}

/// What a [`SystemAudioInfo`] holds, as mathematical values.
pub struct SystemModel {
    pub devices: Seq<DeviceModel>,
    pub default_input: Option<Seq<char>>,
    pub default_output: Option<Seq<char>>,
    pub total_input_devices: nat,
    pub total_output_devices: nat,
}

impl SystemModel {
    /// The snapshot of a list of devices: the list, its default devices and
    /// its counts.
    pub open spec fn of(devices: Seq<DeviceModel>) -> SystemModel {
        SystemModel {
            devices,
            default_input: default_device(devices, true),
            default_output: default_device(devices, false),
            total_input_devices: input_count(devices),
            total_output_devices: output_count(devices),
        }
    }

    /// The two counts are those of the device list as it stands.
    pub open spec fn counts_are_current(self) -> bool {
        &&& self.total_input_devices == input_count(self.devices)
        &&& self.total_output_devices == output_count(self.devices)
    }
}

impl View for SystemAudioInfo {
    type V = SystemModel;

    open spec fn view(&self) -> SystemModel {
        SystemModel {
            devices: models(self.devices@),
            default_input: optional_text(self.default_input),
            default_output: optional_text(self.default_output),
            total_input_devices: self.total_input_devices as nat,
            total_output_devices: self.total_output_devices as nat,
        }
    }
}

/// The test "comes from the backend `driver`", on a record.
pub open spec fn driver_test(driver: Seq<char>) -> spec_fn(AudioDeviceInfo) -> bool {
    |device: AudioDeviceInfo| device.driver@ == driver
}

/// The test "has the capability", on a record.
pub open spec fn record_test(input: bool) -> spec_fn(AudioDeviceInfo) -> bool {
    |device: AudioDeviceInfo| is_capable(device@, input)
}

/// `i` is the position of the first record named `name`.
pub open spec fn is_first_named(devices: Seq<AudioDeviceInfo>, name: Seq<char>, i: int) -> bool {
    &&& 0 <= i < devices.len()
    &&& devices[i].name@ == name
    &&& forall|j: int| 0 <= j < i ==> (#[trigger] devices[j]).name@ != name
}

/// Counts the devices with the capability.
pub fn count_capable(devices: &Vec<AudioDeviceInfo>, input: bool) -> (count: usize)
    ensures
        count == capable_count(models(devices@), input),
{
    let ghost all = models(devices@);
    let ghost test = capability_test(input);
    let mut count: usize = 0;
    let mut i: usize = 0;
    while i < devices.len()
        invariant
            i <= devices.len(),
            all == models(devices@),
            test == capability_test(input),
            count == all.take(i as int).filter(test).len(),
            count <= i,
        decreases devices.len() - i,
    {
        proof {
            assert(all.take(i + 1) == all.take(i as int).push(devices@[i as int]@));
            all.take(i as int).lemma_filter_push(devices@[i as int]@, test);
        }
        let capable = if input {
            devices[i].has_input()
        } else {
            devices[i].has_output()
        };
        if capable {
            count += 1;
        }
        i += 1;
    }
    assert(all.take(i as int) == all);
    count
}

/// The name of the default device for the capability.
pub fn find_default(devices: &Vec<AudioDeviceInfo>, input: bool) -> (name: Option<String>)
    ensures
        optional_text(name) == default_device(models(devices@), input),
{
    let ghost all = models(devices@);
    let default_word = chars_of("default");
    let first_card = chars_of("hw:0");
    let mut i: usize = 0;
    while i < devices.len()
        invariant
            i <= devices.len(),
            all == models(devices@),
            default_word@ == "default"@,
            first_card@ == "hw:0"@,
            forall|j: int| 0 <= j < i ==> !is_default_candidate(#[trigger] all[j], input),
        decreases devices.len() - i,
    {
        let device = &devices[i];
        let capable = if input {
            device.has_input()
        } else {
            device.has_output()
        };
        if capable {
            let name = chars_of(device.name.as_str());
            if contains(&name, &default_word) || contains(&name, &first_card) {
                assert(is_first_candidate(all, input, i as int));
                return Some(device.name.clone());
            }
        }
        i += 1;
    }
    None
}

impl SystemAudioInfo {
    /// Creates the snapshot of a list of devices.
    pub fn from_devices(devices: Vec<AudioDeviceInfo>) -> (info: Self)
        ensures
            info@ == SystemModel::of(models(devices@)),
            info.devices == devices,
            info@.counts_are_current(),
    {
        let total_input_devices = count_capable(&devices, true);
        let total_output_devices = count_capable(&devices, false);
        let default_input = find_default(&devices, true);
        let default_output = find_default(&devices, false);
        Self { devices, default_input, default_output, total_input_devices, total_output_devices }
    }

    /// The devices with input channels, in list order.
    pub fn input_devices(&self) -> (found: Vec<&AudioDeviceInfo>)
        ensures
            targets(found@) == self.devices@.filter(record_test(true)),
    {
        self.capable_devices(true)
    }

    /// The devices with output channels, in list order.
    pub fn output_devices(&self) -> (found: Vec<&AudioDeviceInfo>)
        ensures
            targets(found@) == self.devices@.filter(record_test(false)),
    {
        self.capable_devices(false)
    }

    /// The devices with the capability, in list order.
    fn capable_devices(&self, input: bool) -> (found: Vec<&AudioDeviceInfo>)
        ensures
            targets(found@) == self.devices@.filter(record_test(input)),
    {
        let ghost all = self.devices@;
        let ghost test = record_test(input);
        let mut found: Vec<&AudioDeviceInfo> = Vec::new();
        let mut i: usize = 0;
        while i < self.devices.len()
            invariant
                i <= self.devices.len(),
                all == self.devices@,
                test == record_test(input),
                targets(found@) == all.take(i as int).filter(test),
            decreases self.devices.len() - i,
        {
            let device = &self.devices[i];
            proof {
                assert(all.take(i + 1) == all.take(i as int).push(*device));
                all.take(i as int).lemma_filter_push(*device, test);
            }
            let capable = if input {
                device.has_input()
            } else {
                device.has_output()
            };
            if capable {
                found.push(device);
            }
            i += 1;
        }
        assert(all.take(i as int) == all);
        found
    }

    /// The first device named `name`.
    pub fn find_device(&self, name: &str) -> (found: Option<&AudioDeviceInfo>)
        ensures
            match found {
                Some(device) => exists|i: int|
                    is_first_named(self.devices@, name@, i) && *device == self.devices@[i],
                None => forall|i: int|
                    0 <= i < self.devices@.len() ==> (#[trigger] self.devices@[i]).name@ != name@,
            },
    {
        let wanted = chars_of(name);
        let mut i: usize = 0;
        while i < self.devices.len()
            invariant
                i <= self.devices.len(),
                wanted@ == name@,
                forall|j: int| 0 <= j < i ==> (#[trigger] self.devices@[j]).name@ != name@,
            decreases self.devices.len() - i,
        {
            if same_text(&chars_of(self.devices[i].name.as_str()), &wanted) {
                return Some(&self.devices[i]);
            }
            i += 1;
        }
        None
    }

    /// The devices that the backend `driver` produced, in list order.
    pub fn devices_by_driver(&self, driver: &str) -> (found: Vec<&AudioDeviceInfo>)
        ensures
            targets(found@) == self.devices@.filter(driver_test(driver@)),
    {
        let ghost all = self.devices@;
        let ghost test = driver_test(driver@);
        let wanted = chars_of(driver);
        let mut found: Vec<&AudioDeviceInfo> = Vec::new();
        let mut i: usize = 0;
        while i < self.devices.len()
            invariant
                i <= self.devices.len(),
                all == self.devices@,
                wanted@ == driver@,
                test == driver_test(driver@),
                targets(found@) == all.take(i as int).filter(test),
            decreases self.devices.len() - i,
        {
            let device = &self.devices[i];
            proof {
                assert(all.take(i + 1) == all.take(i as int).push(*device));
                all.take(i as int).lemma_filter_push(*device, test);
            }
            if same_text(&chars_of(device.driver.as_str()), &wanted) {
                found.push(device);
            }
            i += 1;
        }
        assert(all.take(i as int) == all);
        found
    }
}

} // verus!
