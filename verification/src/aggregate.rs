//! Aggregation of the backends' device lists into one snapshot.

use crate::cards::{CardDescriptions, CardMapping};
use crate::devices::types::{
    all_types_current, count_capable, models, AudioDeviceInfo, DeviceModel, SystemAudioInfo,
    SystemModel,
};
use crate::filter::{filter_devices, filtered, optional_filter};
use vstd::prelude::*;

verus! {

/// The devices of one backend's outcome: its list, or none where the
/// backend failed.
pub open spec fn outcome_devices(outcome: Option<Vec<AudioDeviceInfo>>) -> Seq<DeviceModel> {
    match outcome {
        Some(devices) => models(devices@),
        None => Seq::empty(),
    }
}

/// The devices of all backends, in the order of the backends.
pub open spec fn gathered(outcomes: Seq<Option<Vec<AudioDeviceInfo>>>) -> Seq<DeviceModel>
    decreases outcomes.len(),
{
    if outcomes.len() == 0 {
        Seq::empty()
    } else {
        gathered(outcomes.drop_last()) + outcome_devices(outcomes.last())
    }
}

/// Builds the system snapshot from the outcomes of the backends, given in
/// enumeration order. A backend that failed is `None` and contributes no
/// device.
pub fn get_system_audio_info(outcomes: Vec<Option<Vec<AudioDeviceInfo>>>) -> (info:
    SystemAudioInfo)
    ensures
        info@ == SystemModel::of(gathered(outcomes@)),
        info@.counts_are_current(),
{
    let mut all_devices: Vec<AudioDeviceInfo> = Vec::new();
    for outcome in it: outcomes
        invariant
            it.seq() == outcomes@,
            models(all_devices@) == gathered(outcomes@.take(it.index() as int)),
    {
        proof {
            assert(outcomes@.take(it.index() + 1).drop_last() == outcomes@.take(
                it.index() as int,
            ));
        }
        match outcome {
            Some(devices) => {
                let mut devices = devices;
                all_devices.append(&mut devices);
            },
            None => {},
        }
    }
    assert(outcomes@.take(outcomes@.len() as int) == outcomes@);
    SystemAudioInfo::from_devices(all_devices)
}

/// Gathering leaves the device types as they are: where every device of
/// every backend has a type that agrees with its channel counts, so has
/// every device of the gathered list.
pub proof fn lemma_gathered_keeps_types(outcomes: Seq<Option<Vec<AudioDeviceInfo>>>)
    requires
        forall|i: int|
            0 <= i < outcomes.len() ==> all_types_current(outcome_devices(#[trigger] outcomes[i])),
    ensures
        all_types_current(gathered(outcomes)),
    decreases outcomes.len(),
{
    if outcomes.len() > 0 {
        let front = outcomes.drop_last();
        lemma_gathered_keeps_types(front);
    }
}

/// Where no backend contributes a device, the snapshot holds no device, no
/// default device, and both counts are 0.
pub proof fn lemma_nothing_gathered(outcomes: Seq<Option<Vec<AudioDeviceInfo>>>)
    requires
        forall|i: int|
            0 <= i < outcomes.len() ==> outcome_devices(#[trigger] outcomes[i]).len() == 0,
    ensures
        SystemModel::of(gathered(outcomes)) == (SystemModel {
            devices: Seq::empty(),
            default_input: None,
            default_output: None,
            total_input_devices: 0,
            total_output_devices: 0,
        }),
    decreases outcomes.len(),
{
    if outcomes.len() > 0 {
        lemma_nothing_gathered(outcomes.drop_last());
    }
}

/// Applies the filters to the snapshot's device list and counts the devices
/// anew. The default devices stay as they were.
pub fn filter_system_info(
    info: SystemAudioInfo,
    card_filter: Option<&String>,
    device_filter: Option<&String>,
    show_all: bool,
    cards: &CardMapping,
    descriptions: &CardDescriptions,
) -> (out: SystemAudioInfo)
    ensures
        out@.devices == filtered(
            info@.devices,
            optional_filter(card_filter),
            optional_filter(device_filter),
            show_all,
            cards@,
            descriptions@,
        ),
        out@.default_input == info@.default_input,
        out@.default_output == info@.default_output,
        out@.counts_are_current(),
{
    let devices = filter_devices(
        info.devices,
        card_filter,
        device_filter,
        show_all,
        cards,
        descriptions,
    );
    let total_input_devices = count_capable(&devices, true);
    let total_output_devices = count_capable(&devices, false);
    SystemAudioInfo {
        devices,
        default_input: info.default_input,
        default_output: info.default_output,
        total_input_devices,
        total_output_devices,
    }
}

} // verus!
