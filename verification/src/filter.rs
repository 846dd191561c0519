//! The card filter, the name filter and the removal of aliases.
//!
//! The three steps run in this order. Each keeps the devices that pass, in
//! the order in which they came.

use crate::cards::{lemma_map_of_pairs, CardDescriptions, CardMapping};
use crate::devices::types::{all_types_current, models, AudioDeviceInfo, DeviceModel};
use crate::text::{
    chars_of, contains, has_prefix, has_substring, join, lowercase_of, same_text, slice,
    starts_with, string_of, texts, to_lowercase,
};
use vstd::prelude::*;

verus! {

/// The text of an optional reference to a string.
pub open spec fn optional_filter(filter: Option<&String>) -> Option<Seq<char>> {
    match filter {
        Some(text) => Some(text@),
        None => None,
    }
}

/// The bare card number of a card token: the token without a leading
/// `card`.
pub open spec fn card_number(card_id: Seq<char>) -> Seq<char> {
    if has_prefix(card_id, "card"@) {
        card_id.skip(4)
    } else {
        card_id
    }
}

/// A device name passes the card filter `card_id`: it holds `hw:<num>` or
/// `card<num>` for the token's bare number, or `CARD=<name>` for the short
/// name that the card mapping gives the number, or `CARD=<token>` for the
/// token as it was given.
pub open spec fn matches_card(
    name: Seq<char>,
    card_id: Seq<char>,
    cards: Map<Seq<char>, Seq<char>>,
) -> bool {
    let number = card_number(card_id);
    ||| has_substring(name, "hw:"@ + number)
    ||| has_substring(name, "card"@ + number)
    ||| (cards.contains_key(number) && has_substring(name, "CARD="@ + cards[number]))
    ||| has_substring(name, "CARD="@ + card_id)
}

/// A device name passes the name filter `filter`: without regard to case,
/// the name holds the filter, or the description of some card holds it and
/// the name holds `CARD=<name>` for that card's short name.
pub open spec fn matches_name(
    name: Seq<char>,
    filter: Seq<char>,
    descriptions: Map<Seq<char>, Seq<char>>,
) -> bool {
    ||| has_substring(lowercase_of(name), lowercase_of(filter))
    ||| exists|card: Seq<char>|
        descriptions.contains_key(card) && has_substring(
            lowercase_of(#[trigger] descriptions[card]),
            lowercase_of(filter),
        ) && has_substring(name, "CARD="@ + card)
}

/// The name is that of a virtual device: it begins with `dmix:`, `dsnoop:`,
/// `surround` or `iec958:`.
pub open spec fn is_virtual(name: Seq<char>) -> bool {
    ||| has_prefix(name, "dmix:"@)
    ||| has_prefix(name, "dsnoop:"@)
    ||| has_prefix(name, "surround"@)
    ||| has_prefix(name, "iec958:"@)
}

/// The name by which aliases are told: a leading `plughw:` reads `hw:`.
pub open spec fn alias_key(name: Seq<char>) -> Seq<char> {
    if has_prefix(name, "plughw:"@) {
        "hw:"@ + name.skip(7)
    } else {
        name
    }
}

/// Some device of the list goes by the alias key `key`.
pub open spec fn has_alias(devices: Seq<DeviceModel>, key: Seq<char>) -> bool {
    exists|i: int| 0 <= i < devices.len() && alias_key(#[trigger] devices[i].name) == key
}

/// The list without its virtual devices and without every device whose
/// alias key an earlier device that stays already has.
pub open spec fn without_aliases(devices: Seq<DeviceModel>) -> Seq<DeviceModel>
    decreases devices.len(),
{
    if devices.len() == 0 {
        devices
    } else {
        let earlier = without_aliases(devices.drop_last());
        let last = devices.last();
        if is_virtual(last.name) || has_alias(earlier, alias_key(last.name)) {
            earlier
        } else {
            earlier.push(last)
        }
    }
}

/// The test of the card filter, on a device.
pub open spec fn card_test(card_id: Seq<char>, cards: Map<Seq<char>, Seq<char>>) -> spec_fn(
    DeviceModel,
) -> bool {
    |device: DeviceModel| matches_card(device.name, card_id, cards)
}

/// The test of the name filter, on a device.
pub open spec fn name_test(
    filter: Seq<char>,
    descriptions: Map<Seq<char>, Seq<char>>,
) -> spec_fn(DeviceModel) -> bool {
    |device: DeviceModel| matches_name(device.name, filter, descriptions)
}

/// The first step: the devices that pass the card filter, where one is
/// given.
pub open spec fn card_step(
    devices: Seq<DeviceModel>,
    card_filter: Option<Seq<char>>,
    cards: Map<Seq<char>, Seq<char>>,
) -> Seq<DeviceModel> {
    match card_filter {
        Some(card_id) => devices.filter(card_test(card_id, cards)),
        None => devices,
    }
}

/// The second step: the devices that pass the name filter, where one is
/// given.
pub open spec fn name_step(
    devices: Seq<DeviceModel>,
    device_filter: Option<Seq<char>>,
    descriptions: Map<Seq<char>, Seq<char>>,
) -> Seq<DeviceModel> {
    match device_filter {
        Some(filter) => devices.filter(name_test(filter, descriptions)),
        None => devices,
    }
}

/// The third step: the list without aliases, unless all devices are to be
/// shown.
pub open spec fn alias_step(devices: Seq<DeviceModel>, show_all: bool) -> Seq<DeviceModel> {
    if show_all {
        devices
    } else {
        without_aliases(devices)
    }
}

/// The devices that pass all three steps.
pub open spec fn filtered(
    devices: Seq<DeviceModel>,
    card_filter: Option<Seq<char>>,
    device_filter: Option<Seq<char>>,
    show_all: bool,
    cards: Map<Seq<char>, Seq<char>>,
    descriptions: Map<Seq<char>, Seq<char>>,
) -> Seq<DeviceModel> {
    alias_step(
        name_step(card_step(devices, card_filter, cards), device_filter, descriptions),
        show_all,
    )
}

/// `name` holds one of `patterns`.
pub open spec fn holds_one(name: Seq<char>, patterns: Seq<Seq<char>>) -> bool {
    exists|k: int| 0 <= k < patterns.len() && has_substring(name, #[trigger] patterns[k])
}

/// The test "the device's name holds one of `patterns`".
pub open spec fn pattern_test(patterns: Seq<Seq<char>>) -> spec_fn(DeviceModel) -> bool {
    |device: DeviceModel| holds_one(device.name, patterns)
}

/// Whether `name` holds one of `patterns`.
pub fn holds_any(name: &Vec<char>, patterns: &Vec<Vec<char>>) -> (found: bool)
    ensures
        found == holds_one(name@, texts(patterns@)),
{
    let mut k: usize = 0;
    while k < patterns.len()
        invariant
            k <= patterns.len(),
            forall|j: int| 0 <= j < k ==> !has_substring(name@, #[trigger] texts(patterns@)[j]),
        decreases patterns.len() - k,
    {
        if contains(name, &patterns[k]) {
            assert(has_substring(name@, texts(patterns@)[k as int]));
            return true;
        }
        k += 1;
    }
    false
}

/// The patterns of the card filter `card_id`: `hw:<num>`, `card<num>` and
/// `CARD=<token>`, then `CARD=<name>` where the card mapping knows the
/// number.
pub open spec fn card_pattern_texts(
    card_id: Seq<char>,
    cards: Map<Seq<char>, Seq<char>>,
) -> Seq<Seq<char>> {
    let number = card_number(card_id);
    let fixed = seq!["hw:"@ + number, "card"@ + number, "CARD="@ + card_id];
    if cards.contains_key(number) {
        fixed.push("CARD="@ + cards[number])
    } else {
        fixed
    }
}

/// The patterns of the card filter `card_id`: a device name passes the
/// filter where it holds one of them.
pub fn card_patterns(card_id: &str, cards: &CardMapping) -> (patterns: Vec<Vec<char>>)
    ensures
        texts(patterns@) == card_pattern_texts(card_id@, cards@),
        forall|name: Seq<char>| #[trigger]
            matches_card(name, card_id@, cards@) <==> holds_one(name, texts(patterns@)),
{
    let token = chars_of(card_id);
    let number = if starts_with(&token, &chars_of("card")) {
        proof {
            reveal_strlit("card");
        }
        slice(&token, 4, token.len())
    } else {
        chars_of(card_id)
    };
    let mut patterns: Vec<Vec<char>> = Vec::new();
    patterns.push(join(&chars_of("hw:"), &number));
    patterns.push(join(&chars_of("card"), &number));
    patterns.push(join(&chars_of("CARD="), &token));
    let number_text = string_of(&number);
    match cards.get(number_text.as_str()) {
        Some(short_name) => {
            patterns.push(join(&chars_of("CARD="), &chars_of(short_name.as_str())));
        },
        None => {},
    }
    proof {
        let all = texts(patterns@);
        assert forall|name: Seq<char>| #[trigger]
            matches_card(name, card_id@, cards@) <==> holds_one(name, all) by {
            if has_substring(name, all[0]) || has_substring(name, all[1]) || has_substring(
                name,
                all[2],
            ) {
                assert(holds_one(name, all));
            }
            if all.len() == 4 && has_substring(name, all[3]) {
                assert(holds_one(name, all));
            }
        }
    }
    patterns
}

/// Keeps the devices whose name holds one of `patterns`.
pub fn keep_holding(devices: Vec<AudioDeviceInfo>, patterns: &Vec<Vec<char>>) -> (kept: Vec<
    AudioDeviceInfo,
>)
    ensures
        models(kept@) == models(devices@).filter(pattern_test(texts(patterns@))),
{
    let mut kept: Vec<AudioDeviceInfo> = Vec::new();
    let ghost all = models(devices@);
    let ghost test = pattern_test(texts(patterns@));
    proof {
        reveal(Seq::filter);
    }
    for device in it: devices
        invariant
            it.seq() == devices@,
            all == models(devices@),
            test == pattern_test(texts(patterns@)),
            models(kept@) == all.take(it.index() as int).filter(test),
    {
        proof {
            assert(all.take(it.index() + 1) == all.take(it.index() as int).push(device@));
            all.take(it.index() as int).lemma_filter_push(device@, test);
        }
        if holds_any(&chars_of(device.name.as_str()), patterns) {
            kept.push(device);
        }
    }
    assert(all.take(devices@.len() as int) == all);
    kept
}

/// Keeps the devices that pass the card filter `card_id`.
pub fn filter_by_card(devices: Vec<AudioDeviceInfo>, card_id: &str, cards: &CardMapping) -> (kept:
    Vec<AudioDeviceInfo>)
    ensures
        models(kept@) == models(devices@).filter(card_test(card_id@, cards@)),
{
    let patterns = card_patterns(card_id, cards);
    assert(pattern_test(texts(patterns@)) =~= card_test(card_id@, cards@));
    keep_holding(devices, &patterns)
}

/// `name` holds `CARD=<card>` for some pair of a card and a description in
/// which the description holds `wanted`.
pub open spec fn names_described_card(
    name: Seq<char>,
    described: Seq<(Seq<char>, Seq<char>)>,
    wanted: Seq<char>,
) -> bool {
    exists|i: int|
        0 <= i < described.len() && has_substring((#[trigger] described[i]).1, wanted)
            && has_substring(name, "CARD="@ + described[i].0)
}

/// The texts of a list of pairs of character vectors.
pub open spec fn pair_texts(pairs: Seq<(Vec<char>, Vec<char>)>) -> Seq<(Seq<char>, Seq<char>)> {
    Seq::new(pairs.len(), |i: int| (pairs[i].0@, pairs[i].1@))
}

/// The patterns `CARD=<card>` of the pairs whose description holds
/// `wanted`, in the order of the pairs.
pub open spec fn description_pattern_texts(
    described: Seq<(Seq<char>, Seq<char>)>,
    wanted: Seq<char>,
) -> Seq<Seq<char>>
    decreases described.len(),
{
    if described.len() == 0 {
        Seq::empty()
    } else {
        let earlier = description_pattern_texts(described.drop_last(), wanted);
        if has_substring(described.last().1, wanted) {
            earlier.push("CARD="@ + described.last().0)
        } else {
            earlier
        }
    }
}

/// The patterns `CARD=<card>` of the cards whose description holds
/// `wanted`. Each pair of `described` holds a card's short name and its
/// description.
pub fn description_patterns(
    described: &Vec<(Vec<char>, Vec<char>)>,
    wanted: &Vec<char>,
) -> (patterns: Vec<Vec<char>>)
    ensures
        texts(patterns@) == description_pattern_texts(pair_texts(described@), wanted@),
        forall|name: Seq<char>| #[trigger]
            holds_one(name, texts(patterns@)) <==> names_described_card(
                name,
                pair_texts(described@),
                wanted@,
            ),
{
    let mut patterns: Vec<Vec<char>> = Vec::new();
    let ghost all = pair_texts(described@);
    let mut i: usize = 0;
    while i < described.len()
        invariant
            i <= described.len(),
            all == pair_texts(described@),
            texts(patterns@) == description_pattern_texts(all.take(i as int), wanted@),
            forall|name: Seq<char>| #[trigger]
                holds_one(name, texts(patterns@)) <==> names_described_card(
                    name,
                    all.take(i as int),
                    wanted@,
                ),
        decreases described.len() - i,
    {
        let ghost before = texts(patterns@);
        let holds = contains(&described[i].1, wanted);
        if holds {
            patterns.push(join(&chars_of("CARD="), &described[i].0));
        }
        proof {
            let after = texts(patterns@);
            let pattern = "CARD="@ + all[i as int].0;
            assert(all.take(i + 1).drop_last() == all.take(i as int));
            if holds {
                assert(after == before.push(pattern));
            }
            assert forall|name: Seq<char>| #[trigger]
                holds_one(name, after) <==> names_described_card(
                    name,
                    all.take(i + 1),
                    wanted@,
                ) by {
                if holds_one(name, after) {
                    let k = choose|k: int|
                        0 <= k < after.len() && has_substring(name, #[trigger] after[k]);
                    if k < before.len() {
                        assert(holds_one(name, before));
                    } else {
                        assert(all.take(i + 1)[i as int] == all[i as int]);
                    }
                }
                if names_described_card(name, all.take(i + 1), wanted@) {
                    let j = choose|j: int|
                        0 <= j < all.take(i + 1).len() && has_substring(
                            (#[trigger] all.take(i + 1)[j]).1,
                            wanted@,
                        ) && has_substring(name, "CARD="@ + all.take(i + 1)[j].0);
                    if j < i {
                        assert(holds_one(name, before));
                        let k = choose|k: int|
                            0 <= k < before.len() && has_substring(name, #[trigger] before[k]);
                        assert(after[k] == before[k]);
                    } else {
                        assert(after[after.len() - 1] == pattern);
                    }
                }
            }
        }
        i += 1;
    }
    assert(all.take(i as int) == all);
    patterns
}

/// Whether a device passes the name filter. `lowered_name` is the device's
/// name in lower case, `wanted` the filter in lower case, and `patterns`
/// what `description_patterns` gave for the filter.
pub fn passes_name_filter(
    name: &Vec<char>,
    lowered_name: &Vec<char>,
    wanted: &Vec<char>,
    patterns: &Vec<Vec<char>>,
) -> (passes: bool)
    ensures
        passes == (has_substring(lowered_name@, wanted@) || holds_one(name@, texts(patterns@))),
{
    contains(lowered_name, wanted) || holds_any(name, patterns)
}

/// Keeps the devices that pass the name filter `filter`.
pub fn filter_by_name(
    devices: Vec<AudioDeviceInfo>,
    filter: &str,
    descriptions: &CardDescriptions,
) -> (kept: Vec<AudioDeviceInfo>)
    ensures
        models(kept@) == models(devices@).filter(name_test(filter@, descriptions@)),
{
    let wanted = chars_of(to_lowercase(filter).as_str());
    let count = descriptions.len();
    let ghost pairs = descriptions.pairs();
    let mut described: Vec<(Vec<char>, Vec<char>)> = Vec::new();
    let mut i: usize = 0;
    while i < count
        invariant
            i <= count,
            count == pairs.len(),
            pairs == descriptions.pairs(),
            described@.len() == i,
            forall|j: int|
                0 <= j < i ==> (#[trigger] described@[j]).0@ == pairs[j].0 && described@[j].1@
                    == lowercase_of(pairs[j].1),
        decreases count - i,
    {
        let card = chars_of(descriptions.key_at(i).as_str());
        let lowered = chars_of(to_lowercase(descriptions.value_at(i).as_str()).as_str());
        described.push((card, lowered));
        i += 1;
    }
    let patterns = description_patterns(&described, &wanted);
    let ghost all = models(devices@);
    let ghost test = name_test(filter@, descriptions@);
    proof {
        lemma_map_of_pairs(pairs);
        let lowered_pairs = pair_texts(described@);
        assert forall|name: Seq<char>| #[trigger]
            matches_name(name, filter@, descriptions@) <==> (has_substring(
                lowercase_of(name),
                wanted@,
            ) || holds_one(name, texts(patterns@))) by {
            let by_card = exists|card: Seq<char>|
                descriptions@.contains_key(card) && has_substring(
                    lowercase_of(#[trigger] descriptions@[card]),
                    lowercase_of(filter@),
                ) && has_substring(name, "CARD="@ + card);
            if by_card {
                let card = choose|card: Seq<char>|
                    descriptions@.contains_key(card) && has_substring(
                        lowercase_of(#[trigger] descriptions@[card]),
                        lowercase_of(filter@),
                    ) && has_substring(name, "CARD="@ + card);
                let j = choose|j: int| 0 <= j < pairs.len() && pairs[j].0 == card;
                assert(lowered_pairs[j] == (card, lowercase_of(pairs[j].1)));
            }
        }
    }
    let mut kept: Vec<AudioDeviceInfo> = Vec::new();
    for device in it: devices
        invariant
            it.seq() == devices@,
            all == models(devices@),
            test == name_test(filter@, descriptions@),
            models(kept@) == all.take(it.index() as int).filter(test),
            forall|name: Seq<char>| #[trigger]
                matches_name(name, filter@, descriptions@) <==> (has_substring(
                    lowercase_of(name),
                    wanted@,
                ) || holds_one(name, texts(patterns@))),
    {
        proof {
            assert(all.take(it.index() + 1) == all.take(it.index() as int).push(device@));
            all.take(it.index() as int).lemma_filter_push(device@, test);
        }
        let name = chars_of(device.name.as_str());
        let lowered = chars_of(to_lowercase(device.name.as_str()).as_str());
        if passes_name_filter(&name, &lowered, &wanted, &patterns) {
            kept.push(device);
        }
    }
    assert(all.take(devices@.len() as int) == all);
    kept
}

/// The alias key of a device name.
pub fn alias_key_of(name: &Vec<char>) -> (key: Vec<char>)
    ensures
        key@ == alias_key(name@),
{
    if starts_with(name, &chars_of("plughw:")) {
        proof {
            reveal_strlit("plughw:");
        }
        join(&chars_of("hw:"), &slice(name, 7, name.len()))
    } else {
        slice(name, 0, name.len())
    }
}

/// Whether the name is that of a virtual device.
pub fn is_virtual_name(name: &Vec<char>) -> (b: bool)
    ensures
        b == is_virtual(name@),
{
    starts_with(name, &chars_of("dmix:")) || starts_with(name, &chars_of("dsnoop:"))
        || starts_with(name, &chars_of("surround")) || starts_with(name, &chars_of("iec958:"))
}

/// Whether `keys` holds `key`.
fn has_text(keys: &Vec<Vec<char>>, key: &Vec<char>) -> (found: bool)
    ensures
        found == exists|k: int| 0 <= k < keys@.len() && (#[trigger] keys@[k])@ == key@,
{
    let mut k: usize = 0;
    while k < keys.len()
        invariant
            k <= keys.len(),
            forall|j: int| 0 <= j < k ==> (#[trigger] keys@[j])@ != key@,
        decreases keys.len() - k,
    {
        if same_text(&keys[k], key) {
            return true;
        }
        k += 1;
    }
    false
}

/// Removes the virtual devices and, of each group of aliases, all but the
/// first.
pub fn remove_aliases(devices: Vec<AudioDeviceInfo>) -> (kept: Vec<AudioDeviceInfo>)
    ensures
        models(kept@) == without_aliases(models(devices@)),
{
    let mut kept: Vec<AudioDeviceInfo> = Vec::new();
    let mut seen: Vec<Vec<char>> = Vec::new();
    let ghost all = models(devices@);
    for device in it: devices
        invariant
            it.seq() == devices@,
            all == models(devices@),
            models(kept@) == without_aliases(all.take(it.index() as int)),
            seen@.len() == kept@.len(),
            forall|k: int|
                0 <= k < seen@.len() ==> (#[trigger] seen@[k])@ == alias_key(kept@[k]@.name),
    {
        let ghost before = models(kept@);
        proof {
            assert(all.take(it.index() + 1).drop_last() == all.take(it.index() as int));
        }
        let name = chars_of(device.name.as_str());
        if !is_virtual_name(&name) {
            let key = alias_key_of(&name);
            let known = has_text(&seen, &key);
            proof {
                if known {
                    let k = choose|k: int| 0 <= k < seen@.len() && (#[trigger] seen@[k])@ == key@;
                    assert(alias_key(before[k].name) == key@);
                }
                if has_alias(before, key@) {
                    let k = choose|k: int|
                        0 <= k < before.len() && alias_key(#[trigger] before[k].name) == key@;
                    assert(seen@[k]@ == key@);
                }
            }
            if !known {
                seen.push(key);
                kept.push(device);
            }
        }
    }
    assert(all.take(devices@.len() as int) == all);
    kept
}

/// Applies the card filter, the name filter and the removal of aliases, in
/// this order. A filter that is `None` keeps every device; with `show_all`
/// no alias is removed.
pub fn filter_devices(
    devices: Vec<AudioDeviceInfo>,
    card_filter: Option<&String>,
    device_filter: Option<&String>,
    show_all: bool,
    cards: &CardMapping,
    descriptions: &CardDescriptions,
) -> (kept: Vec<AudioDeviceInfo>)
    ensures
        models(kept@) == filtered(
            models(devices@),
            optional_filter(card_filter),
            optional_filter(device_filter),
            show_all,
            cards@,
            descriptions@,
        ),
{
    let mut kept = devices;
    match card_filter {
        Some(card_id) => {
            kept = filter_by_card(kept, card_id.as_str(), cards);
        },
        None => {},
    }
    match device_filter {
        Some(filter) => {
            kept = filter_by_name(kept, filter.as_str(), descriptions);
        },
        None => {},
    }
    if !show_all {
        kept = remove_aliases(kept);
    }
    kept
}

/// No device of the list is virtual, and no two devices share an alias key.
pub open spec fn is_alias_free(devices: Seq<DeviceModel>) -> bool {
    &&& forall|i: int| 0 <= i < devices.len() ==> !is_virtual(#[trigger] devices[i].name)
    &&& forall|i: int, j: int|
        0 <= i < j < devices.len() ==> alias_key(#[trigger] devices[i].name) != alias_key(
            #[trigger] devices[j].name,
        )
}

/// What the removal of aliases leaves is free of aliases, and each device
/// of it is a device of the list it came from.
pub proof fn lemma_without_aliases(devices: Seq<DeviceModel>)
    ensures
        is_alias_free(without_aliases(devices)),
        forall|i: int|
            0 <= i < without_aliases(devices).len() ==> devices.contains(
                #[trigger] without_aliases(devices)[i],
            ),
    decreases devices.len(),
{
    if devices.len() > 0 {
        lemma_without_aliases(devices.drop_last());
    }
}

/// The removal of aliases leaves a list that is free of aliases as it is.
pub proof fn lemma_alias_free_stays(devices: Seq<DeviceModel>)
    requires
        is_alias_free(devices),
    ensures
        without_aliases(devices) == devices,
    decreases devices.len(),
{
    if devices.len() > 0 {
        let front = devices.drop_last();
        lemma_alias_free_stays(front);
    }
}

/// A filter keeps a list as it is where every device of it passes.
pub proof fn lemma_filter_keeps_passing(
    devices: Seq<DeviceModel>,
    test: spec_fn(DeviceModel) -> bool,
)
    requires
        forall|i: int| 0 <= i < devices.len() ==> test(#[trigger] devices[i]),
    ensures
        devices.filter(test) == devices,
    decreases devices.len(),
{
    reveal(Seq::filter);
    if devices.len() > 0 {
        let front = devices.drop_last();
        lemma_filter_keeps_passing(front, test);
    }
}

/// What a filter keeps passes the filter and is a device of the list it
/// came from.
pub proof fn lemma_filter_result(devices: Seq<DeviceModel>, test: spec_fn(DeviceModel) -> bool)
    ensures
        forall|i: int|
            0 <= i < devices.filter(test).len() ==> test(#[trigger] devices.filter(test)[i])
                && devices.contains(devices.filter(test)[i]),
    decreases devices.len(),
{
    reveal(Seq::filter);
    if devices.len() > 0 {
        let front = devices.drop_last();
        let kept = devices.filter(test);
        lemma_filter_result(front, test);
        assert forall|i: int| 0 <= i < kept.len() implies test(#[trigger] kept[i])
            && devices.contains(kept[i]) by {
            if i < front.filter(test).len() {
                assert(kept[i] == front.filter(test)[i]);
                let k = choose|k: int| 0 <= k < front.len() && front[k] == kept[i];
                assert(devices[k] == kept[i]);
            } else {
                assert(kept[i] == devices[devices.len() - 1]);
            }
        }
    }
}

/// The device passes the card filter and the name filter, each where it is
/// given.
pub open spec fn passes_filters(
    device: DeviceModel,
    card_filter: Option<Seq<char>>,
    device_filter: Option<Seq<char>>,
    cards: Map<Seq<char>, Seq<char>>,
    descriptions: Map<Seq<char>, Seq<char>>,
) -> bool {
    &&& match card_filter {
        Some(card_id) => matches_card(device.name, card_id, cards),
        None => true,
    }
    &&& match device_filter {
        Some(filter) => matches_name(device.name, filter, descriptions),
        None => true,
    }
}

/// Each device that the three steps keep is a device of the list that went
/// in and passes the card filter and the name filter; unless all devices
/// are shown, what is kept is free of aliases.
pub proof fn lemma_filtered_result(
    devices: Seq<DeviceModel>,
    card_filter: Option<Seq<char>>,
    device_filter: Option<Seq<char>>,
    show_all: bool,
    cards: Map<Seq<char>, Seq<char>>,
    descriptions: Map<Seq<char>, Seq<char>>,
)
    ensures
        ({
            let kept = filtered(devices, card_filter, device_filter, show_all, cards, descriptions);
            &&& forall|i: int|
                0 <= i < kept.len() ==> devices.contains(#[trigger] kept[i]) && passes_filters(
                    kept[i],
                    card_filter,
                    device_filter,
                    cards,
                    descriptions,
                )
            &&& !show_all ==> is_alias_free(kept)
        }),
{
    let by_card = card_step(devices, card_filter, cards);
    let by_name = name_step(by_card, device_filter, descriptions);
    if let Some(card_id) = card_filter {
        lemma_filter_result(devices, card_test(card_id, cards));
    }
    if let Some(filter) = device_filter {
        lemma_filter_result(by_card, name_test(filter, descriptions));
    }
    lemma_without_aliases(by_name);
}

/// Filtering what the filters let pass changes nothing: the three steps,
/// run again with the same filters on their own result, return it as it is.
pub proof fn lemma_filtered_idempotent(
    devices: Seq<DeviceModel>,
    card_filter: Option<Seq<char>>,
    device_filter: Option<Seq<char>>,
    show_all: bool,
    cards: Map<Seq<char>, Seq<char>>,
    descriptions: Map<Seq<char>, Seq<char>>,
)
    ensures
        filtered(
            filtered(devices, card_filter, device_filter, show_all, cards, descriptions),
            card_filter,
            device_filter,
            show_all,
            cards,
            descriptions,
        ) == filtered(devices, card_filter, device_filter, show_all, cards, descriptions),
{
    let kept = filtered(devices, card_filter, device_filter, show_all, cards, descriptions);
    lemma_filtered_result(devices, card_filter, device_filter, show_all, cards, descriptions);
    if let Some(card_id) = card_filter {
        lemma_filter_keeps_passing(kept, card_test(card_id, cards));
    }
    if let Some(filter) = device_filter {
        lemma_filter_keeps_passing(kept, name_test(filter, descriptions));
    }
    if !show_all {
        lemma_alias_free_stays(kept);
    }
}

/// Filtering leaves the device types as they are: where every device that
/// goes in has a type that agrees with its channel counts, so has every
/// device that comes out.
pub proof fn lemma_filtered_keeps_types(
    devices: Seq<DeviceModel>,
    card_filter: Option<Seq<char>>,
    device_filter: Option<Seq<char>>,
    show_all: bool,
    cards: Map<Seq<char>, Seq<char>>,
    descriptions: Map<Seq<char>, Seq<char>>,
)
    requires
        all_types_current(devices),
    ensures
        all_types_current(
            filtered(devices, card_filter, device_filter, show_all, cards, descriptions),
        ),
{
    lemma_filtered_result(devices, card_filter, device_filter, show_all, cards, descriptions);
}

} // verus!
