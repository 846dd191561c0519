//! Devices found in a snapshot of the sound subsystem's directory tree.
//!
//! The tree holds one directory per card, named `card<N>`. A card directory
//! holds one directory per stream, named `pcm<M>p` for playback and `pcm<M>c`
//! for capture, each with an `info` file, and a `stream0` file that describes
//! the card's streams. Reading the tree is the caller's part; this module
//! works on what was read.

use crate::devices::types::{all_types_current, models, AudioDeviceInfo, DeviceModel};
use crate::text::{
    as_optional_str, chars_of, contains, decimal_u32, ends_with, find, first_match, has_prefix,
    has_substring, has_suffix, join, lines, lines_of, optional_str, optional_text, parse_u32,
    position, position_from, run_before, same_text, slice, starts_with, string_of, texts, trim,
    trimmed,
};
use vstd::prelude::*;

verus! {

/// The heading that opens the section of a stream type: `Playback:` for the
/// type `PLAYBACK`, `Capture:` for every other.
pub open spec fn section_heading(stream_type: Seq<char>) -> Seq<char> {
    if stream_type == "PLAYBACK"@ {
        "Playback:"@
    } else {
        "Capture:"@
    }
}

/// How many characters of `body` stand before the next section heading; all
/// of them where no heading follows.
pub open spec fn next_heading(body: Seq<char>) -> int {
    match (first_match(body, "Playback:"@), first_match(body, "Capture:"@)) {
        (Some(a), Some(b)) => if a <= b {
            a
        } else {
            b
        },
        (Some(a), None) => a,
        (None, Some(b)) => b,
        (None, None) => body.len() as int,
    }
}

/// The section of a stream type: the text from the first occurrence of its
/// heading up to the next heading, or to the end.
pub open spec fn section_of(content: Seq<char>, stream_type: Seq<char>) -> Option<Seq<char>> {
    let heading = section_heading(stream_type);
    match first_match(content, heading) {
        Some(start) => {
            let body = content.skip(start + heading.len());
            Some(content.subrange(start, start + heading.len() + next_heading(body)))
        },
        None => None,
    }
}

/// The line, once trimmed, begins with `Channels:`.
pub open spec fn is_channels_line(line: Seq<char>) -> bool {
    has_prefix(trimmed(line), "Channels:"@)
}

/// The text between the first colon of `line` and the next one, or the end of
/// the line.
pub open spec fn field_after_colon(line: Seq<char>) -> Option<Seq<char>> {
    let colon = run_before(line, ':');
    if colon < line.len() {
        let rest = line.skip(colon as int + 1);
        Some(rest.take(run_before(rest, ':') as int))
    } else {
        None
    }
}

/// The channel count that a `Channels:` line gives.
pub open spec fn line_channels(line: Seq<char>) -> Option<u32> {
    match field_after_colon(line) {
        Some(field) => decimal_u32(trimmed(field)),
        None => None,
    }
}

/// The channel count of the first `Channels:` line among `lines`.
pub open spec fn first_channels(lines: Seq<Seq<char>>) -> Option<u32>
    decreases lines.len(),
{
    if lines.len() == 0 {
        None
    } else if is_channels_line(lines[0]) {
        line_channels(lines[0])
    } else {
        first_channels(lines.skip(1))
    }
}

/// The channel count that a stream description gives for a stream type: that
/// of the first `Channels:` line of the type's section. There is none where
/// the section is missing, has no such line, or the line holds no number.
pub open spec fn stream_channels(content: Seq<char>, stream_type: Seq<char>) -> Option<u32> {
    match section_of(content, stream_type) {
        Some(section) => first_channels(lines_of(section)),
        None => None,
    }
}

/// The number of characters of `body` before the next section heading.
fn next_heading_offset(body: &Vec<char>) -> (end: usize)
    ensures
        end == next_heading(body@),
        end <= body.len(),
{
    let playback = find(body, &chars_of("Playback:"));
    let capture = find(body, &chars_of("Capture:"));
    match (playback, capture) {
        (Some(a), Some(b)) => if a <= b {
            a
        } else {
            b
        },
        (Some(a), None) => a,
        (None, Some(b)) => b,
        (None, None) => body.len(),
    }
}

/// The channel count that a `Channels:` line gives.
fn read_line_channels(line: &Vec<char>) -> (channels: Option<u32>)
    ensures
        channels == line_channels(line@),
{
    let colon = position(line, ':');
    if colon < line.len() {
        let end = position_from(line, colon + 1, ':');
        let field = slice(line, colon + 1, end);
        proof {
            let rest = line@.skip(colon as int + 1);
            assert(rest.take(run_before(rest, ':') as int) == line@.subrange(
                colon as int + 1,
                end as int,
            ));
        }
        parse_u32(&trim(&field))
    } else {
        None
    }
}

/// Reads the channel count of a stream type from a card's stream description.
pub fn parse_stream_channels(stream_content: &str, stream_type: &str) -> (channels: Option<u32>)
    ensures
        channels == stream_channels(stream_content@, stream_type@),
{
    let content = chars_of(stream_content);
    let heading = if same_text(&chars_of(stream_type), &chars_of("PLAYBACK")) {
        chars_of("Playback:")
    } else {
        chars_of("Capture:")
    };
    let start = match find(&content, &heading) {
        Some(start) => start,
        None => {
            return None;
        },
    };
    let total = content.len();
    let body = slice(&content, start + heading.len(), total);
    let end = start + heading.len() + next_heading_offset(&body);
    let section = slice(&content, start, end);
    let all = lines(&section);
    let key = chars_of("Channels:");
    let mut i: usize = 0;
    assert(lines_of(section@).skip(0) == lines_of(section@));
    while i < all.len()
        invariant
            i <= all.len(),
            texts(all@) == lines_of(section@),
            key@ == "Channels:"@,
            section_of(stream_content@, stream_type@) == Some(section@),
            first_channels(lines_of(section@)) == first_channels(lines_of(section@).skip(i as int)),
        decreases all.len() - i,
    {
        let ghost rest = lines_of(section@).skip(i as int);
        if starts_with(&trim(&all[i]), &key) {
            return read_line_channels(&all[i]);
        }
        assert(rest.skip(1) == lines_of(section@).skip(i + 1));
        i += 1;
    }
    None
}

/// One entry of a card directory: its name and, where the entry holds a
/// readable `info` file, the text of that file.
#[derive(Debug, Clone)]
pub struct PcmEntry {
    pub name: String,
    pub info: Option<String>,
}

/// What a [`PcmEntry`] holds, as mathematical values.
pub struct PcmEntryModel {
    pub name: Seq<char>,
    pub info: Option<Seq<char>>,
}

impl View for PcmEntry {
    type V = PcmEntryModel;

    open spec fn view(&self) -> PcmEntryModel {
        PcmEntryModel { name: self.name@, info: optional_text(self.info) }
    }
}

/// One entry of the sound subsystem's root directory: its name, the text of
/// its `stream0` file where it has a readable one, and its own entries in
/// directory order.
#[derive(Debug, Clone)]
pub struct CardDirectory {
    pub name: String,
    pub stream0: Option<String>,
    pub entries: Vec<PcmEntry>,
}

/// What a [`CardDirectory`] holds, as mathematical values.
pub struct CardDirectoryModel {
    pub name: Seq<char>,
    pub stream0: Option<Seq<char>>,
    pub entries: Seq<PcmEntryModel>,
}

impl View for CardDirectory {
    type V = CardDirectoryModel;

    open spec fn view(&self) -> CardDirectoryModel {
        CardDirectoryModel {
            name: self.name@,
            stream0: optional_text(self.stream0),
            entries: Seq::new(self.entries@.len(), |i: int| self.entries@[i]@),
        }
    }
}

/// The models of a list of root directory entries, in order.
pub open spec fn directory_models(root: Seq<CardDirectory>) -> Seq<CardDirectoryModel> {
    Seq::new(root.len(), |i: int| root[i]@)
}

/// The device number in a stream directory's name: what stands between
/// `pcm` and the final letter, or `0` where the name is too short to hold
/// one.
pub open spec fn device_number(pcm_dir: Seq<char>) -> Seq<char> {
    if pcm_dir.len() > 4 {
        pcm_dir.subrange(3, pcm_dir.len() - 1)
    } else {
        "0"@
    }
}

/// The identifier `hw:<card>,<device>` of a stream directory.
pub open spec fn pcm_device_name(card_num: Seq<char>, pcm_dir: Seq<char>) -> Seq<char> {
    "hw:"@ + card_num + ","@ + device_number(pcm_dir)
}

/// The `info` text reports no free subdevice out of exactly one.
pub open spec fn is_in_use(info: Seq<char>) -> bool {
    has_substring(info, "subdevices_avail: 0"@) && has_substring(info, "subdevices_count: 1"@)
}

/// The channel count of a stream: what the card's stream description gives
/// for the stream type, and 2 where it gives nothing.
pub open spec fn pcm_channels(stream: Option<Seq<char>>, stream_type: Seq<char>) -> u32 {
    match stream {
        Some(content) => match stream_channels(content, stream_type) {
            Some(channels) => channels,
            None => 2,
        },
        None => 2,
    }
}

/// The record of one stream directory. The channel count goes to the output
/// side for the type `PLAYBACK` and to the input side for `CAPTURE`; the
/// name carries the suffix ` (IN USE)` where the stream is in use.
pub open spec fn pcm_device(
    info: Seq<char>,
    stream: Option<Seq<char>>,
    pcm_dir: Seq<char>,
    stream_type: Seq<char>,
    card_num: Seq<char>,
) -> DeviceModel {
    let fresh = DeviceModel::fresh(pcm_device_name(card_num, pcm_dir), "ALSA"@);
    let channels = pcm_channels(stream, stream_type);
    let counted = if stream_type == "PLAYBACK"@ {
        DeviceModel { output_channels: channels, ..fresh }
    } else if stream_type == "CAPTURE"@ {
        DeviceModel { input_channels: channels, ..fresh }
    } else {
        fresh
    };
    let typed = counted.with_current_type();
    if is_in_use(info) {
        DeviceModel { name: typed.name + " (IN USE)"@, ..typed }
    } else {
        typed
    }
}

/// Builds the record of one stream directory from the text of its `info`
/// file and of the card's stream description. Without an `info` text there
/// is no record.
pub fn read_pcm_info(
    info_content: Option<&str>,
    stream_content: Option<&str>,
    pcm_dir: &str,
    stream_type: &str,
    card_num: &str,
) -> (device: Option<AudioDeviceInfo>)
    ensures
        info_content is None ==> device is None,
        info_content matches Some(info) ==> device matches Some(d) && d@ == pcm_device(
            info@,
            optional_str(stream_content),
            pcm_dir@,
            stream_type@,
            card_num@,
        ) && d@.type_is_current(),
{
    let info = match info_content {
        Some(info) => chars_of(info),
        None => {
            return None;
        },
    };
    let dir = chars_of(pcm_dir);
    let device_num = if dir.len() > 4 {
        slice(&dir, 3, dir.len() - 1)
    } else {
        chars_of("0")
    };
    let name = join(
        &join(&join(&chars_of("hw:"), &chars_of(card_num)), &chars_of(",")),
        &device_num,
    );
    let mut device = AudioDeviceInfo::new(string_of(&name), "ALSA".to_owned());
    let channels = match stream_content {
        Some(content) => match parse_stream_channels(content, stream_type) {
            Some(channels) => channels,
            None => 2,
        },
        None => 2,
    };
    let kind = chars_of(stream_type);
    if same_text(&kind, &chars_of("PLAYBACK")) {
        device.output_channels = channels;
    } else if same_text(&kind, &chars_of("CAPTURE")) {
        device.input_channels = channels;
    }
    device.update_device_type();
    let in_use = contains(&info, &chars_of("subdevices_avail: 0")) && contains(
        &info,
        &chars_of("subdevices_count: 1"),
    );
    if in_use {
        device.name = string_of(&join(&name, &chars_of(" (IN USE)")));
    }
    Some(device)
}

/// The entry names a card directory.
pub open spec fn is_card_directory(name: Seq<char>) -> bool {
    has_prefix(name, "card"@)
}

/// The entry names a playback stream directory.
pub open spec fn is_playback_stream(name: Seq<char>) -> bool {
    has_prefix(name, "pcm"@) && has_suffix(name, "p"@)
}

/// The entry names a capture stream directory.
pub open spec fn is_capture_stream(name: Seq<char>) -> bool {
    has_prefix(name, "pcm"@) && has_suffix(name, "c"@)
}

/// Whether an entry of the root directory names a card directory.
pub fn names_card_directory(name: &str) -> (b: bool)
    ensures
        b == is_card_directory(name@),
{
    starts_with(&chars_of(name), &chars_of("card"))
}

/// Whether an entry of a card directory names a playback stream directory.
pub fn names_playback_stream(name: &str) -> (b: bool)
    ensures
        b == is_playback_stream(name@),
{
    let text = chars_of(name);
    starts_with(&text, &chars_of("pcm")) && ends_with(&text, &chars_of("p"))
}

/// Whether an entry of a card directory names a capture stream directory.
pub fn names_capture_stream(name: &str) -> (b: bool)
    ensures
        b == is_capture_stream(name@),
{
    let text = chars_of(name);
    starts_with(&text, &chars_of("pcm")) && ends_with(&text, &chars_of("c"))
}

/// The records that one entry of a card directory gives: none without an
/// `info` text, else one where it names a playback stream and one where it
/// names a capture stream.
pub open spec fn entry_devices(
    card_num: Seq<char>,
    stream: Option<Seq<char>>,
    entry: PcmEntryModel,
) -> Seq<DeviceModel> {
    match entry.info {
        Some(info) => {
            let playback = if is_playback_stream(entry.name) {
                seq![pcm_device(info, stream, entry.name, "PLAYBACK"@, card_num)]
            } else {
                Seq::empty()
            };
            let capture = if is_capture_stream(entry.name) {
                seq![pcm_device(info, stream, entry.name, "CAPTURE"@, card_num)]
            } else {
                Seq::empty()
            };
            playback + capture
        },
        None => Seq::empty(),
    }
}

/// The records of the given entries of one card directory, in order.
pub open spec fn entries_devices(
    card_num: Seq<char>,
    stream: Option<Seq<char>>,
    entries: Seq<PcmEntryModel>,
) -> Seq<DeviceModel>
    decreases entries.len(),
{
    if entries.len() == 0 {
        Seq::empty()
    } else {
        entries_devices(card_num, stream, entries.drop_last()) + entry_devices(
            card_num,
            stream,
            entries.last(),
        )
    }
}

/// The records of one entry of the root directory: those of its entries
/// where it names a card directory, with the card number taken from behind
/// `card`; none else.
pub open spec fn card_devices(card: CardDirectoryModel) -> Seq<DeviceModel> {
    if is_card_directory(card.name) {
        entries_devices(card.name.skip(4), card.stream0, card.entries)
    } else {
        Seq::empty()
    }
}

/// The records of a whole directory tree: those of its cards, in directory
/// order.
pub open spec fn proc_devices(root: Seq<CardDirectoryModel>) -> Seq<DeviceModel>
    decreases root.len(),
{
    if root.len() == 0 {
        Seq::empty()
    } else {
        proc_devices(root.drop_last()) + card_devices(root.last())
    }
}

/// Lists the devices of a snapshot of the sound subsystem's directory tree.
pub fn get_proc_alsa_devices(root: &Vec<CardDirectory>) -> (devices: Vec<AudioDeviceInfo>)
    ensures
        models(devices@) == proc_devices(directory_models(root@)),
        all_types_current(models(devices@)),
{
    let mut devices: Vec<AudioDeviceInfo> = Vec::new();
    let ghost tree = directory_models(root@);
    let mut c: usize = 0;
    while c < root.len()
        invariant
            c <= root.len(),
            tree == directory_models(root@),
            models(devices@) == proc_devices(tree.take(c as int)),
            all_types_current(models(devices@)),
        decreases root.len() - c,
    {
        let card = &root[c];
        let ghost before = models(devices@);
        let card_name = chars_of(card.name.as_str());
        proof {
            assert(tree.take(c + 1).drop_last() == tree.take(c as int));
        }
        if names_card_directory(card.name.as_str()) {
            proof {
                reveal_strlit("card");
            }
            let card_num = string_of(&slice(&card_name, 4, card_name.len()));
            let stream = as_optional_str(&card.stream0);
            let ghost entries = card@.entries;
            let mut e: usize = 0;
            while e < card.entries.len()
                invariant
                    e <= card.entries.len(),
                    entries == card@.entries,
                    card_num@ == card@.name.skip(4),
                    optional_str(stream) == card@.stream0,
                    models(devices@) == before + entries_devices(
                        card_num@,
                        card@.stream0,
                        entries.take(e as int),
                    ),
                    all_types_current(models(devices@)),
                decreases card.entries.len() - e,
            {
                let entry = &card.entries[e];
                let ghost so_far = models(devices@);
                let info = as_optional_str(&entry.info);
                proof {
                    assert(entries.take(e + 1).drop_last() == entries.take(e as int));
                }
                if names_playback_stream(entry.name.as_str()) {
                    match read_pcm_info(
                        info,
                        stream,
                        entry.name.as_str(),
                        "PLAYBACK",
                        card_num.as_str(),
                    ) {
                        Some(device) => {
                            devices.push(device);
                        },
                        None => {},
                    }
                }
                if names_capture_stream(entry.name.as_str()) {
                    match read_pcm_info(
                        info,
                        stream,
                        entry.name.as_str(),
                        "CAPTURE",
                        card_num.as_str(),
                    ) {
                        Some(device) => {
                            devices.push(device);
                        },
                        None => {},
                    }
                }
                assert(models(devices@) == so_far + entry_devices(
                    card_num@,
                    card@.stream0,
                    entry@,
                ));
                e += 1;
            }
            assert(entries.take(e as int) == entries);
        }
        c += 1;
    }
    assert(tree.take(c as int) == tree);
    devices
}

} // verus!
