use audio_interrogator::cards::{
    card_summary_lines, get_card_descriptions, get_card_mapping, StringMap,
};

const LISTING: &str = " 0 [HDMI           ]: HDA-Intel - HDA ATI HDMI
                      HDA ATI HDMI at 0xf7e60000 irq 30
 1 [PCH            ]: HDA-Intel - HDA Intel PCH
                      HDA Intel PCH at 0xf7f10000 irq 29
 2 [Device         ]: USB-Audio - USB Audio Device
                      C-Media Electronics Inc. USB Audio Device at usb-0000:00:14.0-2, full speed
";

fn pairs(map: &StringMap) -> Vec<(String, String)> {
    let mut out = Vec::new();
    for i in 0..map.len() {
        out.push((map.key_at(i).clone(), map.value_at(i).clone()));
    }
    out.sort();
    out
}

fn owned(items: &[(&str, &str)]) -> Vec<(String, String)> {
    items.iter().map(|(k, v)| (k.to_string(), v.to_string())).collect()
}

#[test]
fn single_card_line_gives_mapping_and_description() {
    let line = " 1 [PCH            ]: HDA-Intel - HDA Intel PCH";
    let mapping = get_card_mapping(line);
    assert_eq!(pairs(&mapping), owned(&[("1", "PCH")]));
    assert_eq!(mapping.get("1").map(|s| s.as_str()), Some("PCH"));
    let descriptions = get_card_descriptions(line);
    assert_eq!(pairs(&descriptions), owned(&[("PCH", "HDA Intel PCH")]));
    assert_eq!(descriptions.get("PCH").map(|s| s.as_str()), Some("HDA Intel PCH"));
}

#[test]
fn listing_gives_one_entry_per_card() {
    let mapping = get_card_mapping(LISTING);
    assert_eq!(pairs(&mapping), owned(&[("0", "HDMI"), ("1", "PCH"), ("2", "Device")]));
    let descriptions = get_card_descriptions(LISTING);
    assert_eq!(
        pairs(&descriptions),
        owned(&[
            ("Device", "USB Audio Device"),
            ("HDMI", "HDA ATI HDMI"),
            ("PCH", "HDA Intel PCH"),
        ])
    );
}

#[test]
fn missing_listing_gives_empty_mappings() {
    assert_eq!(get_card_mapping("").len(), 0);
    assert_eq!(get_card_descriptions("").len(), 0);
    assert!(card_summary_lines("").is_empty());
}

#[test]
fn lines_of_other_shapes_are_skipped() {
    let text = "--- no cards ---\n\n0 [NoLeadingSpace]: x - y\n 3 NoBrackets: x - y\n 4 [Open: x - y\n 5 Close]: x - y\n 6 ]Swapped[: x - y\n 7 [Good]: drv - fine\n";
    assert_eq!(pairs(&get_card_mapping(text)), owned(&[("7", "Good")]));
    assert_eq!(pairs(&get_card_descriptions(text)), owned(&[("Good", "fine")]));
}

#[test]
fn mapping_does_not_need_the_separator() {
    let text = " 0 [Solo]: driver only\n";
    assert_eq!(pairs(&get_card_mapping(text)), owned(&[("0", "Solo")]));
    assert_eq!(get_card_descriptions(text).len(), 0);
}

#[test]
fn later_lines_replace_earlier_ones() {
    let text = " 0 [A]: d - first\n 0 [B]: d - second\n 1 [B]: d - third\n";
    assert_eq!(pairs(&get_card_mapping(text)), owned(&[("0", "B"), ("1", "B")]));
    assert_eq!(pairs(&get_card_descriptions(text)), owned(&[("A", "first"), ("B", "third")]));
}

#[test]
fn empty_brackets_give_an_empty_name() {
    let text = " 9 []: d - e\n";
    assert_eq!(pairs(&get_card_mapping(text)), owned(&[("9", "")]));
    assert_eq!(pairs(&get_card_descriptions(text)), owned(&[("", "e")]));
}

#[test]
fn carriage_returns_do_not_reach_the_values() {
    let text = " 1 [PCH   ]: HDA-Intel - HDA Intel PCH\r\n 2 [USB]: USB-Audio - Webcam  \r\n";
    assert_eq!(pairs(&get_card_mapping(text)), owned(&[("1", "PCH"), ("2", "USB")]));
    assert_eq!(
        pairs(&get_card_descriptions(text)),
        owned(&[("PCH", "HDA Intel PCH"), ("USB", "Webcam")])
    );
}

#[test]
fn description_starts_behind_the_first_separator() {
    let text = " 1 [X]: a - b - c\n";
    assert_eq!(pairs(&get_card_descriptions(text)), owned(&[("X", "b - c")]));
}

#[test]
fn string_map_insert_and_get() {
    let mut map = StringMap::new();
    assert_eq!(map.len(), 0);
    assert!(map.get("a").is_none());
    map.insert("a".to_string(), "1".to_string());
    map.insert("b".to_string(), "2".to_string());
    map.insert("a".to_string(), "3".to_string());
    assert_eq!(map.len(), 2);
    assert_eq!(map.get("a").map(|s| s.as_str()), Some("3"));
    assert_eq!(map.get("b").map(|s| s.as_str()), Some("2"));
    assert!(map.get("c").is_none());
    assert!(map.get("").is_none());
    assert_eq!(map.key_at(0), "a");
    assert_eq!(map.value_at(0), "3");
    assert_eq!(map.key_at(1), "b");
    assert_eq!(map.value_at(1), "2");
}

#[test]
fn summary_lists_the_card_lines_trimmed() {
    let got = card_summary_lines(LISTING);
    assert_eq!(
        got,
        [
            "0 [HDMI           ]: HDA-Intel - HDA ATI HDMI",
            "HDA ATI HDMI at 0xf7e60000 irq 30",
            "1 [PCH            ]: HDA-Intel - HDA Intel PCH",
            "HDA Intel PCH at 0xf7f10000 irq 29",
            "2 [Device         ]: USB-Audio - USB Audio Device",
            "C-Media Electronics Inc. USB Audio Device at usb-0000:00:14.0-2, full speed",
        ]
    );
}

#[test]
fn summary_skips_rules_blank_and_unindented_lines() {
    let text = "--- no soundcards ---\n \n    \n -----\n  - kept, the dash is not first\n x\n";
    assert_eq!(card_summary_lines(text), ["- kept, the dash is not first", "x"]);
}
