//! Card metadata: the card listing and the two mappings read from it.
//!
//! A card line of the listing begins with a single space, followed by the
//! card's index, its short name in square brackets, the driver, the
//! separator ` - ` and a description:
//!
//! ```text
//!  0 [HDMI           ]: HDA-Intel - HDA ATI HDMI
//! ```
//!
//! Lines of any other shape are passed over.

use crate::text::{
    chars_of, find, first_match, first_word, first_word_of, lines, lines_of, position, run_before,
    same_text, slice, string_of, string_texts, texts, trim, trimmed,
};
use vstd::prelude::*;

verus! {

/// Some pair has the key `key`.
pub open spec fn has_key(pairs: Seq<(Seq<char>, Seq<char>)>, key: Seq<char>) -> bool {
    exists|i: int| 0 <= i < pairs.len() && pairs[i].0 == key
}

/// No two pairs have the same key.
pub open spec fn keys_distinct(pairs: Seq<(Seq<char>, Seq<char>)>) -> bool {
    forall|i: int, j: int| 0 <= i < j < pairs.len() ==> pairs[i].0 != pairs[j].0
}

/// The map that sends the key of each pair to its value.
pub open spec fn map_of(pairs: Seq<(Seq<char>, Seq<char>)>) -> Map<Seq<char>, Seq<char>> {
    Map::new(
        |key: Seq<char>| has_key(pairs, key),
        |key: Seq<char>| pairs[choose|i: int| 0 <= i < pairs.len() && pairs[i].0 == key].1,
    )
}

/// With distinct keys, the map holds each pair.
pub proof fn lemma_map_of_pairs(pairs: Seq<(Seq<char>, Seq<char>)>)
    requires
        keys_distinct(pairs),
    ensures
        forall|i: int|
            0 <= i < pairs.len() ==> map_of(pairs).contains_key(#[trigger] pairs[i].0) && map_of(
                pairs,
            )[pairs[i].0] == pairs[i].1,
{
}

/// The keys of the pairs, in order.
pub open spec fn keys_of(pairs: Seq<(Seq<char>, Seq<char>)>) -> Seq<Seq<char>> {
    Seq::new(pairs.len(), |i: int| pairs[i].0)
}

/// With distinct keys, the map has as many keys as there are pairs.
pub proof fn lemma_map_of_len(pairs: Seq<(Seq<char>, Seq<char>)>)
    requires
        keys_distinct(pairs),
    ensures
        map_of(pairs).dom().finite(),
        map_of(pairs).len() == pairs.len(),
{
    let keys = keys_of(pairs);
    assert(map_of(pairs).dom() =~= keys.to_set()) by {
        assert forall|key: Seq<char>| map_of(pairs).dom().contains(key) <==> keys.to_set().contains(
            key,
        ) by {
            if has_key(pairs, key) {
                let i = choose|i: int| 0 <= i < pairs.len() && pairs[i].0 == key;
                assert(keys[i] == key);
            }
        }
    }
    keys.unique_seq_to_set();
}

/// A map from text to text that holds each key once.
#[derive(Debug)]
pub struct StringMap {
    entries: Vec<(String, String)>,
}

/// Card number to card short name.
pub type CardMapping = StringMap;

/// Card short name to card description.
pub type CardDescriptions = StringMap;

impl View for StringMap {
    type V = Map<Seq<char>, Seq<char>>;

    open spec fn view(&self) -> Map<Seq<char>, Seq<char>> {
        map_of(self.pairs())
    }
}

impl StringMap {
    /// The keys with their values, in the order in which the keys came in.
    pub closed spec fn pairs(&self) -> Seq<(Seq<char>, Seq<char>)> {
        Seq::new(self.entries@.len(), |i: int| (self.entries@[i].0@, self.entries@[i].1@))
    }

    #[verifier::type_invariant]
    spec fn each_key_once(&self) -> bool {
        keys_distinct(self.pairs())
    }

    /// An empty map.
    pub fn new() -> (map: Self)
        ensures
            map@ == Map::<Seq<char>, Seq<char>>::empty(),
            map.pairs().len() == 0,
    {
        let map = StringMap { entries: Vec::new() };
        map
    }

    /// The number of keys. The keys stand at the positions below it, each
    /// at one position.
    pub fn len(&self) -> (n: usize)
        ensures
            n == self@.len(),
            n == self.pairs().len(),
            self@.dom().finite(),
            keys_distinct(self.pairs()),
    {
        proof {
            use_type_invariant(self);
            lemma_map_of_len(self.pairs());
        }
        self.entries.len()
    }

    /// The key at position `i`.
    pub fn key_at(&self, i: usize) -> (key: &String)
        requires
            i < self.pairs().len(),
        ensures
            key@ == self.pairs()[i as int].0,
            self@.contains_key(key@),
    {
        &self.entries[i].0
    }

    /// The value of the key at position `i`.
    pub fn value_at(&self, i: usize) -> (value: &String)
        requires
            i < self.pairs().len(),
        ensures
            value@ == self.pairs()[i as int].1,
            value@ == self@[self.pairs()[i as int].0],
    {
        proof {
            use_type_invariant(self);
        }
        &self.entries[i].1
    }

    /// The position of `key`, or the number of keys where the map does not
    /// hold it.
    fn index_of(&self, key: &Vec<char>) -> (at: usize)
        ensures
            at <= self.pairs().len(),
            at < self.pairs().len() ==> self.pairs()[at as int].0 == key@,
            at == self.pairs().len() ==> !has_key(self.pairs(), key@),
    {
        let mut i: usize = 0;
        while i < self.entries.len()
            invariant
                i <= self.entries.len(),
                forall|j: int| 0 <= j < i ==> self.pairs()[j].0 != key@,
            decreases self.entries.len() - i,
        {
            if same_text(&chars_of(self.entries[i].0.as_str()), key) {
                return i;
            }
            i += 1;
        }
        i
    }

    /// The value of `key`, where the map holds it.
    pub fn get(&self, key: &str) -> (value: Option<&String>)
        ensures
            match value {
                Some(v) => self@.contains_key(key@) && self@[key@] == v@,
                None => !self@.contains_key(key@),
            },
    {
        proof {
            use_type_invariant(self);
        }
        let at = self.index_of(&chars_of(key));
        if at < self.entries.len() {
            Some(&self.entries[at].1)
        } else {
            None
        }
    }

    /// Gives `key` the value `value`, in place of any value it had.
    pub fn insert(&mut self, key: String, value: String)
        ensures
            final(self)@ == old(self)@.insert(key@, value@),
    {
        proof {
            use_type_invariant(&*self);
        }
        let ghost before = self.pairs();
        let at = self.index_of(&chars_of(key.as_str()));
        let mut entries: Vec<(String, String)> = Vec::new();
        core::mem::swap(&mut self.entries, &mut entries);
        if at < entries.len() {
            entries.set(at, (key, value));
        } else {
            entries.push((key, value));
        }
        proof {
            let after = Seq::new(entries@.len(), |i: int| (entries@[i].0@, entries@[i].1@));
            if at < before.len() {
                assert(after == before.update(at as int, (key@, value@)));
            } else {
                assert(after == before.push((key@, value@)));
            }
        }
        core::mem::swap(&mut self.entries, &mut entries);
        proof {
            let after = self.pairs();
            assert forall|k: Seq<char>| has_key(after, k) <==> (k == key@ || has_key(
                before,
                k,
            )) by {
                if has_key(before, k) {
                    let i = choose|i: int| 0 <= i < before.len() && before[i].0 == k;
                    assert(after[i].0 == k);
                }
                if k == key@ {
                    assert(after[at as int].0 == k);
                }
            }
        }
    }
}

/// The short name of a card line: what stands between the first `[` and
/// the first `]` of `rest`, trimmed. There is none where a bracket is
/// missing or the closing one comes first.
pub open spec fn bracketed_name(rest: Seq<char>) -> Option<Seq<char>> {
    let open = run_before(rest, '[');
    let close = run_before(rest, ']');
    if open < close < rest.len() {
        Some(trimmed(rest.subrange(open as int + 1, close as int)))
    } else {
        None
    }
}

/// What a line of the listing adds to the card mapping: the card's index,
/// which is the first word behind the leading space, and its short name.
pub open spec fn line_mapping(line: Seq<char>) -> Option<(Seq<char>, Seq<char>)> {
    if line.len() > 0 && line[0] == ' ' {
        let rest = line.skip(1);
        match bracketed_name(rest) {
            Some(name) => if first_word_of(rest).len() > 0 {
                Some((first_word_of(rest), name))
            } else {
                None
            },
            None => None,
        }
    } else {
        None
    }
}

/// What a line of the listing adds to the card descriptions: the card's
/// short name and what follows the first ` - `, trimmed.
pub open spec fn line_description(line: Seq<char>) -> Option<(Seq<char>, Seq<char>)> {
    if line.len() > 0 && line[0] == ' ' {
        let rest = line.skip(1);
        match (bracketed_name(rest), first_match(rest, " - "@)) {
            (Some(name), Some(dash)) => Some((name, trimmed(rest.skip(dash + 3)))),
            _ => None,
        }
    } else {
        None
    }
}

/// The card mapping of the given lines; a later line replaces what an
/// earlier one said of the same index.
pub open spec fn mapping_of_lines(lines: Seq<Seq<char>>) -> Map<Seq<char>, Seq<char>>
    decreases lines.len(),
{
    if lines.len() == 0 {
        Map::empty()
    } else {
        let earlier = mapping_of_lines(lines.drop_last());
        match line_mapping(lines.last()) {
            Some((index, name)) => earlier.insert(index, name),
            None => earlier,
        }
    }
}

/// The card descriptions of the given lines; a later line replaces what an
/// earlier one said of the same short name.
pub open spec fn descriptions_of_lines(lines: Seq<Seq<char>>) -> Map<Seq<char>, Seq<char>>
    decreases lines.len(),
{
    if lines.len() == 0 {
        Map::empty()
    } else {
        let earlier = descriptions_of_lines(lines.drop_last());
        match line_description(lines.last()) {
            Some((name, description)) => earlier.insert(name, description),
            None => earlier,
        }
    }
}

/// The card mapping that a card listing gives.
pub open spec fn card_mapping(contents: Seq<char>) -> Map<Seq<char>, Seq<char>> {
    mapping_of_lines(lines_of(contents))
}

/// The card descriptions that a card listing gives.
pub open spec fn card_descriptions(contents: Seq<char>) -> Map<Seq<char>, Seq<char>> {
    descriptions_of_lines(lines_of(contents))
}

/// The short name in a card line without its leading space.
fn read_bracketed_name(rest: &Vec<char>) -> (name: Option<Vec<char>>)
    ensures
        match name {
            Some(n) => bracketed_name(rest@) == Some(n@),
            None => bracketed_name(rest@) is None,
        },
{
    let open = position(rest, '[');
    let close = position(rest, ']');
    if open < close && close < rest.len() {
        Some(trim(&slice(rest, open + 1, close)))
    } else {
        None
    }
}

/// Reads one line of the listing for the card mapping.
fn read_line_mapping(line: &Vec<char>) -> (entry: Option<(String, String)>)
    ensures
        match entry {
            Some(e) => line_mapping(line@) == Some((e.0@, e.1@)),
            None => line_mapping(line@) is None,
        },
{
    if line.len() == 0 || line[0] != ' ' {
        return None;
    }
    let rest = slice(line, 1, line.len());
    match read_bracketed_name(&rest) {
        Some(name) => {
            let index = first_word(&rest);
            if index.len() > 0 {
                Some((string_of(&index), string_of(&name)))
            } else {
                None
            }
        },
        None => None,
    }
}

/// Reads one line of the listing for the card descriptions.
fn read_line_description(line: &Vec<char>) -> (entry: Option<(String, String)>)
    ensures
        match entry {
            Some(e) => line_description(line@) == Some((e.0@, e.1@)),
            None => line_description(line@) is None,
        },
{
    if line.len() == 0 || line[0] != ' ' {
        return None;
    }
    let rest = slice(line, 1, line.len());
    match (read_bracketed_name(&rest), find(&rest, &chars_of(" - "))) {
        (Some(name), Some(dash)) => {
            proof {
                reveal_strlit(" - ");
            }
            let description = trim(&slice(&rest, dash + 3, rest.len()));
            Some((string_of(&name), string_of(&description)))
        },
        _ => None,
    }
}

/// Reads the card mapping, card index to short name, from the text of a
/// card listing.
pub fn get_card_mapping(contents: &str) -> (mapping: CardMapping)
    ensures
        mapping@ == card_mapping(contents@),
{
    let all = lines(&chars_of(contents));
    let mut mapping = StringMap::new();
    let mut i: usize = 0;
    while i < all.len()
        invariant
            i <= all.len(),
            texts(all@) == lines_of(contents@),
            mapping@ == mapping_of_lines(texts(all@).take(i as int)),
        decreases all.len() - i,
    {
        proof {
            assert(texts(all@).take(i + 1).drop_last() == texts(all@).take(i as int));
        }
        match read_line_mapping(&all[i]) {
            Some((index, name)) => {
                mapping.insert(index, name);
            },
            None => {},
        }
        i += 1;
    }
    assert(texts(all@).take(i as int) == texts(all@));
    mapping
}

/// Reads the card descriptions, short name to description, from the text of
/// a card listing.
pub fn get_card_descriptions(contents: &str) -> (descriptions: CardDescriptions)
    ensures
        descriptions@ == card_descriptions(contents@),
{
    let all = lines(&chars_of(contents));
    let mut descriptions = StringMap::new();
    let mut i: usize = 0;
    while i < all.len()
        invariant
            i <= all.len(),
            texts(all@) == lines_of(contents@),
            descriptions@ == descriptions_of_lines(texts(all@).take(i as int)),
        decreases all.len() - i,
    {
        proof {
            assert(texts(all@).take(i + 1).drop_last() == texts(all@).take(i as int));
        }
        match read_line_description(&all[i]) {
            Some((name, description)) => {
                descriptions.insert(name, description);
            },
            None => {},
        }
        i += 1;
    }
    assert(texts(all@).take(i as int) == texts(all@));
    descriptions
}

/// What a line of the listing adds to the card summary: the line without
/// its leading space, trimmed. Lines without the leading space, lines that
/// hold nothing else, and lines whose second character is `-` add nothing.
pub open spec fn line_summary(line: Seq<char>) -> Option<Seq<char>> {
    if line.len() > 0 && line[0] == ' ' {
        let rest = line.skip(1);
        if trimmed(rest).len() > 0 && rest[0] != '-' {
            Some(trimmed(rest))
        } else {
            None
        }
    } else {
        None
    }
}

/// The card summary of the given lines, in order.
pub open spec fn summary_of_lines(lines: Seq<Seq<char>>) -> Seq<Seq<char>>
    decreases lines.len(),
{
    if lines.len() == 0 {
        Seq::empty()
    } else {
        let earlier = summary_of_lines(lines.drop_last());
        match line_summary(lines.last()) {
            Some(text) => earlier.push(text),
            None => earlier,
        }
    }
}

/// The lines of a card listing that describe a card, each without the
/// white space around it.
pub fn card_summary_lines(contents: &str) -> (summary: Vec<String>)
    ensures
        string_texts(summary@) == summary_of_lines(lines_of(contents@)),
{
    let all = lines(&chars_of(contents));
    let mut summary: Vec<String> = Vec::new();
    let mut i: usize = 0;
    while i < all.len()
        invariant
            i <= all.len(),
            texts(all@) == lines_of(contents@),
            string_texts(summary@) == summary_of_lines(texts(all@).take(i as int)),
        decreases all.len() - i,
    {
        let line = &all[i];
        proof {
            assert(texts(all@).take(i + 1).drop_last() == texts(all@).take(i as int));
        }
        if line.len() > 0 && line[0] == ' ' {
            let rest = slice(line, 1, line.len());
            let text = trim(&rest);
            if text.len() > 0 && rest[0] != '-' {
                let entry = string_of(&text);
                summary.push(entry);
            }
        }
        i += 1;
    }
    assert(texts(all@).take(i as int) == texts(all@));
    summary
}

} // verus!
