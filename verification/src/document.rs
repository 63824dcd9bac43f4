//! Reading a parsed volume unit: the entries of a native document as plain values, the volume
//! setting each key names, and the settings read from them in order.

use vstd::prelude::*;
use quadlet_lens::model::{EntryKind, QuadletDocumentSet};
use crate::text::{chars_of, is_white_space, same_chars, string_from, white_space};
use crate::volume::{
    entry_views, read_entries, read_volume_unit, unset_volume, VolumeReading, VolumeSetting, VolumeSettings,
};

verus! {

broadcast use vstd::string::group_string_axioms;

/// One entry of a native document as plain values.
#[derive(Clone, Debug, PartialEq, Eq)]
pub struct NativeEntry {
    /// Whether the typed model recognizes the key in a `[Volume]` section.
    pub volume_key: bool,
    /// The key as authored.
    pub key: String,
    /// The first physical value text as authored.
    pub value: String,
    /// Whether the value continues on further physical lines.
    pub continued: bool,
}

/// The entries of the document at `index` in `set`, in authored order, read with
/// `QuadletDocumentSet::documents`, `QuadletDocument::entries`, and each entry's `kind`, `key`,
/// and `value().primary()` and `is_continued`; none past the last document. They are the parsed
/// document's own, so nothing is claimed of them here.
#[verifier::external_body]
fn native_entries(set: &QuadletDocumentSet, index: usize) -> Vec<NativeEntry> {
    match set.documents().get(index) {
        Some(named) => named.document().entries().map(|entry| NativeEntry {
            volume_key: matches!(entry.kind(), EntryKind::Volume(_)),
            key: entry.key().text().to_owned(),
            value: entry.value().primary().text().to_owned(),
            continued: entry.value().is_continued(),
        }).collect(),
        None => Vec::new(),
    }
}

/// `s` without its leading and trailing `White_Space`, as `str::trim` gives it.
pub open spec fn trim_text(s: Seq<char>) -> Seq<char>
    decreases s.len(),
{
    if s.len() == 0 {
        s
    } else if is_white_space(s[0]) {
        trim_text(s.drop_first())
    } else if is_white_space(s.last()) {
        trim_text(s.drop_last())
    } else {
        s
    }
}

/// Trims leading and trailing `White_Space` from `value`.
pub fn trim(value: &str) -> (trimmed: String)
    ensures
        trimmed@ == trim_text(value@),
{
    let s = chars_of(value);
    let mut a: usize = 0;
    let mut b: usize = s.len();
    assert(s@.subrange(0, s@.len() as int) =~= s@);
    while a < b && white_space(s[a])
        invariant
            a <= b <= s@.len(),
            s@ == value@,
            trim_text(value@) == trim_text(s@.subrange(a as int, b as int)),
        decreases b - a,
    {
        assert(s@.subrange(a as int, b as int).drop_first() =~= s@.subrange(a + 1, b as int));
        a += 1;
    }
    while a < b && white_space(s[b - 1])
        invariant
            a <= b <= s@.len(),
            s@ == value@,
            a < b ==> !is_white_space(s@[a as int]),
            trim_text(value@) == trim_text(s@.subrange(a as int, b as int)),
        decreases b - a,
    {
        let ghost sub = s@.subrange(a as int, b as int);
        assert(sub[0] == s@[a as int]);
        assert(sub.last() == s@[b - 1]);
        assert(sub.drop_last() =~= s@.subrange(a as int, b - 1));
        b -= 1;
    }
    let ghost sub = s@.subrange(a as int, b as int);
    if a < b {
        assert(sub[0] == s@[a as int]);
        assert(sub.last() == s@[b - 1]);
    }
    string_from(&s.as_slice()[a..b])
}

/// The volume setting a `[Volume]` key names.
pub open spec fn volume_key_setting(key: Seq<char>) -> Option<VolumeSetting> {
    if key == "VolumeName"@ {
        Some(VolumeSetting::VolumeName)
    } else if key == "Driver"@ {
        Some(VolumeSetting::Driver)
    } else if key == "Options"@ {
        Some(VolumeSetting::Options)
    } else if key == "Label"@ {
        Some(VolumeSetting::Label)
    } else if key == "Device"@ {
        Some(VolumeSetting::Device)
    } else if key == "Type"@ {
        Some(VolumeSetting::Type)
    } else if key == "Copy"@ {
        Some(VolumeSetting::Copy)
    } else if key == "ContainersConfModule"@ {
        Some(VolumeSetting::ContainersConfModule)
    } else if key == "GlobalArgs"@ {
        Some(VolumeSetting::GlobalArgs)
    } else if key == "PodmanArgs"@ {
        Some(VolumeSetting::PodmanArgs)
    } else if key == "User"@ {
        Some(VolumeSetting::User)
    } else if key == "Group"@ {
        Some(VolumeSetting::Group)
    } else if key == "UID"@ {
        Some(VolumeSetting::Uid)
    } else if key == "GID"@ {
        Some(VolumeSetting::Gid)
    } else if key == "ServiceName"@ {
        Some(VolumeSetting::ServiceName)
    } else if key == "Image"@ {
        Some(VolumeSetting::Image)
    } else {
        None
    }
}

fn is_key(key: &Vec<char>, name: &str) -> (b: bool)
    ensures
        b == (key@ == name@),
{
    same_chars(key.as_slice(), chars_of(name).as_slice())
}

/// The volume setting a `[Volume]` key names.
pub fn volume_setting_of_key(key: &str) -> (setting: Option<VolumeSetting>)
    ensures
        setting == volume_key_setting(key@),
{
    let k = chars_of(key);
    if is_key(&k, "VolumeName") {
        Some(VolumeSetting::VolumeName)
    } else if is_key(&k, "Driver") {
        Some(VolumeSetting::Driver)
    } else if is_key(&k, "Options") {
        Some(VolumeSetting::Options)
    } else if is_key(&k, "Label") {
        Some(VolumeSetting::Label)
    } else if is_key(&k, "Device") {
        Some(VolumeSetting::Device)
    } else if is_key(&k, "Type") {
        Some(VolumeSetting::Type)
    } else if is_key(&k, "Copy") {
        Some(VolumeSetting::Copy)
    } else if is_key(&k, "ContainersConfModule") {
        Some(VolumeSetting::ContainersConfModule)
    } else if is_key(&k, "GlobalArgs") {
        Some(VolumeSetting::GlobalArgs)
    } else if is_key(&k, "PodmanArgs") {
        Some(VolumeSetting::PodmanArgs)
    } else if is_key(&k, "User") {
        Some(VolumeSetting::User)
    } else if is_key(&k, "Group") {
        Some(VolumeSetting::Group)
    } else if is_key(&k, "UID") {
        Some(VolumeSetting::Uid)
    } else if is_key(&k, "GID") {
        Some(VolumeSetting::Gid)
    } else if is_key(&k, "ServiceName") {
        Some(VolumeSetting::ServiceName)
    } else if is_key(&k, "Image") {
        Some(VolumeSetting::Image)
    } else {
        None
    }
}

/// Why an entry of a volume unit is not read.
#[derive(Clone, Copy, Debug, PartialEq, Eq, Structural)]
pub enum SkippedEntry {
    /// The key is not a recognized `[Volume]` key.
    UnknownKey,
    /// The value continues on further lines and needs native decoding first.
    Continued,
}

impl SkippedEntry {
    /// Why the entry is not read.
    pub fn reason(self) -> (reason: &'static str)
        ensures
            reason@ == match self {
                SkippedEntry::UnknownKey => "Quadlet key is not part of the typed volume surface"@,
                SkippedEntry::Continued => "continued physical values require native semantic decoding before import"@,
            },
    {
        match self {
            SkippedEntry::UnknownKey => "Quadlet key is not part of the typed volume surface",
            SkippedEntry::Continued => "continued physical values require native semantic decoding before import",
        }
    }
}

/// What becomes of a native entry: the volume setting and trimmed value read, or why it is
/// skipped.
pub open spec fn entry_input(
    volume_key: bool,
    key: Seq<char>,
    value: Seq<char>,
    continued: bool,
) -> Result<(VolumeSetting, Seq<char>), SkippedEntry> {
    if !volume_key || volume_key_setting(key) is None {
        Err(SkippedEntry::UnknownKey)
    } else if continued {
        Err(SkippedEntry::Continued)
    } else {
        Ok((volume_key_setting(key)->Some_0, trim_text(value)))
    }
}

/// The entries read of a list of native entries, in order.
pub open spec fn read_inputs(entries: Seq<NativeEntry>) -> Seq<(VolumeSetting, Seq<char>)>
    decreases entries.len(),
{
    if entries.len() == 0 {
        Seq::empty()
    } else {
        let e = entries.last();
        read_inputs(entries.drop_last()) + match entry_input(e.volume_key, e.key@, e.value@, e.continued) {
            Ok(pair) => seq![pair],
            Err(_) => Seq::empty(),
        }
    }
}

/// Reads native volume entries in order: the entries each is turned into, the settings read
/// from the entries that are read (see [`read_volume_unit`]), and the entries skipped.
pub fn read_volume_entries(entries: &Vec<NativeEntry>) -> (read: (VolumeSettings, Vec<VolumeReading>, Vec<(usize, SkippedEntry)>))
    ensures
        read.0@ == read_entries(unset_volume(), Seq::empty(), read_inputs(entries@)).0,
        read.1@.len() == read_inputs(entries@).len(),
        forall|k: int|
            0 <= k < read.2@.len() ==> {
                let (i, why) = #[trigger] read.2@[k];
                &&& i < entries@.len()
                &&& entry_input(entries@[i as int].volume_key, entries@[i as int].key@, entries@[i as int].value@, entries@[i as int].continued) == Err::<(VolumeSetting, Seq<char>), SkippedEntry>(why)
            },
{
    let mut inputs: Vec<(VolumeSetting, String)> = Vec::new();
    let mut skipped: Vec<(usize, SkippedEntry)> = Vec::new();
    let mut i: usize = 0;
    while i < entries.len()
        invariant
            i <= entries@.len(),
            entry_views(inputs@) == read_inputs(entries@.take(i as int)),
            forall|k: int|
                0 <= k < skipped@.len() ==> {
                    let (j, why) = #[trigger] skipped@[k];
                    &&& j < entries@.len()
                    &&& entry_input(entries@[j as int].volume_key, entries@[j as int].key@, entries@[j as int].value@, entries@[j as int].continued) == Err::<(VolumeSetting, Seq<char>), SkippedEntry>(why)
                },
        decreases entries@.len() - i,
    {
        let e = &entries[i];
        let ghost before = entry_views(inputs@);
        proof {
            assert(entries@.take(i + 1).drop_last() =~= entries@.take(i as int));
            assert(entries@.take(i + 1).last() == entries@[i as int]);
        }
        let setting = if e.volume_key {
            volume_setting_of_key(e.key.as_str())
        } else {
            None
        };
        match setting {
            None => {
                skipped.push((i, SkippedEntry::UnknownKey));
                assert(read_inputs(entries@.take(i + 1)) =~= before);
            },
            Some(s) => {
                if e.continued {
                    skipped.push((i, SkippedEntry::Continued));
                    assert(read_inputs(entries@.take(i + 1)) =~= before);
                } else {
                    let value = trim(e.value.as_str());
                    let ghost pair = (s, value@);
                    inputs.push((s, value));
                    assert(entry_views(inputs@) =~= before.push(pair));
                    assert(entry_views(inputs@) =~= read_inputs(entries@.take(i + 1)));
                }
            },
        }
        i += 1;
    }
    assert(entries@.take(entries@.len() as int) =~= entries@);
    let (settings, readings) = read_volume_unit(inputs.as_slice());
    (settings, readings, skipped)
}

/// Reads the volume unit at `index` of a parsed document set: its native entries, the volume
/// settings read from them in order, how each read entry read, and the entries skipped. Which
/// entries the document holds is the parsed document's own; what is read of them is the verified
/// reading of [`read_volume_entries`].
pub fn read_volume_document(set: &QuadletDocumentSet, index: usize) -> (read: (
    Vec<NativeEntry>,
    VolumeSettings,
    Vec<VolumeReading>,
    Vec<(usize, SkippedEntry)>,
))
    ensures
        read.1@ == read_entries(unset_volume(), Seq::empty(), read_inputs(read.0@)).0,
        read.2@.len() == read_inputs(read.0@).len(),
{
    let entries = native_entries(set, index);
    let (settings, readings, skipped) = read_volume_entries(&entries);
    (entries, settings, readings, skipped)
}

} // verus!
