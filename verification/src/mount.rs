//! Mounts: the compact `Volume=` spelling written for a mount and the mount read back from it.

use vstd::prelude::*;
use crate::grammar::{native_atom, native_atom_chars, safe_mount_part, safe_mount_part_chars};
use crate::issue::ValueIssue;
use crate::text::{chars_of, contains_char, has_char, join, split, split_chars, string_from};

verus! {

broadcast use vstd::string::group_string_axioms;

/// SELinux relabelling requested for a mount.
#[derive(Clone, Copy, Debug, PartialEq, Eq, Structural)]
pub enum SelinuxRelabel {
    /// `z`: content shared between containers.
    Shared,
    /// `Z`: content private to one container.
    Private,
}

/// What a mount attaches at its target.
#[derive(Clone, Debug)]
pub enum MountSource {
    /// A fresh anonymous volume.
    Anonymous,
    /// A named volume.
    Volume(String),
    /// A host path bound into the container.
    HostPath(String),
}

/// Mathematical model of a [`MountSource`].
pub enum MountSourceModel {
    Anonymous,
    Volume(Seq<char>),
    HostPath(Seq<char>),
}

impl View for MountSource {
    type V = MountSourceModel;

    open spec fn view(&self) -> MountSourceModel {
        match self {
            MountSource::Anonymous => MountSourceModel::Anonymous,
            MountSource::Volume(name) => MountSourceModel::Volume(name@),
            MountSource::HostPath(path) => MountSourceModel::HostPath(path@),
        }
    }
}

/// A container mount.
#[derive(Clone, Debug)]
pub struct MountSpec {
    /// What is mounted.
    pub source: MountSource,
    /// Absolute path inside the container.
    pub target: String,
    /// Whether the mount is read-only.
    pub read_only: bool,
    /// Requested SELinux relabelling.
    pub relabel: Option<SelinuxRelabel>,
}

/// Mathematical model of a [`MountSpec`].
pub struct MountModel {
    pub source: MountSourceModel,
    pub target: Seq<char>,
    pub read_only: bool,
    pub relabel: Option<SelinuxRelabel>,
}

impl View for MountSpec {
    type V = MountModel;

    open spec fn view(&self) -> MountModel {
        MountModel {
            source: self.source@,
            target: self.target@,
            read_only: self.read_only,
            relabel: self.relabel,
        }
    }
}

/// A container mount target: an absolute path of the mount-part character set.
pub open spec fn mount_target(s: Seq<char>) -> bool {
    s.len() > 0 && s[0] == '/' && safe_mount_part(s)
}

/// The option words written after a mount: `ro` when read-only, then `z` or `Z`.
pub open spec fn mount_options(read_only: bool, relabel: Option<SelinuxRelabel>) -> Seq<Seq<char>> {
    let ro: Seq<Seq<char>> = if read_only { seq![seq!['r', 'o']] } else { Seq::empty() };
    match relabel {
        Some(SelinuxRelabel::Shared) => ro.push(seq!['z']),
        Some(SelinuxRelabel::Private) => ro.push(seq!['Z']),
        None => ro,
    }
}

/// `[source:]target[:options]`, with an empty `source` meaning an anonymous volume.
pub open spec fn mount_text(source: Seq<char>, target: Seq<char>, read_only: bool, relabel: Option<SelinuxRelabel>) -> Seq<char> {
    let head = if source.len() == 0 { target } else { source + seq![':'] + target };
    let options = mount_options(read_only, relabel);
    if options.len() == 0 {
        head
    } else {
        head + seq![':'] + join(options, ',')
    }
}

/// Reading state of mount options: read-only seen, writable seen, relabelling seen.
pub type OptionState = (bool, bool, Option<SelinuxRelabel>);

/// One option word applied to the reading state.
pub open spec fn option_step(state: OptionState, o: Seq<char>) -> Result<OptionState, ValueIssue> {
    let (read_only, writable, relabel) = state;
    if o =~= seq!['r', 'o'] && !writable {
        Ok((true, writable, relabel))
    } else if o =~= seq!['r', 'w'] && !read_only {
        Ok((read_only, true, relabel))
    } else if o =~= seq!['z'] && relabel is None {
        Ok((read_only, writable, Some(SelinuxRelabel::Shared)))
    } else if o =~= seq!['Z'] && relabel is None {
        Ok((read_only, writable, Some(SelinuxRelabel::Private)))
    } else if o =~= seq!['r', 'o'] || o =~= seq!['r', 'w'] {
        Err(ValueIssue::Invalid("Volume options contain conflicting ro and rw intent"))
    } else if o =~= seq!['z'] || o =~= seq!['Z'] {
        Err(ValueIssue::Invalid("Volume options contain conflicting or repeated SELinux relabel intent"))
    } else {
        Err(ValueIssue::Unsupported("Volume option is not represented by the neutral mount model"))
    }
}

/// The option words applied in order from the initial state.
pub open spec fn options_reading(options: Seq<Seq<char>>) -> Result<OptionState, ValueIssue>
    decreases options.len(),
{
    if options.len() == 0 {
        Ok((false, false, None))
    } else {
        match options_reading(options.drop_last()) {
            Ok(state) => option_step(state, options.last()),
            Err(e) => Err(e),
        }
    }
}

/// `s` ends with `.volume`.
pub open spec fn volume_reference_name(s: Seq<char>) -> Option<Seq<char>> {
    let suffix = seq!['.', 'v', 'o', 'l', 'u', 'm', 'e'];
    if s.len() >= 7 && s.skip(s.len() - 7) =~= suffix {
        Some(s.take(s.len() - 7))
    } else {
        None
    }
}

/// What a mount source spelling denotes, with the named volume it introduces as external.
pub open spec fn mount_source_reading(source: Option<Seq<char>>, volume_reference: bool) -> Result<
    (MountSourceModel, Option<Seq<char>>),
    ValueIssue,
> {
    match source {
        None => Ok((MountSourceModel::Anonymous, None)),
        Some(src) => if src.len() == 0 {
            Ok((MountSourceModel::Anonymous, None))
        } else if volume_reference {
            match volume_reference_name(src) {
                Some(name) => Ok((MountSourceModel::Volume(name), None)),
                None => Err(ValueIssue::Invalid("invalid .volume unit reference")),
            }
        } else if src[0] == '/' && safe_mount_part(src) {
            Ok((MountSourceModel::HostPath(src), None))
        } else if src[0] == '.' || has_char(src, '%') {
            Err(
                ValueIssue::Unsupported(
                    "unit-relative and systemd-specifier bind sources require explicit path resolution",
                ),
            )
        } else if native_atom(src) {
            Ok((MountSourceModel::Volume(src), Some(src)))
        } else {
            Err(
                ValueIssue::Unsupported(
                    "Volume source requires native quoting or target-specific path interpretation",
                ),
            )
        },
    }
}

/// The mount a compact `Volume=` value denotes, and the named volume it introduces as external.
pub open spec fn mount_reading(s: Seq<char>, volume_reference: bool) -> Result<
    (MountModel, Option<Seq<char>>),
    ValueIssue,
> {
    let parts = split(s, ':');
    if s.len() == 0 {
        Err(ValueIssue::Invalid("Volume value is empty"))
    } else if parts.len() > 3 {
        Err(
            ValueIssue::Unsupported(
                "Volume values containing additional colon-delimited fields are outside the exact compact subset",
            ),
        )
    } else {
        let source: Option<Seq<char>> = if parts.len() == 1 { None } else { Some(parts[0]) };
        let target = if parts.len() == 1 { parts[0] } else { parts[1] };
        let state = if parts.len() == 3 { options_reading(split(parts[2], ',')) } else { Ok((false, false, None)) };
        if !mount_target(target) {
            Err(
                ValueIssue::Unsupported(
                    "container mount target must be an unquoted absolute path in the exact compact subset",
                ),
            )
        } else {
            match state {
                Err(e) => Err(e),
                Ok((read_only, _, relabel)) => match mount_source_reading(source, volume_reference) {
                    Err(e) => Err(e),
                    Ok((src, external)) => Ok(
                        (MountModel { source: src, target, read_only, relabel }, external),
                    ),
                },
            }
        }
    }
}

pub(crate) fn push_chars(out: &mut Vec<char>, text: &[char])
    ensures
        final(out)@ == old(out)@ + text@,
{
    let mut i: usize = 0;
    let ghost base = out@;
    while i < text.len()
        invariant
            i <= text.len(),
            out@ == base + text@.take(i as int),
        decreases text.len() - i,
    {
        out.push(text[i]);
        assert(text@.take(i + 1) =~= text@.take(i as int).push(text@[i as int]));
        i += 1;
    }
    assert(text@.take(text.len() as int) =~= text@);
}

/// Writes `[source:]target[:options]`; an empty `source` writes an anonymous volume.
pub fn mount_value(source: &str, target: &str, read_only: bool, relabel: Option<SelinuxRelabel>) -> (text: String)
    ensures
        text@ == mount_text(source@, target@, read_only, relabel),
{
    let src = chars_of(source);
    let tgt = chars_of(target);
    let mut out: Vec<char> = Vec::new();
    if src.len() > 0 {
        push_chars(&mut out, src.as_slice());
        out.push(':');
    }
    push_chars(&mut out, tgt.as_slice());
    let ghost head = out@;
    assert(head =~= if source@.len() == 0 { target@ } else { source@ + seq![':'] + target@ });
    let ghost options = mount_options(read_only, relabel);
    if read_only || relabel.is_some() {
        out.push(':');
        if read_only {
            out.push('r');
            out.push('o');
        }
        match relabel {
            Some(SelinuxRelabel::Shared) => {
                if read_only {
                    out.push(',');
                }
                out.push('z');
            },
            Some(SelinuxRelabel::Private) => {
                if read_only {
                    out.push(',');
                }
                out.push('Z');
            },
            None => {},
        }
        proof {
            let ro: Seq<Seq<char>> = if read_only { seq![seq!['r', 'o']] } else { Seq::empty() };
            if read_only {
                assert(join(ro, ',') =~= seq!['r', 'o']);
            }
            match relabel {
                Some(SelinuxRelabel::Shared) => {
                    assert(options == ro.push(seq!['z']));
                    if read_only {
                        assert(options.drop_last() =~= ro);
                        assert(join(options, ',') =~= seq!['r', 'o', ',', 'z']);
                    } else {
                        assert(join(options, ',') =~= seq!['z']);
                    }
                },
                Some(SelinuxRelabel::Private) => {
                    assert(options == ro.push(seq!['Z']));
                    if read_only {
                        assert(options.drop_last() =~= ro);
                        assert(join(options, ',') =~= seq!['r', 'o', ',', 'Z']);
                    } else {
                        assert(join(options, ',') =~= seq!['Z']);
                    }
                },
                None => {},
            }
            assert(out@ =~= head + seq![':'] + join(options, ','));
        }
    }
    string_from(out.as_slice())
}

fn is_word(s: &[char], a: char, b: char, n: usize) -> (r: bool)
    requires
        n == 1 || n == 2,
    ensures
        r == (if n == 1 { s@ =~= seq![a] } else { s@ =~= seq![a, b] }),
{
    if n == 1 {
        s.len() == 1 && s[0] == a
    } else {
        s.len() == 2 && s[0] == a && s[1] == b
    }
}

fn read_options(options: &[char]) -> (state: Result<OptionState, ValueIssue>)
    ensures
        state == options_reading(split(options@, ',')),
{
    let words = split_chars(options, ',');
    let ghost all = split(options@, ',');
    let mut read_only = false;
    let mut writable = false;
    let mut relabel: Option<SelinuxRelabel> = None;
    let mut k: usize = 0;
    while k < words.len()
        invariant
            k <= words@.len(),
            all == split(options@, ','),
            words@.len() == all.len(),
            forall|j: int| 0 <= j < words@.len() ==> #[trigger] words@[j]@ == all[j],
            options_reading(all.take(k as int)) == Ok::<OptionState, ValueIssue>((read_only, writable, relabel)),
        decreases words@.len() - k,
    {
        let o = words[k].as_slice();
        assert(o@ == all[k as int]);
        assert(all.take(k + 1).drop_last() =~= all.take(k as int));
        assert(all.take(k + 1).last() == o@);
        let ro = is_word(o, 'r', 'o', 2);
        let rw = is_word(o, 'r', 'w', 2);
        let z = is_word(o, 'z', 'z', 1);
        let big_z = is_word(o, 'Z', 'Z', 1);
        if ro && !writable {
            read_only = true;
        } else if rw && !read_only {
            writable = true;
        } else if z && relabel.is_none() {
            relabel = Some(SelinuxRelabel::Shared);
        } else if big_z && relabel.is_none() {
            relabel = Some(SelinuxRelabel::Private);
        } else if ro || rw {
            proof {
                lemma_options_stuck(all, k as int + 1);
            }
            return Err(ValueIssue::Invalid("Volume options contain conflicting ro and rw intent"));
        } else if z || big_z {
            proof {
                lemma_options_stuck(all, k as int + 1);
            }
            return Err(ValueIssue::Invalid("Volume options contain conflicting or repeated SELinux relabel intent"));
        } else {
            proof {
                lemma_options_stuck(all, k as int + 1);
            }
            return Err(ValueIssue::Unsupported("Volume option is not represented by the neutral mount model"));
        }
        k += 1;
    }
    assert(all.take(words@.len() as int) =~= all);
    Ok((read_only, writable, relabel))
}

/// Once reading the options fails on a prefix, it fails identically on the whole list.
proof fn lemma_options_stuck(options: Seq<Seq<char>>, k: int)
    requires
        0 <= k <= options.len(),
        options_reading(options.take(k)) is Err,
    ensures
        options_reading(options) == options_reading(options.take(k)),
    decreases options.len() - k,
{
    if k < options.len() {
        assert(options.take(k + 1).drop_last() =~= options.take(k));
        lemma_options_stuck(options, k + 1);
    } else {
        assert(options.take(k) =~= options);
    }
}

fn read_source(source: Option<&[char]>, volume_reference: bool) -> (reading: Result<
    (MountSource, Option<String>),
    ValueIssue,
>)
    ensures
        match reading {
            Ok((src, external)) => mount_source_reading(
                match source {
                    Some(s) => Some(s@),
                    None => None,
                },
                volume_reference,
            ) == Ok::<(MountSourceModel, Option<Seq<char>>), ValueIssue>(
                (
                    src@,
                    match external {
                        Some(e) => Some(e@),
                        None => None,
                    },
                ),
            ),
            Err(e) => mount_source_reading(
                match source {
                    Some(s) => Some(s@),
                    None => None,
                },
                volume_reference,
            ) == Err::<(MountSourceModel, Option<Seq<char>>), ValueIssue>(e),
        },
{
    let src = match source {
        None => return Ok((MountSource::Anonymous, None)),
        Some(src) => src,
    };
    if src.len() == 0 {
        return Ok((MountSource::Anonymous, None));
    }
    if volume_reference {
        let n = src.len();
        if n >= 7 && src[n - 7] == '.' && src[n - 6] == 'v' && src[n - 5] == 'o' && src[n - 4] == 'l' && src[n
            - 3] == 'u' && src[n - 2] == 'm' && src[n - 1] == 'e' {
            assert(src@.skip(n - 7) =~= seq!['.', 'v', 'o', 'l', 'u', 'm', 'e']);
            let name = &src[0..n - 7];
            assert(name@ =~= src@.take(n - 7));
            return Ok((MountSource::Volume(string_from(name)), None));
        }
        proof {
            if n >= 7 && src@.skip(n - 7) =~= seq!['.', 'v', 'o', 'l', 'u', 'm', 'e'] {
                let t = src@.skip(n - 7);
                assert(t[0] == src@[n - 7] && t[1] == src@[n - 6] && t[2] == src@[n - 5] && t[3] == src@[n - 4]
                    && t[4] == src@[n - 3] && t[5] == src@[n - 2] && t[6] == src@[n - 1]);
            }
        }
        return Err(ValueIssue::Invalid("invalid .volume unit reference"));
    }
    if src[0] == '/' && safe_mount_part_chars(src) {
        return Ok((MountSource::HostPath(string_from(src)), None));
    }
    if src[0] == '.' || contains_char(src, '%') {
        return Err(
            ValueIssue::Unsupported(
                "unit-relative and systemd-specifier bind sources require explicit path resolution",
            ),
        );
    }
    if native_atom_chars(src) {
        return Ok((MountSource::Volume(string_from(src)), Some(string_from(src))));
    }
    Err(ValueIssue::Unsupported("Volume source requires native quoting or target-specific path interpretation"))
}

/// Reads a compact `Volume=` value; `volume_reference` tells whether the native model typed the
/// source as a `.volume` unit reference.
pub fn decode_mount(value: &str, volume_reference: bool) -> (reading: Result<(MountSpec, Option<String>), ValueIssue>)
    ensures
        match reading {
            Ok((mount, external)) => mount_reading(value@, volume_reference) == Ok::<
                (MountModel, Option<Seq<char>>),
                ValueIssue,
            >(
                (
                    mount@,
                    match external {
                        Some(e) => Some(e@),
                        None => None,
                    },
                ),
            ),
            Err(e) => mount_reading(value@, volume_reference) == Err::<
                (MountModel, Option<Seq<char>>),
                ValueIssue,
            >(e),
        },
{
    let s = chars_of(value);
    if s.len() == 0 {
        return Err(ValueIssue::Invalid("Volume value is empty"));
    }
    let parts = split_chars(s.as_slice(), ':');
    proof {
        crate::text::lemma_split_nonempty(s@, ':');
    }
    if parts.len() > 3 {
        return Err(
            ValueIssue::Unsupported(
                "Volume values containing additional colon-delimited fields are outside the exact compact subset",
            ),
        );
    }
    let ghost sp = split(s@, ':');
    assert(parts@[0]@ == sp[0]);
    let source: Option<&[char]> = if parts.len() == 1 { None } else { Some(parts[0].as_slice()) };
    let target: &[char] = if parts.len() == 1 { parts[0].as_slice() } else { parts[1].as_slice() };
    assert(parts.len() > 1 ==> parts@[1]@ == sp[1]);
    if !(target.len() > 0 && target[0] == '/' && safe_mount_part_chars(target)) {
        return Err(
            ValueIssue::Unsupported(
                "container mount target must be an unquoted absolute path in the exact compact subset",
            ),
        );
    }
    let state = if parts.len() == 3 {
        assert(parts@[2]@ == sp[2]);
        read_options(parts[2].as_slice())
    } else {
        Ok((false, false, None))
    };
    let (read_only, relabel) = match state {
        Ok((read_only, _, relabel)) => (read_only, relabel),
        Err(e) => return Err(e),
    };
    let (src, external) = match read_source(source, volume_reference) {
        Ok(pair) => pair,
        Err(e) => return Err(e),
    };
    Ok((MountSpec { source: src, target: string_from(target), read_only, relabel }, external))
}


proof fn lemma_mount_part_lacks(s: Seq<char>, c: char)
    requires
        safe_mount_part(s),
        c == ':' || c == ',',
    ensures
        !has_char(s, c),
{
    if has_char(s, c) {
        let i = choose|i: int| 0 <= i < s.len() && s[i] == c;
        assert(crate::charset::in_set(crate::charset::Charset::MountPart, s[i]));
    }
}

proof fn lemma_atom_lacks(s: Seq<char>, c: char)
    requires
        native_atom(s),
        c == ':' || c == ',' || c == '%',
    ensures
        !has_char(s, c),
{
    if has_char(s, c) {
        let i = choose|i: int| 0 <= i < s.len() && s[i] == c;
        assert(crate::charset::in_set(crate::charset::Charset::Atom, s[i]));
    }
}

/// The option words split back out of their joined spelling, and their reading.
proof fn lemma_options_round_trip(read_only: bool, relabel: Option<SelinuxRelabel>)
    requires
        read_only || relabel is Some,
    ensures
        !has_char(join(mount_options(read_only, relabel), ','), ':'),
        options_reading(split(join(mount_options(read_only, relabel), ','), ',')) matches Ok((ro, _, rl)) && ro
            == read_only && rl == relabel,
{
    let options = mount_options(read_only, relabel);
    let ro_word = seq!['r', 'o'];
    crate::text::lemma_split_single(ro_word, ',');
    crate::text::lemma_split_single(seq!['z'], ',');
    crate::text::lemma_split_single(seq!['Z'], ',');
    let words: Seq<Seq<char>> = if read_only { seq![ro_word] } else { Seq::empty() };
    match relabel {
        Some(r) => {
            let w = if r == SelinuxRelabel::Shared { seq!['z'] } else { seq!['Z'] };
            assert(options == words.push(w));
            if read_only {
                assert(options.drop_last() =~= seq![ro_word]);
                assert(join(seq![ro_word], ',') == ro_word);
                assert(join(options, ',') =~= ro_word + seq![','] + w);
                crate::text::lemma_split_concat(ro_word, w, ',');
                assert(split(join(options, ','), ',') =~= seq![ro_word, w]);
                let opts = seq![ro_word, w];
                assert(opts.drop_last() =~= seq![ro_word]);
                assert(seq![ro_word].drop_last() =~= Seq::<Seq<char>>::empty());
                assert(options_reading(Seq::<Seq<char>>::empty()) == Ok::<OptionState, ValueIssue>((false, false, None)));
                assert(option_step((false, false, None), ro_word) == Ok::<OptionState, ValueIssue>((true, false, None)));
                assert(options_reading(seq![ro_word]) == Ok::<OptionState, ValueIssue>((true, false, None)));
            } else {
                assert(options =~= seq![w]);
                assert(join(options, ',') =~= w);
                assert(seq![w].drop_last() =~= Seq::<Seq<char>>::empty());
            }
            assert(!has_char(join(options, ','), ':')) by {
                if has_char(join(options, ','), ':') {
                    let i = choose|i: int| 0 <= i < join(options, ',').len() && join(options, ',')[i] == ':';
                }
            }
        },
        None => {
            assert(options =~= seq![ro_word]);
            assert(join(options, ',') =~= ro_word);
            assert(seq![ro_word].drop_last() =~= Seq::<Seq<char>>::empty());
            assert(!has_char(ro_word, ':')) by {
                if has_char(ro_word, ':') {
                    let i = choose|i: int| 0 <= i < ro_word.len() && ro_word[i] == ':';
                }
            }
        },
    }
}

/// Reading back the compact `Volume=` spelling written for a mount yields that mount, for every
/// mount whose target is a safe absolute path and whose source is a safe absolute host path, a
/// named volume (read back as external), or an anonymous volume without options.
pub proof fn lemma_mount_round_trip(
    source: Seq<char>,
    target: Seq<char>,
    read_only: bool,
    relabel: Option<SelinuxRelabel>,
)
    requires
        mount_target(target),
        source.len() == 0 ==> !read_only && relabel is None,
        source.len() > 0 ==> (source[0] == '/' && safe_mount_part(source)) || native_atom(source),
    ensures
        mount_reading(mount_text(source, target, read_only, relabel), false) == Ok::<
            (MountModel, Option<Seq<char>>),
            ValueIssue,
        >(
            (
                MountModel {
                    source: if source.len() == 0 {
                        MountSourceModel::Anonymous
                    } else if source[0] == '/' {
                        MountSourceModel::HostPath(source)
                    } else {
                        MountSourceModel::Volume(source)
                    },
                    target,
                    read_only,
                    relabel,
                },
                if source.len() > 0 && source[0] != '/' {
                    Some(source)
                } else {
                    None
                },
            ),
        ),
{
    let text = mount_text(source, target, read_only, relabel);
    lemma_mount_part_lacks(target, ':');
    crate::text::lemma_split_single(target, ':');
    if source.len() > 0 {
        if source[0] == '/' && safe_mount_part(source) {
            lemma_mount_part_lacks(source, ':');
        } else {
            lemma_atom_lacks(source, ':');
            lemma_atom_lacks(source, '%');
            assert(source[0] != '.') by {
                assert(crate::text::is_alnum(source[0]));
            }
            assert(source[0] != '/') by {
                assert(crate::text::is_alnum(source[0]));
            }
        }
        crate::text::lemma_split_single(source, ':');
    }
    let head = if source.len() == 0 { target } else { source + seq![':'] + target };
    if source.len() > 0 {
        crate::text::lemma_split_concat(source, target, ':');
        assert(split(head, ':') =~= seq![source, target]);
    } else {
        assert(split(head, ':') =~= seq![target]);
    }
    if read_only || relabel is Some {
        lemma_options_round_trip(read_only, relabel);
        let opts = join(mount_options(read_only, relabel), ',');
        crate::text::lemma_split_single(opts, ':');
        crate::text::lemma_split_concat(head, opts, ':');
        assert(text =~= head + seq![':'] + opts);
        assert(source.len() > 0);
        assert(split(text, ':') =~= seq![source, target, opts]);
    } else {
        assert(mount_options(read_only, relabel) =~= Seq::<Seq<char>>::empty());
        assert(text =~= head);
    }
    assert(text.len() > 0);
}
/// `x` occurs in `s` exactly when it occurs in all but the last item or is the last item.
proof fn lemma_contains_last(s: Seq<Seq<char>>, x: Seq<char>)
    requires
        s.len() > 0,
    ensures
        s.contains(x) <==> (s.drop_last().contains(x) || s.last() == x),
{
    if s.contains(x) {
        let i = choose|i: int| 0 <= i < s.len() && s[i] == x;
        if i < s.len() - 1 {
            assert(s.drop_last()[i] == x);
        }
    }
    if s.drop_last().contains(x) {
        let i = choose|i: int| 0 <= i < s.drop_last().len() && s.drop_last()[i] == x;
        assert(s[i] == x);
    }
    if s.last() == x {
        assert(s[s.len() - 1] == x);
    }
}

/// Mount options mean their words: a set of options that reads is read-only exactly when it
/// holds `ro`, writable exactly when it holds `rw`, and relabelled shared for `z`, privately for
/// `Z`, and not at all otherwise.
pub proof fn lemma_options_mean_their_words(options: Seq<Seq<char>>)
    ensures
        options_reading(options) matches Ok((read_only, writable, relabel)) ==> {
            &&& read_only == options.contains(seq!['r', 'o'])
            &&& writable == options.contains(seq!['r', 'w'])
            &&& relabel == if options.contains(seq!['z']) {
                Some(SelinuxRelabel::Shared)
            } else if options.contains(seq!['Z']) {
                Some(SelinuxRelabel::Private)
            } else {
                None
            }
        },
    decreases options.len(),
{
    if options.len() > 0 {
        let init = options.drop_last();
        lemma_options_mean_their_words(init);
        lemma_contains_last(options, seq!['r', 'o']);
        lemma_contains_last(options, seq!['r', 'w']);
        lemma_contains_last(options, seq!['z']);
        lemma_contains_last(options, seq!['Z']);
        let o = options.last();
        assert(!(seq!['r', 'o'] =~= seq!['r', 'w']));
        assert(seq!['z'][0] != seq!['Z'][0]);
        if o =~= seq!['r', 'o'] {
            assert(o == seq!['r', 'o']);
        }
        if o =~= seq!['r', 'w'] {
            assert(o == seq!['r', 'w']);
        }
        if o =~= seq!['z'] {
            assert(o == seq!['z']);
        }
        if o =~= seq!['Z'] {
            assert(o == seq!['Z']);
        }
    } else {
        assert(!options.contains(seq!['r', 'o']));
        assert(!options.contains(seq!['r', 'w']));
        assert(!options.contains(seq!['z']));
        assert(!options.contains(seq!['Z']));
    }
}

/// A compact `Volume=` value that reads is read-only exactly when it has an options field that
/// holds `ro`.
pub proof fn lemma_mount_read_only_means_ro(s: Seq<char>, volume_reference: bool)
    ensures
        mount_reading(s, volume_reference) matches Ok((m, _)) ==> m.read_only == (split(s, ':').len() == 3 && split(
            split(s, ':')[2],
            ',',
        ).contains(seq!['r', 'o'])),
{
    let parts = split(s, ':');
    if parts.len() == 3 {
        lemma_options_mean_their_words(split(parts[2], ','));
    }
}

} // verus!
