//! Security options and devices of a container: which native key each writes, and with which
//! value.

use vstd::prelude::*;
use crate::charset::Charset;
use crate::grammar::{
    is_safe_security_option_value, safe_security_option_value, is_reviewed_device_component, is_reviewed_device_permissions, reviewed_device, reviewed_device_component,
    reviewed_device_permissions, reviewed_device_spelling,
};
use crate::mount::push_chars;
use crate::scalar::{bool_spelling, bool_text, lemma_bool_spelling_reads_back, parse_security_option_boolean, security_option_boolean};
use crate::text::{chars_of, has_char, split, string_from};

verus! {

broadcast use vstd::string::group_string_axioms;

/// A neutral container security option.
#[derive(Clone, Debug, PartialEq, Eq)]
pub enum SecurityOption {
    AppArmor(String),
    NoNewPrivileges(bool),
    SeccompProfile(String),
    SecurityLabelDisable(bool),
    SecurityLabelFileType(String),
    SecurityLabelLevel(String),
    SecurityLabelNested(bool),
    SecurityLabelType(String),
    Mask(String),
    Unmask(String),
}

/// The `[Container]` key a security option is written under.
#[derive(Clone, Copy, Debug, PartialEq, Eq, Structural)]
pub enum SecurityKey {
    AppArmor,
    NoNewPrivileges,
    SeccompProfile,
    SecurityLabelDisable,
    SecurityLabelFileType,
    SecurityLabelLevel,
    SecurityLabelNested,
    SecurityLabelType,
    Mask,
    Unmask,
}

/// Mathematical model of a [`SecurityOption`]: its key and its written value.
pub struct SecurityModel {
    pub key: SecurityKey,
    pub value: Seq<char>,
}

impl View for SecurityOption {
    type V = SecurityModel;

    open spec fn view(&self) -> SecurityModel {
        match self {
            SecurityOption::AppArmor(v) => SecurityModel { key: SecurityKey::AppArmor, value: v@ },
            SecurityOption::NoNewPrivileges(b) => SecurityModel {
                key: SecurityKey::NoNewPrivileges,
                value: bool_spelling(*b),
            },
            SecurityOption::SeccompProfile(v) => SecurityModel { key: SecurityKey::SeccompProfile, value: v@ },
            SecurityOption::SecurityLabelDisable(b) => SecurityModel {
                key: SecurityKey::SecurityLabelDisable,
                value: bool_spelling(*b),
            },
            SecurityOption::SecurityLabelFileType(v) => SecurityModel {
                key: SecurityKey::SecurityLabelFileType,
                value: v@,
            },
            SecurityOption::SecurityLabelLevel(v) => SecurityModel { key: SecurityKey::SecurityLabelLevel, value: v@ },
            SecurityOption::SecurityLabelNested(b) => SecurityModel {
                key: SecurityKey::SecurityLabelNested,
                value: bool_spelling(*b),
            },
            SecurityOption::SecurityLabelType(v) => SecurityModel { key: SecurityKey::SecurityLabelType, value: v@ },
            SecurityOption::Mask(v) => SecurityModel { key: SecurityKey::Mask, value: v@ },
            SecurityOption::Unmask(v) => SecurityModel { key: SecurityKey::Unmask, value: v@ },
        }
    }
}

/// Whether a key may be given at most once: every key but `Mask` and `Unmask`.
pub open spec fn singleton_key(key: SecurityKey) -> bool {
    key != SecurityKey::Mask && key != SecurityKey::Unmask
}

/// The native key name of a security key.
pub open spec fn key_name(key: SecurityKey) -> Seq<char> {
    match key {
        SecurityKey::AppArmor => seq!['A', 'p', 'p', 'A', 'r', 'm', 'o', 'r'],
        SecurityKey::NoNewPrivileges => seq![
            'N', 'o', 'N', 'e', 'w', 'P', 'r', 'i', 'v', 'i', 'l', 'e', 'g', 'e', 's',
        ],
        SecurityKey::SeccompProfile => seq!['S', 'e', 'c', 'c', 'o', 'm', 'p', 'P', 'r', 'o', 'f', 'i', 'l', 'e'],
        SecurityKey::SecurityLabelDisable => seq![
            'S', 'e', 'c', 'u', 'r', 'i', 't', 'y', 'L', 'a', 'b', 'e', 'l', 'D', 'i', 's', 'a', 'b', 'l', 'e',
        ],
        SecurityKey::SecurityLabelFileType => seq![
            'S', 'e', 'c', 'u', 'r', 'i', 't', 'y', 'L', 'a', 'b', 'e', 'l', 'F', 'i', 'l', 'e', 'T', 'y', 'p', 'e',
        ],
        SecurityKey::SecurityLabelLevel => seq![
            'S', 'e', 'c', 'u', 'r', 'i', 't', 'y', 'L', 'a', 'b', 'e', 'l', 'L', 'e', 'v', 'e', 'l',
        ],
        SecurityKey::SecurityLabelNested => seq![
            'S', 'e', 'c', 'u', 'r', 'i', 't', 'y', 'L', 'a', 'b', 'e', 'l', 'N', 'e', 's', 't', 'e', 'd',
        ],
        SecurityKey::SecurityLabelType => seq![
            'S', 'e', 'c', 'u', 'r', 'i', 't', 'y', 'L', 'a', 'b', 'e', 'l', 'T', 'y', 'p', 'e',
        ],
        SecurityKey::Mask => seq!['M', 'a', 's', 'k'],
        SecurityKey::Unmask => seq!['U', 'n', 'm', 'a', 's', 'k'],
    }
}

/// The capability a key needs: `quadlet.container.` followed by the key name in kebab case.
pub open spec fn key_capability(key: SecurityKey) -> Seq<char> {
    seq!['q', 'u', 'a', 'd', 'l', 'e', 't', '.', 'c', 'o', 'n', 't', 'a', 'i', 'n', 'e', 'r', '.'] + match key {
        SecurityKey::AppArmor => seq!['a', 'p', 'p', 'a', 'r', 'm', 'o', 'r'],
        SecurityKey::NoNewPrivileges => seq![
            'n', 'o', '-', 'n', 'e', 'w', '-', 'p', 'r', 'i', 'v', 'i', 'l', 'e', 'g', 'e', 's',
        ],
        SecurityKey::SeccompProfile => seq!['s', 'e', 'c', 'c', 'o', 'm', 'p', '-', 'p', 'r', 'o', 'f', 'i', 'l', 'e'],
        SecurityKey::SecurityLabelDisable => seq![
            's', 'e', 'c', 'u', 'r', 'i', 't', 'y', '-', 'l', 'a', 'b', 'e', 'l', '-', 'd', 'i', 's', 'a', 'b', 'l', 'e',
        ],
        SecurityKey::SecurityLabelFileType => seq![
            's', 'e', 'c', 'u', 'r', 'i', 't', 'y', '-', 'l', 'a', 'b', 'e', 'l', '-', 'f', 'i', 'l', 'e', '-', 't',
            'y', 'p', 'e',
        ],
        SecurityKey::SecurityLabelLevel => seq![
            's', 'e', 'c', 'u', 'r', 'i', 't', 'y', '-', 'l', 'a', 'b', 'e', 'l', '-', 'l', 'e', 'v', 'e', 'l',
        ],
        SecurityKey::SecurityLabelNested => seq![
            's', 'e', 'c', 'u', 'r', 'i', 't', 'y', '-', 'l', 'a', 'b', 'e', 'l', '-', 'n', 'e', 's', 't', 'e', 'd',
        ],
        SecurityKey::SecurityLabelType => seq![
            's', 'e', 'c', 'u', 'r', 'i', 't', 'y', '-', 'l', 'a', 'b', 'e', 'l', '-', 't', 'y', 'p', 'e',
        ],
        SecurityKey::Mask => seq!['m', 'a', 's', 'k'],
        SecurityKey::Unmask => seq!['u', 'n', 'm', 'a', 's', 'k'],
    }
}

/// Whether an option sets an SELinux label: file type, level, nesting, or process type.
pub open spec fn selinux_label_key(key: SecurityKey) -> bool {
    ||| key == SecurityKey::SecurityLabelFileType
    ||| key == SecurityKey::SecurityLabelLevel
    ||| key == SecurityKey::SecurityLabelNested
    ||| key == SecurityKey::SecurityLabelType
}

impl SecurityOption {
    /// The key this option is written under.
    pub fn key(&self) -> (key: SecurityKey)
        ensures
            key == self@.key,
    {
        match self {
            SecurityOption::AppArmor(_) => SecurityKey::AppArmor,
            SecurityOption::NoNewPrivileges(_) => SecurityKey::NoNewPrivileges,
            SecurityOption::SeccompProfile(_) => SecurityKey::SeccompProfile,
            SecurityOption::SecurityLabelDisable(_) => SecurityKey::SecurityLabelDisable,
            SecurityOption::SecurityLabelFileType(_) => SecurityKey::SecurityLabelFileType,
            SecurityOption::SecurityLabelLevel(_) => SecurityKey::SecurityLabelLevel,
            SecurityOption::SecurityLabelNested(_) => SecurityKey::SecurityLabelNested,
            SecurityOption::SecurityLabelType(_) => SecurityKey::SecurityLabelType,
            SecurityOption::Mask(_) => SecurityKey::Mask,
            SecurityOption::Unmask(_) => SecurityKey::Unmask,
        }
    }
}

/// The native key name of an option that may be given at most once; `None` for `Mask` and
/// `Unmask`.
pub fn security_option_singleton_name(option: &SecurityOption) -> (name: Option<&'static str>)
    ensures
        match name {
            Some(n) => singleton_key(option@.key) && n@ == key_name(option@.key),
            None => !singleton_key(option@.key),
        },
{
    proof {
        reveal_strlit("AppArmor");
        reveal_strlit("NoNewPrivileges");
        reveal_strlit("SeccompProfile");
        reveal_strlit("SecurityLabelDisable");
        reveal_strlit("SecurityLabelFileType");
        reveal_strlit("SecurityLabelLevel");
        reveal_strlit("SecurityLabelNested");
        reveal_strlit("SecurityLabelType");
    }
    match option {
        SecurityOption::AppArmor(_) => Some("AppArmor"),
        SecurityOption::NoNewPrivileges(_) => Some("NoNewPrivileges"),
        SecurityOption::SeccompProfile(_) => Some("SeccompProfile"),
        SecurityOption::SecurityLabelDisable(_) => Some("SecurityLabelDisable"),
        SecurityOption::SecurityLabelFileType(_) => Some("SecurityLabelFileType"),
        SecurityOption::SecurityLabelLevel(_) => Some("SecurityLabelLevel"),
        SecurityOption::SecurityLabelNested(_) => Some("SecurityLabelNested"),
        SecurityOption::SecurityLabelType(_) => Some("SecurityLabelType"),
        _ => None,
    }
}

/// Whether an option sets an SELinux label.
pub fn security_option_is_selinux_label(option: &SecurityOption) -> (b: bool)
    ensures
        b == selinux_label_key(option@.key),
{
    match option {
        SecurityOption::SecurityLabelFileType(_) | SecurityOption::SecurityLabelLevel(_)
        | SecurityOption::SecurityLabelNested(_) | SecurityOption::SecurityLabelType(_) => true,
        _ => false,
    }
}

/// How an option is written: the capability it needs, its key, and its value; booleans are
/// written as `true` or `false`.
pub fn security_option_output(option: &SecurityOption) -> (output: (&'static str, SecurityKey, &str))
    ensures
        output.0@ == key_capability(option@.key),
        output.1 == option@.key,
        output.2@ == option@.value,
{
    proof {
        reveal_strlit("quadlet.container.apparmor");
        reveal_strlit("quadlet.container.no-new-privileges");
        reveal_strlit("quadlet.container.seccomp-profile");
        reveal_strlit("quadlet.container.security-label-disable");
        reveal_strlit("quadlet.container.security-label-file-type");
        reveal_strlit("quadlet.container.security-label-level");
        reveal_strlit("quadlet.container.security-label-nested");
        reveal_strlit("quadlet.container.security-label-type");
        reveal_strlit("quadlet.container.mask");
        reveal_strlit("quadlet.container.unmask");
    }
    let output = match option {
        SecurityOption::AppArmor(value) => ("quadlet.container.apparmor", SecurityKey::AppArmor, value.as_str()),
        SecurityOption::NoNewPrivileges(value) => (
            "quadlet.container.no-new-privileges",
            SecurityKey::NoNewPrivileges,
            bool_text(*value),
        ),
        SecurityOption::SeccompProfile(value) => (
            "quadlet.container.seccomp-profile",
            SecurityKey::SeccompProfile,
            value.as_str(),
        ),
        SecurityOption::SecurityLabelDisable(value) => (
            "quadlet.container.security-label-disable",
            SecurityKey::SecurityLabelDisable,
            bool_text(*value),
        ),
        SecurityOption::SecurityLabelFileType(value) => (
            "quadlet.container.security-label-file-type",
            SecurityKey::SecurityLabelFileType,
            value.as_str(),
        ),
        SecurityOption::SecurityLabelLevel(value) => (
            "quadlet.container.security-label-level",
            SecurityKey::SecurityLabelLevel,
            value.as_str(),
        ),
        SecurityOption::SecurityLabelNested(value) => (
            "quadlet.container.security-label-nested",
            SecurityKey::SecurityLabelNested,
            bool_text(*value),
        ),
        SecurityOption::SecurityLabelType(value) => (
            "quadlet.container.security-label-type",
            SecurityKey::SecurityLabelType,
            value.as_str(),
        ),
        SecurityOption::Mask(value) => ("quadlet.container.mask", SecurityKey::Mask, value.as_str()),
        SecurityOption::Unmask(value) => ("quadlet.container.unmask", SecurityKey::Unmask, value.as_str()),
    };
    proof {
        assert(output.0@ =~= key_capability(option@.key));
    }
    output
}

/// Whether a key takes a boolean.
pub open spec fn boolean_key(key: SecurityKey) -> bool {
    key == SecurityKey::NoNewPrivileges || key == SecurityKey::SecurityLabelDisable || key
        == SecurityKey::SecurityLabelNested
}

/// Why a boolean key's value was not read.
pub open spec fn boolean_reason(key: SecurityKey) -> Seq<char> {
    match key {
        SecurityKey::NoNewPrivileges => "NoNewPrivileges must use a supported systemd boolean spelling"@,
        SecurityKey::SecurityLabelDisable => "SecurityLabelDisable must use a supported systemd boolean spelling"@,
        _ => "SecurityLabelNested must use a supported systemd boolean spelling"@,
    }
}

/// What a security entry with key `key` and value `value` reads as: nothing when the value is
/// continued over several lines or is not a safe security-option value, or when a boolean key
/// holds no supported boolean spelling; otherwise the option, a boolean read as its canonical
/// spelling.
pub open spec fn security_reading(key: SecurityKey, value: Seq<char>, continued: bool) -> Result<SecurityModel, Seq<char>> {
    if continued {
        Err("security-option continuation requires native semantic decoding before import"@)
    } else if !safe_security_option_value(value) {
        Err("security-option must be a non-empty unquoted physical line without systemd specifiers"@)
    } else if boolean_key(key) {
        match security_option_boolean(value) {
            Some(b) => Ok(SecurityModel { key, value: bool_spelling(b) }),
            None => Err(boolean_reason(key)),
        }
    } else {
        Ok(SecurityModel { key, value })
    }
}

/// Reads a security entry with key `key` and value `value`, `continued` when the value runs
/// over several lines.
pub fn read_security_option(key: SecurityKey, value: &str, continued: bool) -> (read: Result<SecurityOption, &'static str>)
    ensures
        match read {
            Ok(option) => security_reading(key, value@, continued) == Ok::<SecurityModel, Seq<char>>(option@),
            Err(reason) => security_reading(key, value@, continued) == Err::<SecurityModel, Seq<char>>(reason@),
        },
{
    if continued {
        return Err("security-option continuation requires native semantic decoding before import");
    }
    if !is_safe_security_option_value(value) {
        return Err("security-option must be a non-empty unquoted physical line without systemd specifiers");
    }
    let text = value.to_string();
    match key {
        SecurityKey::NoNewPrivileges => match parse_security_option_boolean(value) {
            Some(b) => Ok(SecurityOption::NoNewPrivileges(b)),
            None => Err("NoNewPrivileges must use a supported systemd boolean spelling"),
        },
        SecurityKey::SecurityLabelDisable => match parse_security_option_boolean(value) {
            Some(b) => Ok(SecurityOption::SecurityLabelDisable(b)),
            None => Err("SecurityLabelDisable must use a supported systemd boolean spelling"),
        },
        SecurityKey::SecurityLabelNested => match parse_security_option_boolean(value) {
            Some(b) => Ok(SecurityOption::SecurityLabelNested(b)),
            None => Err("SecurityLabelNested must use a supported systemd boolean spelling"),
        },
        SecurityKey::AppArmor => Ok(SecurityOption::AppArmor(text)),
        SecurityKey::SeccompProfile => Ok(SecurityOption::SeccompProfile(text)),
        SecurityKey::SecurityLabelFileType => Ok(SecurityOption::SecurityLabelFileType(text)),
        SecurityKey::SecurityLabelLevel => Ok(SecurityOption::SecurityLabelLevel(text)),
        SecurityKey::SecurityLabelType => Ok(SecurityOption::SecurityLabelType(text)),
        SecurityKey::Mask => Ok(SecurityOption::Mask(text)),
        SecurityKey::Unmask => Ok(SecurityOption::Unmask(text)),
    }
}

/// A security option written as an entry reads back as itself: when its written value is a
/// safe security-option value, reading the key and value that [`security_option_output`]
/// gives, on one line, yields the same option.
pub proof fn lemma_security_option_reads_back(option: SecurityModel)
    requires
        safe_security_option_value(option.value),
        boolean_key(option.key) ==> (option.value == bool_spelling(true) || option.value == bool_spelling(false)),
    ensures
        security_reading(option.key, option.value, false) == Ok::<SecurityModel, Seq<char>>(option),
{
    if boolean_key(option.key) {
        lemma_bool_spelling_reads_back(true);
        lemma_bool_spelling_reads_back(false);
    }
}

// ---------------------------------------------------------------------------------------------
// Devices
// ---------------------------------------------------------------------------------------------

/// A neutral device: a short `source[:target[:permissions]]` spelling, or its parts.
#[derive(Clone, Debug, PartialEq, Eq)]
pub enum Device {
    Short(String),
    Long { source: Option<String>, target: Option<String>, permissions: Option<String> },
}

/// Mathematical model of a [`Device`].
pub enum DeviceModel {
    Short(Seq<char>),
    Long { source: Option<Seq<char>>, target: Option<Seq<char>>, permissions: Option<Seq<char>> },
}

/// The view of an optional string.
pub open spec fn opt_view(s: Option<String>) -> Option<Seq<char>> {
    match s {
        Some(v) => Some(v@),
        None => None,
    }
}

impl View for Device {
    type V = DeviceModel;

    open spec fn view(&self) -> DeviceModel {
        match self {
            Device::Short(v) => DeviceModel::Short(v@),
            Device::Long { source, target, permissions } => DeviceModel::Long {
                source: opt_view(*source),
                target: opt_view(*target),
                permissions: opt_view(*permissions),
            },
        }
    }
}

/// `[':'] + v` when `v` is present, else nothing.
pub open spec fn colon_part(v: Option<Seq<char>>) -> Seq<char> {
    match v {
        Some(t) => seq![':'] + t,
        None => Seq::empty(),
    }
}

/// The `AddDevice=` spelling of a device whose every part is accepted: a short spelling as
/// written, or `source[:target[:permissions]]` built from its parts; permissions need a target.
pub open spec fn reviewed_device_text(device: DeviceModel) -> Option<Seq<char>> {
    match device {
        DeviceModel::Short(v) => if reviewed_device(v) {
            Some(v)
        } else {
            None
        },
        DeviceModel::Long { source, target, permissions } => match source {
            None => None,
            Some(src) => if !reviewed_device_component(src) || (target is Some && !reviewed_device_component(
                target->Some_0,
            )) || (permissions is Some && !reviewed_device_permissions(permissions->Some_0)) || (
            permissions is Some && target is None) {
                None
            } else {
                Some(src + colon_part(target) + colon_part(permissions))
            },
        },
    }
}

/// The accepted `AddDevice=` spelling of a device, if every part is accepted.
pub fn reviewed_device_value(device: &Device) -> (value: Option<String>)
    ensures
        match value {
            Some(v) => reviewed_device_text(device@) == Some(v@),
            None => reviewed_device_text(device@) is None,
        },
{
    match device {
        Device::Short(value) => reviewed_device_spelling(value.as_str()),
        Device::Long { source, target, permissions } => {
            let source = match source {
                Some(s) => s,
                None => {
                    return None;
                },
            };
            if !is_reviewed_device_component(source.as_str()) {
                return None;
            }
            if let Some(t) = target {
                if !is_reviewed_device_component(t.as_str()) {
                    return None;
                }
            }
            if let Some(p) = permissions {
                if !is_reviewed_device_permissions(p.as_str()) {
                    return None;
                }
            }
            let mut rendered: Vec<char> = Vec::new();
            push_chars(&mut rendered, chars_of(source.as_str()).as_slice());
            if let Some(t) = target {
                rendered.push(':');
                push_chars(&mut rendered, chars_of(t.as_str()).as_slice());
            }
            if let Some(p) = permissions {
                if target.is_none() {
                    return None;
                }
                rendered.push(':');
                push_chars(&mut rendered, chars_of(p.as_str()).as_slice());
            }
            assert(rendered@ =~= source@ + colon_part(opt_view(*target)) + colon_part(opt_view(*permissions)));
            Some(string_from(rendered.as_slice()))
        },
    }
}

proof fn lemma_component_has_no_colon(s: Seq<char>)
    requires
        reviewed_device_component(s),
    ensures
        !has_char(s, ':'),
{
    if has_char(s, ':') {
        let i = choose|i: int| 0 <= i < s.len() && s[i] == ':';
        assert(crate::charset::in_set(Charset::DeviceForbidden, s[i]));
    }
}

/// A device given by its accepted parts is written as a short spelling that passes the same
/// test: both spellings of a device are accepted or refused alike.
pub proof fn lemma_device_spellings_agree(source: Seq<char>, target: Option<Seq<char>>, permissions: Option<Seq<char>>)
    requires
        reviewed_device_text(DeviceModel::Long { source: Some(source), target, permissions }) is Some,
    ensures
        reviewed_device(reviewed_device_text(DeviceModel::Long { source: Some(source), target, permissions })->Some_0),
{
    let text = source + colon_part(target) + colon_part(permissions);
    lemma_component_has_no_colon(source);
    crate::text::lemma_split_single(source, ':');
    match target {
        None => {
            assert(text =~= source);
        },
        Some(t) => {
            lemma_component_has_no_colon(t);
            crate::text::lemma_split_single(t, ':');
            crate::text::lemma_split_concat(source, t, ':');
            match permissions {
                None => {
                    assert(text =~= source + seq![':'] + t);
                    assert(split(text, ':') =~= seq![source, t]);
                },
                Some(p) => {
                    assert(!has_char(p, ':')) by {
                        if has_char(p, ':') {
                            let i = choose|i: int| 0 <= i < p.len() && p[i] == ':';
                            assert(crate::charset::in_set(Charset::DevicePermission, p[i]));
                        }
                    }
                    crate::text::lemma_split_single(p, ':');
                    crate::text::lemma_split_concat(source + seq![':'] + t, p, ':');
                    assert(text =~= (source + seq![':'] + t) + seq![':'] + p);
                    assert(split(text, ':') =~= seq![source, t, p]);
                },
            }
        },
    }
}

} // verus!
