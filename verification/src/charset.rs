//! Named character sets of the accepted Quadlet value grammars.

use vstd::prelude::*;
use crate::text::{alnum, digit, is_alnum, is_ascii_space, is_digit, is_upper, is_white_space, lower, upper, white_space};

verus! {

/// A finite set of characters admitted (or refused) by one value grammar.
#[derive(Clone, Copy, Debug, PartialEq, Eq)]
pub enum Charset {
    /// Letters, digits, `.`, `_`, `-`.
    Atom,
    /// Letters, digits, `_`.
    EnvironmentName,
    /// Letters, digits, `_ - . / : @ + = ,`.
    Word,
    /// Letters, digits, `. _ - /`.
    LabelName,
    /// The word characters and `*`.
    SecurityValue,
    /// Letters, digits, `-`.
    HostLabel,
    /// Letters, digits, `_ - . / @ +`.
    ContainerPath,
    /// Letters, digits, `_ - . / @ + = %`.
    MountPart,
    /// Letters, digits, `_ - . / : @ +`.
    EnvironmentFilePath,
    /// Letters, digits, `_ . -`.
    SysctlName,
    /// Letters, digits, `_ . - / :`.
    SysctlValue,
    /// Uppercase letters, digits, `_`.
    Capability,
    /// Uppercase letters and digits.
    SignalName,
    /// `r`, `w`, `m`.
    DevicePermission,
    /// Space and the word characters.
    HealthShell,
    /// Digits and `.`.
    Ipv4Spelling,
    /// Lowercase letters.
    Lowercase,
    /// Lowercase letters, digits, `_`.
    UlimitName,
    /// `NUL`, line feed, carriage return, `%`.
    HealthForbidden,
    /// `NUL`, line feed, carriage return, `%`, quotes, backslash, ASCII whitespace.
    NetworkForbidden,
    /// `NUL`, line feed, carriage return.
    LineBreak,
    /// `$ % :`, `NUL`, carriage return, line feed, and `White_Space`.
    DeviceForbidden,
}

/// Membership of `c` in `set`.
pub open spec fn in_set(set: Charset, c: char) -> bool {
    match set {
        Charset::Atom => is_alnum(c) || c == '.' || c == '_' || c == '-',
        Charset::EnvironmentName => is_alnum(c) || c == '_',
        Charset::Word => is_alnum(c) || c == '_' || c == '-' || c == '.' || c == '/' || c == ':' || c == '@'
            || c == '+' || c == '=' || c == ',',
        Charset::LabelName => is_alnum(c) || c == '.' || c == '_' || c == '-' || c == '/',
        Charset::SecurityValue => is_alnum(c) || c == '_' || c == '-' || c == '.' || c == '/' || c == ':'
            || c == '@' || c == '+' || c == '=' || c == ',' || c == '*',
        Charset::HostLabel => is_alnum(c) || c == '-',
        Charset::ContainerPath => is_alnum(c) || c == '_' || c == '-' || c == '.' || c == '/' || c == '@'
            || c == '+',
        Charset::MountPart => is_alnum(c) || c == '_' || c == '-' || c == '.' || c == '/' || c == '@' || c
            == '+' || c == '=' || c == '%',
        Charset::EnvironmentFilePath => is_alnum(c) || c == '_' || c == '-' || c == '.' || c == '/' || c
            == ':' || c == '@' || c == '+',
        Charset::SysctlName => is_alnum(c) || c == '_' || c == '.' || c == '-',
        Charset::SysctlValue => is_alnum(c) || c == '_' || c == '.' || c == '-' || c == '/' || c == ':',
        Charset::Capability => is_upper(c) || is_digit(c) || c == '_',
        Charset::SignalName => is_upper(c) || is_digit(c),
        Charset::DevicePermission => c == 'r' || c == 'w' || c == 'm',
        Charset::HealthShell => c == ' ' || is_alnum(c) || c == '_' || c == '-' || c == '.' || c == '/' || c
            == ':' || c == '@' || c == '+' || c == '=' || c == ',',
        Charset::Ipv4Spelling => is_digit(c) || c == '.',
        Charset::Lowercase => 'a' <= c && c <= 'z',
        Charset::UlimitName => ('a' <= c && c <= 'z') || is_digit(c) || c == '_',
        Charset::HealthForbidden => c == '\0' || c == '\n' || c == '\r' || c == '%',
        Charset::NetworkForbidden => c == '\0' || c == '\n' || c == '\r' || c == '%' || c == '\'' || c == '"'
            || c == '\\' || is_ascii_space(c),
        Charset::LineBreak => c == '\0' || c == '\n' || c == '\r',
        Charset::DeviceForbidden => c == '$' || c == '%' || c == ':' || c == '\0' || c == '\r' || c == '\n'
            || is_white_space(c),
    }
}

/// Every character of `s` lies in `set`.
pub open spec fn all_in(s: Seq<char>, set: Charset) -> bool {
    forall|i: int| 0 <= i < s.len() ==> in_set(set, #[trigger] s[i])
}

/// No character of `s` lies in `set`.
pub open spec fn none_in(s: Seq<char>, set: Charset) -> bool {
    forall|i: int| 0 <= i < s.len() ==> !in_set(set, #[trigger] s[i])
}

/// Whether `c` lies in `set`.
pub fn set_has(set: Charset, c: char) -> (b: bool)
    ensures
        b == in_set(set, c),
{
    match set {
        Charset::Atom => alnum(c) || c == '.' || c == '_' || c == '-',
        Charset::EnvironmentName => alnum(c) || c == '_',
        Charset::Word => alnum(c) || c == '_' || c == '-' || c == '.' || c == '/' || c == ':' || c == '@' || c
            == '+' || c == '=' || c == ',',
        Charset::LabelName => alnum(c) || c == '.' || c == '_' || c == '-' || c == '/',
        Charset::SecurityValue => alnum(c) || c == '_' || c == '-' || c == '.' || c == '/' || c == ':' || c
            == '@' || c == '+' || c == '=' || c == ',' || c == '*',
        Charset::HostLabel => alnum(c) || c == '-',
        Charset::ContainerPath => alnum(c) || c == '_' || c == '-' || c == '.' || c == '/' || c == '@' || c
            == '+',
        Charset::MountPart => alnum(c) || c == '_' || c == '-' || c == '.' || c == '/' || c == '@' || c == '+'
            || c == '=' || c == '%',
        Charset::EnvironmentFilePath => alnum(c) || c == '_' || c == '-' || c == '.' || c == '/' || c == ':'
            || c == '@' || c == '+',
        Charset::SysctlName => alnum(c) || c == '_' || c == '.' || c == '-',
        Charset::SysctlValue => alnum(c) || c == '_' || c == '.' || c == '-' || c == '/' || c == ':',
        Charset::Capability => upper(c) || digit(c) || c == '_',
        Charset::SignalName => upper(c) || digit(c),
        Charset::DevicePermission => c == 'r' || c == 'w' || c == 'm',
        Charset::HealthShell => c == ' ' || alnum(c) || c == '_' || c == '-' || c == '.' || c == '/' || c == ':'
            || c == '@' || c == '+' || c == '=' || c == ',',
        Charset::Ipv4Spelling => digit(c) || c == '.',
        Charset::Lowercase => lower(c),
        Charset::UlimitName => lower(c) || digit(c) || c == '_',
        Charset::HealthForbidden => c == '\0' || c == '\n' || c == '\r' || c == '%',
        Charset::NetworkForbidden => c == '\0' || c == '\n' || c == '\r' || c == '%' || c == '\'' || c == '"'
            || c == '\\' || c == ' ' || c == '\t' || c == '\u{0c}',
        Charset::LineBreak => c == '\0' || c == '\n' || c == '\r',
        Charset::DeviceForbidden => c == '$' || c == '%' || c == ':' || c == '\0' || c == '\r' || c == '\n'
            || white_space(c),
    }
}

/// Whether every character of `s` lies in `set`.
pub fn all_chars_in(s: &[char], set: Charset) -> (b: bool)
    ensures
        b == all_in(s@, set),
{
    let mut i: usize = 0;
    while i < s.len()
        invariant
            i <= s.len(),
            forall|j: int| 0 <= j < i ==> in_set(set, #[trigger] s@[j]),
        decreases s.len() - i,
    {
        if !set_has(set, s[i]) {
            return false;
        }
        i += 1;
    }
    true
}

/// Whether no character of `s` lies in `set`.
pub fn no_char_in(s: &[char], set: Charset) -> (b: bool)
    ensures
        b == none_in(s@, set),
{
    let mut i: usize = 0;
    while i < s.len()
        invariant
            i <= s.len(),
            forall|j: int| 0 <= j < i ==> !in_set(set, #[trigger] s@[j]),
        decreases s.len() - i,
    {
        if set_has(set, s[i]) {
            return false;
        }
        i += 1;
    }
    true
}

} // verus!
