//! Conservative spellings that cross the Quadlet boundary without quoting or interpretation.

use vstd::prelude::*;
use crate::charset::{Charset, all_chars_in, all_in, no_char_in, none_in};
use crate::number::{parse_unsigned, parse_unsigned_spec};
use crate::text::{
    alnum, chars_of, contains_char, has_char, is_alnum, is_alpha, is_digit, is_trimmed, is_upper, split,
    split_chars, starts_with, trimmed, upper,
};

verus! {

broadcast use vstd::string::group_string_axioms;

// ---------------------------------------------------------------------------------------------
// Specifications
// ---------------------------------------------------------------------------------------------

/// Non-empty, starts and ends with a letter or digit, otherwise letters, digits, `.`, `_`, `-`.
pub open spec fn native_atom(s: Seq<char>) -> bool {
    s.len() > 0 && is_alnum(s[0]) && is_alnum(s.last()) && all_in(s, Charset::Atom)
}

/// A POSIX-style environment variable name.
pub open spec fn environment_name(s: Seq<char>) -> bool {
    s.len() > 0 && (is_alpha(s[0]) || s[0] == '_') && all_in(s, Charset::EnvironmentName)
}

/// A health-check scalar: non-empty, trimmed, without `NUL`, line breaks or `%`.
pub open spec fn safe_health_scalar(s: Seq<char>) -> bool {
    s.len() > 0 && is_trimmed(s) && none_in(s, Charset::HealthForbidden)
}

/// An unquoted word of the accepted option grammar.
pub open spec fn safe_word(s: Seq<char>, allow_empty: bool) -> bool {
    (allow_empty || s.len() > 0) && all_in(s, Charset::Word)
}

/// A network scalar that needs neither quoting nor escaping.
pub open spec fn safe_network_scalar(s: Seq<char>, allow_empty: bool) -> bool {
    (allow_empty || s.len() > 0) && is_trimmed(s) && none_in(s, Charset::NetworkForbidden)
}

/// A `name=value` network option whose parts are safe network scalars.
pub open spec fn safe_network_assignment(name: Seq<char>, value: Seq<char>) -> bool {
    name.len() > 0 && !has_char(name, '=') && safe_network_scalar(name, false) && safe_network_scalar(
        value,
        true,
    )
}

/// A metadata label name.
pub open spec fn label_name(s: Seq<char>) -> bool {
    s.len() > 0 && is_alnum(s[0]) && is_alnum(s.last()) && all_in(s, Charset::LabelName)
}

/// A non-empty security option value of the accepted character set.
pub open spec fn safe_security_option_value(s: Seq<char>) -> bool {
    s.len() > 0 && all_in(s, Charset::SecurityValue)
}

/// One DNS label: 1 to 63 letters, digits or `-`, starting and ending with a letter or digit.
pub open spec fn host_label(s: Seq<char>) -> bool {
    s.len() > 0 && s.len() <= 63 && is_alnum(s[0]) && is_alnum(s.last()) && all_in(s, Charset::HostLabel)
}

/// An ASCII hostname of at most 253 characters whose dot-separated labels are DNS labels.
pub open spec fn safe_hostname(s: Seq<char>) -> bool {
    &&& s.len() > 0
    &&& s.len() <= 253
    &&& forall|k: int| 0 <= k < split(s, '.').len() ==> host_label(#[trigger] split(s, '.')[k])
}

/// An absolute container path without `%`, `..` segments or characters that need quoting.
pub open spec fn safe_absolute_container_path(s: Seq<char>) -> bool {
    &&& s.len() > 0
    &&& s[0] == '/'
    &&& !has_char(s, '%')
    &&& forall|k: int| 0 <= k < split(s, '/').len() ==> #[trigger] split(s, '/')[k] != seq!['.', '.']
    &&& all_in(s, Charset::ContainerPath)
}

/// The text after the first occurrence of `sep`, when there is one.
pub open spec fn after_first(s: Seq<char>, sep: char) -> Option<Seq<char>> {
    if split(s, sep).len() == 1 {
        None
    } else {
        Some(s.skip(split(s, sep)[0].len() as int + 1))
    }
}

/// A tmpfs value: a safe absolute container path, optionally followed by `:` and a non-empty
/// comma-separated list of safe words that contain neither `:` nor `%`.
pub open spec fn safe_tmpfs(s: Seq<char>) -> bool {
    &&& safe_absolute_container_path(split(s, ':')[0])
    &&& match after_first(s, ':') {
        None => true,
        Some(options) => options.len() > 0 && forall|k: int|
            0 <= k < split(options, ',').len() ==> {
                let option = #[trigger] split(options, ',')[k];
                safe_word(option, false) && !has_char(option, ':') && !has_char(option, '%')
            },
    }
}

/// A kernel parameter assignment accepted by the generated unit.
pub open spec fn safe_sysctl(name: Seq<char>, value: Seq<char>) -> bool {
    name.len() > 0 && !has_char(name, '=') && safe_word(name, false) && safe_word(value, true)
}

/// A resource limit: `-1`, `0`, or a positive decimal without a leading zero that fits `u64`.
pub open spec fn safe_limit_value(s: Seq<char>) -> bool {
    ||| s =~= seq!['-', '1']
    ||| s =~= seq!['0']
    ||| !(s.len() > 0 && s[0] == '0') && (parse_unsigned_spec(s, u64::MAX as int) matches Some(v) && v > 0)
}

/// A lowercase resource name with safe soft and hard limits.
pub open spec fn safe_ulimit(name: Seq<char>, soft: Seq<char>, hard: Seq<char>) -> bool {
    name.len() > 0 && all_in(name, Charset::Lowercase) && safe_limit_value(soft) && safe_limit_value(hard)
}

/// `SIG` followed by an uppercase letter and then uppercase letters or digits.
pub open spec fn signal_name(s: Seq<char>) -> bool {
    let name = s.skip(3);
    starts_with(s, seq!['S', 'I', 'G']) && name.len() > 0 && is_upper(name[0]) && all_in(
        name,
        Charset::SignalName,
    )
}

/// A signal: a canonical number from 1 to 64 or a `SIG`-prefixed name.
pub open spec fn safe_signal(s: Seq<char>) -> bool {
    ||| (parse_unsigned_spec(s, u8::MAX as int) matches Some(n) && 1 <= n <= 64) && (s =~= seq!['0'] || !(
        s.len() > 0 && s[0] == '0'))
    ||| signal_name(s)
}

/// A device path component: `/dev/` followed by ASCII text without separators, specifiers,
/// control characters, whitespace, or `.`/`..` segments.
pub open spec fn reviewed_device_component(s: Seq<char>) -> bool {
    &&& starts_with(s, seq!['/', 'd', 'e', 'v', '/'])
    &&& s.len() > 5
    &&& forall|i: int| 0 <= i < s.len() ==> #[trigger] s[i] <= '\u{7f}'
    &&& none_in(s, Charset::DeviceForbidden)
    &&& forall|k: int|
        0 <= k < split(s, '/').len() ==> #[trigger] split(s, '/')[k] != seq!['.'] && split(s, '/')[k]
            != seq!['.', '.']
}

/// Non-empty device permissions of distinct `r`, `w`, `m` characters.
pub open spec fn reviewed_device_permissions(s: Seq<char>) -> bool {
    s.len() > 0 && all_in(s, Charset::DevicePermission) && s.no_duplicates()
}

/// A device spelling `source[:target[:permissions]]` of accepted components.
pub open spec fn reviewed_device(s: Seq<char>) -> bool {
    let parts = split(s, ':');
    &&& parts.len() <= 3
    &&& reviewed_device_component(parts[0])
    &&& parts.len() >= 2 ==> reviewed_device_component(parts[1])
    &&& parts.len() == 3 ==> reviewed_device_permissions(parts[2])
}

/// A Linux capability name, optionally prefixed by `CAP_`.
pub open spec fn safe_capability(s: Seq<char>) -> bool {
    let name = if starts_with(s, seq!['C', 'A', 'P', '_']) { s.skip(4) } else { s };
    name.len() > 0 && is_upper(name[0]) && all_in(name, Charset::Capability)
}

/// `0` or a positive decimal without a leading zero.
pub open spec fn canonical_nonnegative_seconds(s: Seq<char>) -> bool {
    s =~= seq!['0'] || (s.len() > 0 && s[0] != '0' && forall|i: int|
        0 <= i < s.len() ==> is_digit(#[trigger] s[i]))
}

/// A Podman container name: a letter or digit, then letters, digits, `_`, `.`, `-`.
pub open spec fn podman_container_name(s: Seq<char>) -> bool {
    s.len() > 0 && is_alnum(s[0]) && all_in(s, Charset::Atom)
}

/// A label owned by Compose's own bookkeeping.
pub open spec fn compose_managed_label(name: Seq<char>) -> bool {
    starts_with(
        name,
        seq!['c', 'o', 'm', '.', 'd', 'o', 'c', 'k', 'e', 'r', '.', 'c', 'o', 'm', 'p', 'o', 's', 'e', '.'],
    )
}

/// A secret name or option value: a non-empty safe word without `,` or `=`.
pub open spec fn safe_secret_component(s: Seq<char>) -> bool {
    safe_word(s, false) && !has_char(s, ',') && !has_char(s, '=')
}

/// A non-empty mount part of the accepted character set.
pub open spec fn safe_mount_part(s: Seq<char>) -> bool {
    s.len() > 0 && all_in(s, Charset::MountPart)
}

/// A non-empty authored spelling without `NUL` or line breaks.
pub open spec fn valid_mapping_source(s: Seq<char>) -> bool {
    s.len() > 0 && none_in(s, Charset::LineBreak)
}

/// Non-empty digits and dots.
pub open spec fn ipv4_spelling(s: Seq<char>) -> bool {
    s.len() > 0 && all_in(s, Charset::Ipv4Spelling)
}

/// The number of leading ASCII digits.
pub open spec fn digit_prefix_len(s: Seq<char>) -> int
    decreases s.len(),
{
    if s.len() == 0 || !is_digit(s[0]) {
        0
    } else {
        1 + digit_prefix_len(s.drop_first())
    }
}

/// A positive decimal without a leading zero that fits `u64`.
pub open spec fn positive_canonical_decimal(s: Seq<char>) -> bool {
    !(s.len() > 0 && s[0] == '0') && (parse_unsigned_spec(s, u64::MAX as int) matches Some(v) && v > 0)
}

/// `0` or a positive canonical decimal.
pub open spec fn canonical_decimal(s: Seq<char>) -> bool {
    s =~= seq!['0'] || positive_canonical_decimal(s)
}

/// A positive canonical amount followed by nothing or one of `b`, `k`, `m`, `g`.
pub open spec fn positive_canonical_size(s: Seq<char>) -> bool {
    let k = digit_prefix_len(s);
    let suffix = s.skip(k);
    positive_canonical_decimal(s.take(k)) && (suffix.len() == 0 || (suffix.len() == 1 && (suffix[0] == 'b'
        || suffix[0] == 'k' || suffix[0] == 'm' || suffix[0] == 'g')))
}

/// A kernel parameter assignment as the native grammar reads it back.
pub open spec fn safe_sysctl_assignment(name: Seq<char>, value: Seq<char>) -> bool {
    name.len() > 0 && value.len() > 0 && !has_char(value, '=') && all_in(name, Charset::SysctlName)
        && all_in(value, Charset::SysctlValue)
}

/// A limit that the native grammar reads back: `-1` or a canonical decimal.
pub open spec fn native_limit(s: Seq<char>) -> bool {
    s =~= seq!['-', '1'] || canonical_decimal(s)
}

/// A resource limit assignment as the native grammar reads it back.
pub open spec fn safe_ulimit_assignment(name: Seq<char>, soft: Seq<char>, hard: Seq<char>) -> bool {
    name.len() > 0 && all_in(name, Charset::UlimitName) && !has_char(soft, ':') && !has_char(hard, ':')
        && native_limit(soft) && native_limit(hard)
}

/// `/dev/` followed by at least one character, as a safe absolute container path.
pub open spec fn safe_device_path(s: Seq<char>) -> bool {
    starts_with(s, seq!['/', 'd', 'e', 'v', '/']) && s.len() > 5 && safe_absolute_container_path(s)
}

/// A device value `path[:path[:permissions]]` as the native grammar reads it back.
pub open spec fn safe_device(s: Seq<char>) -> bool {
    let parts = split(s, ':');
    &&& 1 <= parts.len() <= 3
    &&& safe_device_path(parts[0])
    &&& parts.len() >= 2 ==> safe_device_path(parts[1])
    &&& parts.len() == 3 ==> reviewed_device_permissions(parts[2])
}

/// An absolute environment-file path without `%` or characters that need quoting.
pub open spec fn safe_absolute_environment_file_path(s: Seq<char>) -> bool {
    s.len() > 0 && s[0] == '/' && is_trimmed(s) && !has_char(s, '%') && all_in(
        s,
        Charset::EnvironmentFilePath,
    )
}

/// A plain health-check shell command: words separated by spaces.
pub open spec fn safe_health_shell_command(s: Seq<char>) -> bool {
    s.len() > 0 && is_trimmed(s) && all_in(s, Charset::HealthShell)
}

/// Non-empty ASCII digits.
pub open spec fn decimal(s: Seq<char>) -> bool {
    s.len() > 0 && forall|i: int| 0 <= i < s.len() ==> is_digit(#[trigger] s[i])
}

// ---------------------------------------------------------------------------------------------
// Character-level checks
// ---------------------------------------------------------------------------------------------

pub(crate) fn native_atom_chars(s: &[char]) -> (b: bool)
    ensures
        b == native_atom(s@),
{
    s.len() > 0 && alnum(s[0]) && alnum(s[s.len() - 1]) && all_chars_in(s, Charset::Atom)
}

pub(crate) fn safe_word_chars(s: &[char], allow_empty: bool) -> (b: bool)
    ensures
        b == safe_word(s@, allow_empty),
{
    (allow_empty || s.len() > 0) && all_chars_in(s, Charset::Word)
}

pub(crate) fn safe_network_scalar_chars(s: &[char], allow_empty: bool) -> (b: bool)
    ensures
        b == safe_network_scalar(s@, allow_empty),
{
    (allow_empty || s.len() > 0) && trimmed(s) && no_char_in(s, Charset::NetworkForbidden)
}

pub(crate) fn label_name_chars(s: &[char]) -> (b: bool)
    ensures
        b == label_name(s@),
{
    s.len() > 0 && alnum(s[0]) && alnum(s[s.len() - 1]) && all_chars_in(s, Charset::LabelName)
}

fn host_label_chars(s: &[char]) -> (b: bool)
    ensures
        b == host_label(s@),
{
    s.len() > 0 && s.len() <= 63 && alnum(s[0]) && alnum(s[s.len() - 1]) && all_chars_in(
        s,
        Charset::HostLabel,
    )
}

/// Whether `s` is exactly the two characters `..`.
fn is_parent_segment(s: &[char]) -> (b: bool)
    ensures
        b == (s@ == seq!['.', '.']),
{
    if s.len() == 2 && s[0] == '.' && s[1] == '.' {
        assert(s@ =~= seq!['.', '.']);
        true
    } else {
        false
    }
}

pub(crate) fn safe_absolute_container_path_chars(s: &[char]) -> (b: bool)
    ensures
        b == safe_absolute_container_path(s@),
{
    if !(s.len() > 0 && s[0] == '/') || contains_char(s, '%') {
        return false;
    }
    let parts = split_chars(s, '/');
    let mut k: usize = 0;
    while k < parts.len()
        invariant
            k <= parts@.len(),
            parts@.len() == split(s@, '/').len(),
            forall|j: int| 0 <= j < parts@.len() ==> #[trigger] parts@[j]@ == split(s@, '/')[j],
            forall|j: int| 0 <= j < k ==> #[trigger] split(s@, '/')[j] != seq!['.', '.'],
        decreases parts@.len() - k,
    {
        if is_parent_segment(parts[k].as_slice()) {
            assert(parts@[k as int]@ == split(s@, '/')[k as int]);
            return false;
        }
        k += 1;
    }
    all_chars_in(s, Charset::ContainerPath)
}

pub(crate) fn safe_mount_part_chars(s: &[char]) -> (b: bool)
    ensures
        b == safe_mount_part(s@),
{
    s.len() > 0 && all_chars_in(s, Charset::MountPart)
}

pub(crate) fn safe_secret_component_chars(s: &[char]) -> (b: bool)
    ensures
        b == safe_secret_component(s@),
{
    safe_word_chars(s, false) && !contains_char(s, ',') && !contains_char(s, '=')
}

pub(crate) fn positive_canonical_decimal_chars(s: &[char]) -> (b: bool)
    ensures
        b == positive_canonical_decimal(s@),
{
    if s.len() > 0 && s[0] == '0' {
        return false;
    }
    match parse_unsigned(s, u64::MAX) {
        Some(v) => v > 0,
        None => false,
    }
}

pub(crate) fn canonical_decimal_chars(s: &[char]) -> (b: bool)
    ensures
        b == canonical_decimal(s@),
{
    if s.len() == 1 && s[0] == '0' {
        assert(s@ =~= seq!['0']);
        return true;
    }
    assert(!(s@ =~= seq!['0']));
    positive_canonical_decimal_chars(s)
}

fn minus_one(s: &[char]) -> (b: bool)
    ensures
        b == (s@ =~= seq!['-', '1']),
{
    s.len() == 2 && s[0] == '-' && s[1] == '1'
}

fn safe_limit_value_chars(s: &[char]) -> (b: bool)
    ensures
        b == safe_limit_value(s@),
{
    if minus_one(s) || (s.len() == 1 && s[0] == '0') {
        return true;
    }
    if s.len() > 0 && s[0] == '0' {
        return false;
    }
    match parse_unsigned(s, u64::MAX) {
        Some(v) => v > 0,
        None => false,
    }
}

fn signal_name_chars(s: &[char]) -> (b: bool)
    ensures
        b == signal_name(s@),
{
    if !(s.len() >= 3 && s[0] == 'S' && s[1] == 'I' && s[2] == 'G') {
        proof {
            if starts_with(s@, seq!['S', 'I', 'G']) {
                assert(s@.take(3)[0] == 'S' && s@.take(3)[1] == 'I' && s@.take(3)[2] == 'G');
            }
        }
        return false;
    }
    assert(s@.take(3) =~= seq!['S', 'I', 'G']);
    let name = &s[3..s.len()];
    assert(name@ =~= s@.skip(3));
    name.len() > 0 && upper(name[0]) && all_chars_in(name, Charset::SignalName)
}

fn reviewed_device_component_chars(s: &[char]) -> (b: bool)
    ensures
        b == reviewed_device_component(s@),
{
    if !(s.len() > 5 && s[0] == '/' && s[1] == 'd' && s[2] == 'e' && s[3] == 'v' && s[4] == '/') {
        proof {
            if starts_with(s@, seq!['/', 'd', 'e', 'v', '/']) && s@.len() > 5 {
                let t = s@.take(5);
                assert(t[0] == '/' && t[1] == 'd' && t[2] == 'e' && t[3] == 'v' && t[4] == '/');
            }
        }
        return false;
    }
    assert(s@.take(5) =~= seq!['/', 'd', 'e', 'v', '/']);
    let mut i: usize = 0;
    while i < s.len()
        invariant
            i <= s.len(),
            forall|j: int| 0 <= j < i ==> #[trigger] s@[j] <= '\u{7f}',
        decreases s.len() - i,
    {
        if s[i] > '\u{7f}' {
            return false;
        }
        i += 1;
    }
    if !no_char_in(s, Charset::DeviceForbidden) {
        return false;
    }
    let parts = split_chars(s, '/');
    let mut k: usize = 0;
    while k < parts.len()
        invariant
            k <= parts@.len(),
            parts@.len() == split(s@, '/').len(),
            forall|j: int| 0 <= j < parts@.len() ==> #[trigger] parts@[j]@ == split(s@, '/')[j],
            forall|j: int|
                0 <= j < k ==> #[trigger] split(s@, '/')[j] != seq!['.'] && split(s@, '/')[j] != seq![
                    '.',
                    '.',
                ],
        decreases parts@.len() - k,
    {
        let part = parts[k].as_slice();
        assert(part@ == split(s@, '/')[k as int]);
        if part.len() == 1 && part[0] == '.' {
            assert(part@ =~= seq!['.']);
            return false;
        }
        if is_parent_segment(part) {
            return false;
        }
        assert(!(part@ =~= seq!['.']));
        k += 1;
    }
    true
}

fn reviewed_device_permissions_chars(s: &[char]) -> (b: bool)
    ensures
        b == reviewed_device_permissions(s@),
{
    if s.len() == 0 || !all_chars_in(s, Charset::DevicePermission) {
        return false;
    }
    let mut i: usize = 0;
    while i < s.len()
        invariant
            i <= s.len(),
            forall|a: int, b: int| 0 <= a < b < i ==> s@[a] != s@[b],
        decreases s.len() - i,
    {
        let mut j: usize = 0;
        while j < i
            invariant
                j <= i < s.len(),
                forall|a: int, b: int| 0 <= a < b < i ==> s@[a] != s@[b],
                forall|a: int| 0 <= a < j ==> s@[a] != s@[i as int],
            decreases i - j,
        {
            if s[j] == s[i] {
                return false;
            }
            j += 1;
        }
        i += 1;
    }
    true
}

// ---------------------------------------------------------------------------------------------
// Public checks
// ---------------------------------------------------------------------------------------------

/// Whether `value` is a native atom.
pub fn is_native_atom(value: &str) -> (b: bool)
    ensures
        b == native_atom(value@),
{
    native_atom_chars(chars_of(value).as_slice())
}

/// Whether `value` is an environment variable name.
pub fn is_environment_name(value: &str) -> (b: bool)
    ensures
        b == environment_name(value@),
{
    let s = chars_of(value);
    s.len() > 0 && (upper(s[0]) || crate::text::lower(s[0]) || s[0] == '_') && all_chars_in(
        s.as_slice(),
        Charset::EnvironmentName,
    )
}

/// Whether `value` is a safe health-check scalar.
pub fn is_safe_health_scalar(value: &str) -> (b: bool)
    ensures
        b == safe_health_scalar(value@),
{
    let s = chars_of(value);
    s.len() > 0 && trimmed(s.as_slice()) && no_char_in(s.as_slice(), Charset::HealthForbidden)
}

/// Whether `value` is a safe word, empty only where `allow_empty`.
pub fn is_safe_word(value: &str, allow_empty: bool) -> (b: bool)
    ensures
        b == safe_word(value@, allow_empty),
{
    safe_word_chars(chars_of(value).as_slice(), allow_empty)
}

/// Whether `value` is a safe network scalar, empty only where `allow_empty`.
pub fn is_safe_network_scalar(value: &str, allow_empty: bool) -> (b: bool)
    ensures
        b == safe_network_scalar(value@, allow_empty),
{
    safe_network_scalar_chars(chars_of(value).as_slice(), allow_empty)
}

/// Whether `name=value` is a safe network option assignment.
pub fn is_safe_network_assignment(name: &str, value: &str) -> (b: bool)
    ensures
        b == safe_network_assignment(name@, value@),
{
    let n = chars_of(name);
    let v = chars_of(value);
    n.len() > 0 && !contains_char(n.as_slice(), '=') && safe_network_scalar_chars(n.as_slice(), false)
        && safe_network_scalar_chars(v.as_slice(), true)
}

/// Whether `value` is a metadata label name.
pub fn is_label_name(value: &str) -> (b: bool)
    ensures
        b == label_name(value@),
{
    label_name_chars(chars_of(value).as_slice())
}

/// Whether `value` is a positive memory amount with an optional `b`, `k`, `m`, or `g` suffix.
pub fn is_positive_memory(value: &str) -> (b: bool)
    ensures
        b == positive_canonical_size(value@),
{
    is_positive_canonical_size(value)
}

/// Whether `value` is a safe security option value.
pub fn is_safe_security_option_value(value: &str) -> (b: bool)
    ensures
        b == safe_security_option_value(value@),
{
    let s = chars_of(value);
    s.len() > 0 && all_chars_in(s.as_slice(), Charset::SecurityValue)
}

/// Whether `value` is a safe hostname.
pub fn is_safe_hostname(value: &str) -> (b: bool)
    ensures
        b == safe_hostname(value@),
{
    let s = chars_of(value);
    if s.len() == 0 || s.len() > 253 {
        return false;
    }
    let labels = split_chars(s.as_slice(), '.');
    let mut k: usize = 0;
    while k < labels.len()
        invariant
            k <= labels@.len(),
            s@ == value@,
            labels@.len() == split(s@, '.').len(),
            forall|j: int| 0 <= j < labels@.len() ==> #[trigger] labels@[j]@ == split(s@, '.')[j],
            forall|j: int| 0 <= j < k ==> host_label(#[trigger] split(s@, '.')[j]),
        decreases labels@.len() - k,
    {
        if !host_label_chars(labels[k].as_slice()) {
            assert(labels@[k as int]@ == split(s@, '.')[k as int]);
            return false;
        }
        k += 1;
    }
    true
}

/// Whether `value` is a safe tmpfs declaration.
pub fn is_safe_tmpfs(value: &str) -> (b: bool)
    ensures
        b == safe_tmpfs(value@),
{
    let s = chars_of(value);
    let parts = split_chars(s.as_slice(), ':');
    proof {
        crate::text::lemma_split_nonempty(s@, ':');
    }
    if !safe_absolute_container_path_chars(parts[0].as_slice()) {
        return false;
    }
    if parts.len() == 1 {
        return true;
    }
    proof {
        lemma_first_segment_len(s@, ':');
    }
    let start = parts[0].len() + 1;
    let options = &s.as_slice()[start..s.len()];
    assert(options@ =~= s@.skip(start as int));
    if options.len() == 0 {
        return false;
    }
    let items = split_chars(options, ',');
    let mut k: usize = 0;
    while k < items.len()
        invariant
            k <= items@.len(),
            s@ == value@,
            options@ =~= s@.skip(start as int),
            parts@.len() > 1,
            parts@.len() == split(s@, ':').len(),
            after_first(s@, ':') == Some(options@),
            safe_absolute_container_path(split(s@, ':')[0]),
            items@.len() == split(options@, ',').len(),
            forall|j: int| 0 <= j < items@.len() ==> #[trigger] items@[j]@ == split(options@, ',')[j],
            forall|j: int|
                0 <= j < k ==> {
                    let option = #[trigger] split(options@, ',')[j];
                    safe_word(option, false) && !has_char(option, ':') && !has_char(option, '%')
                },
        decreases items@.len() - k,
    {
        let item = items[k].as_slice();
        assert(item@ == split(options@, ',')[k as int]);
        if !(safe_word_chars(item, false) && !contains_char(item, ':') && !contains_char(item, '%')) {
            return false;
        }
        k += 1;
    }
    true
}

/// The first segment of a split never runs past the text it was cut from, and, when a separator
/// follows it, that separator stands right after it.
pub proof fn lemma_first_segment_len(s: Seq<char>, sep: char)
    ensures
        split(s, sep).len() >= 1,
        split(s, sep)[0].len() <= s.len(),
        split(s, sep)[0] == s.take(split(s, sep)[0].len() as int),
        !has_char(split(s, sep)[0], sep),
        split(s, sep).len() > 1 ==> split(s, sep)[0].len() < s.len() && s[split(s, sep)[0].len() as int]
            == sep,
        split(s, sep).len() == 1 ==> split(s, sep)[0] == s,
    decreases s.len(),
{
    crate::text::lemma_split_nonempty(s, sep);
    if s.len() > 0 {
        let prev = s.drop_last();
        lemma_first_segment_len(prev, sep);
        crate::text::lemma_split_nonempty(prev, sep);
        let p0 = split(prev, sep)[0];
        if split(prev, sep).len() == 1 {
            if s.last() == sep {
                assert(split(s, sep)[0] == p0);
                assert(s.take(p0.len() as int) =~= prev.take(p0.len() as int));
            } else {
                assert(split(s, sep)[0] == p0.push(s.last()));
                assert(p0 == prev);
                assert(split(s, sep)[0] =~= s);
                assert(s.take(s.len() as int) =~= s);
                assert forall|i: int| 0 <= i < s.len() implies split(s, sep)[0][i] != sep by {
                    if i < prev.len() {
                        assert(split(s, sep)[0][i] == prev[i]);
                        assert(!has_char(p0, sep));
                        assert(p0[i] != sep);
                    }
                }
            }
        } else {
            assert(split(s, sep)[0] == p0);
            assert(s.take(p0.len() as int) =~= prev.take(p0.len() as int));
            assert(s[p0.len() as int] == prev[p0.len() as int]);
        }
    }
}

/// Whether `name=value` is a safe kernel parameter assignment for generated units.
pub fn is_safe_sysctl(name: &str, value: &str) -> (b: bool)
    ensures
        b == safe_sysctl(name@, value@),
{
    let n = chars_of(name);
    let v = chars_of(value);
    n.len() > 0 && !contains_char(n.as_slice(), '=') && safe_word_chars(n.as_slice(), false)
        && safe_word_chars(v.as_slice(), true)
}

/// Whether `value` is a safe resource limit value.
pub fn is_safe_limit_value(value: &str) -> (b: bool)
    ensures
        b == safe_limit_value(value@),
{
    safe_limit_value_chars(chars_of(value).as_slice())
}

/// Whether `name` with `soft` and `hard` limits is a safe resource limit.
pub fn is_safe_ulimit(name: &str, soft: &str, hard: &str) -> (b: bool)
    ensures
        b == safe_ulimit(name@, soft@, hard@),
{
    let n = chars_of(name);
    n.len() > 0 && all_chars_in(n.as_slice(), Charset::Lowercase) && is_safe_limit_value(soft)
        && is_safe_limit_value(hard)
}

/// Whether `value` is a safe stop signal.
pub fn is_safe_stop_signal(value: &str) -> (b: bool)
    ensures
        b == safe_signal(value@),
{
    let s = chars_of(value);
    let numeric = match parse_unsigned(s.as_slice(), 255) {
        Some(n) => {
            let zero = s.len() == 1 && s[0] == '0';
            assert(zero == (s@ =~= seq!['0']));
            1 <= n && n <= 64 && (zero || !(s.len() > 0 && s[0] == '0'))
        },
        None => false,
    };
    numeric || signal_name_chars(s.as_slice())
}

/// Whether `value` is a safe signal as the native grammar reads it back.
pub fn is_safe_signal(value: &str) -> (b: bool)
    ensures
        b == safe_signal(value@),
{
    let s = chars_of(value);
    let numeric = match parse_unsigned(s.as_slice(), 255) {
        Some(n) => 1 <= n && n <= 64 && canonical_decimal_chars(s.as_slice()),
        None => false,
    };
    numeric || signal_name_chars(s.as_slice())
}

/// Whether `value` is a accepted device path component.
pub fn is_reviewed_device_component(value: &str) -> (b: bool)
    ensures
        b == reviewed_device_component(value@),
{
    reviewed_device_component_chars(chars_of(value).as_slice())
}

/// Whether `value` lists accepted device permissions.
pub fn is_reviewed_device_permissions(value: &str) -> (b: bool)
    ensures
        b == reviewed_device_permissions(value@),
{
    reviewed_device_permissions_chars(chars_of(value).as_slice())
}

/// Returns the device spelling unchanged when every component is accepted.
pub fn reviewed_device_spelling(value: &str) -> (spelling: Option<String>)
    ensures
        match spelling {
            Some(s) => reviewed_device(value@) && s@ == value@,
            None => !reviewed_device(value@),
        },
{
    let s = chars_of(value);
    let parts = split_chars(s.as_slice(), ':');
    proof {
        crate::text::lemma_split_nonempty(s@, ':');
    }
    if parts.len() > 3 || !reviewed_device_component_chars(parts[0].as_slice()) {
        return None;
    }
    if parts.len() >= 2 && !reviewed_device_component_chars(parts[1].as_slice()) {
        return None;
    }
    if parts.len() == 3 && !reviewed_device_permissions_chars(parts[2].as_slice()) {
        return None;
    }
    Some(crate::text::string_from(s.as_slice()))
}

/// Whether `value` is a safe capability name.
pub fn is_safe_capability(value: &str) -> (b: bool)
    ensures
        b == safe_capability(value@),
{
    let s = chars_of(value);
    let prefixed = s.len() >= 4 && s[0] == 'C' && s[1] == 'A' && s[2] == 'P' && s[3] == '_';
    proof {
        if prefixed {
            assert(s@.take(4) =~= seq!['C', 'A', 'P', '_']);
        } else if starts_with(s@, seq!['C', 'A', 'P', '_']) {
            let t = s@.take(4);
            assert(t[0] == 'C' && t[1] == 'A' && t[2] == 'P' && t[3] == '_');
        }
    }
    let name: &[char] = if prefixed { &s.as_slice()[4..s.len()] } else { s.as_slice() };
    assert(prefixed ==> name@ =~= s@.skip(4));
    name.len() > 0 && upper(name[0]) && all_chars_in(name, Charset::Capability)
}

/// Whether `value` is a safe absolute container path.
pub fn is_safe_absolute_container_path(value: &str) -> (b: bool)
    ensures
        b == safe_absolute_container_path(value@),
{
    safe_absolute_container_path_chars(chars_of(value).as_slice())
}

/// Whether `value` is `0` or a positive decimal without a leading zero.
pub fn is_canonical_nonnegative_seconds(value: &str) -> (b: bool)
    ensures
        b == canonical_nonnegative_seconds(value@),
{
    let s = chars_of(value);
    if s.len() == 1 && s[0] == '0' {
        assert(s@ =~= seq!['0']);
        return true;
    }
    if s.len() == 0 || s[0] == '0' {
        return false;
    }
    let mut i: usize = 0;
    while i < s.len()
        invariant
            s@ == value@,
            s@.len() > 0 && s@[0] != '0',
            i <= s.len(),
            forall|j: int| 0 <= j < i ==> is_digit(#[trigger] s@[j]),
        decreases s.len() - i,
    {
        if !crate::text::digit(s[i]) {
            return false;
        }
        i += 1;
    }
    true
}

/// Whether `value` is a valid Podman container name.
pub fn valid_podman_container_name(value: &str) -> (b: bool)
    ensures
        b == podman_container_name(value@),
{
    let s = chars_of(value);
    s.len() > 0 && alnum(s[0]) && all_chars_in(s.as_slice(), Charset::Atom)
}

/// Whether the label belongs to Compose's own bookkeeping namespace.
pub fn is_compose_managed_label(name: &str) -> (b: bool)
    ensures
        b == compose_managed_label(name@),
{
    let s = chars_of(name);
    let prefix: [char; 19] = ['c', 'o', 'm', '.', 'd', 'o', 'c', 'k', 'e', 'r', '.', 'c', 'o', 'm', 'p', 'o', 's', 'e', '.'];
    let b = crate::text::begins_with(s.as_slice(), prefix.as_slice());
    assert(prefix@ =~= seq!['c', 'o', 'm', '.', 'd', 'o', 'c', 'k', 'e', 'r', '.', 'c', 'o', 'm', 'p', 'o', 's', 'e', '.']);
    b
}

/// Whether `value` is a safe secret name or option component.
pub fn is_safe_secret_component(value: &str) -> (b: bool)
    ensures
        b == safe_secret_component(value@),
{
    safe_secret_component_chars(chars_of(value).as_slice())
}

/// Whether `value` is a safe mount part.
pub fn is_safe_mount_part(value: &str) -> (b: bool)
    ensures
        b == safe_mount_part(value@),
{
    safe_mount_part_chars(chars_of(value).as_slice())
}

/// Whether `value` can be an explicit mapping source spelling.
pub fn is_valid_mapping_source(value: &str) -> (b: bool)
    ensures
        b == valid_mapping_source(value@),
{
    let s = chars_of(value);
    s.len() > 0 && no_char_in(s.as_slice(), Charset::LineBreak)
}

/// Whether `value` consists only of digits and dots.
pub fn is_ipv4_spelling(value: &str) -> (b: bool)
    ensures
        b == ipv4_spelling(value@),
{
    let s = chars_of(value);
    s.len() > 0 && all_chars_in(s.as_slice(), Charset::Ipv4Spelling)
}


pub proof fn lemma_digit_prefix_len(s: Seq<char>, k: int)
    requires
        0 <= k <= s.len(),
        forall|j: int| 0 <= j < k ==> is_digit(#[trigger] s[j]),
        k == s.len() || !is_digit(s[k]),
    ensures
        digit_prefix_len(s) == k,
    decreases k,
{
    if k > 0 {
        assert forall|j: int| 0 <= j < k - 1 implies is_digit(#[trigger] s.drop_first()[j]) by {
            assert(s.drop_first()[j] == s[j + 1]);
        }
        lemma_digit_prefix_len(s.drop_first(), k - 1);
    }
}

/// Whether `value` is a positive canonical decimal that fits `u64`.
pub fn is_positive_canonical_decimal(value: &str) -> (b: bool)
    ensures
        b == positive_canonical_decimal(value@),
{
    positive_canonical_decimal_chars(chars_of(value).as_slice())
}

/// Whether `value` is `0` or a positive canonical decimal.
pub fn is_canonical_decimal(value: &str) -> (b: bool)
    ensures
        b == canonical_decimal(value@),
{
    canonical_decimal_chars(chars_of(value).as_slice())
}

/// Whether `value` is a positive canonical amount with an optional `b`, `k`, `m`, `g` suffix.
pub fn is_positive_canonical_size(value: &str) -> (b: bool)
    ensures
        b == positive_canonical_size(value@),
{
    let s = chars_of(value);
    let mut k: usize = 0;
    while k < s.len() && crate::text::digit(s[k])
        invariant
            k <= s.len(),
            forall|j: int| 0 <= j < k ==> is_digit(#[trigger] s@[j]),
        decreases s.len() - k,
    {
        k += 1;
    }
    proof {
        lemma_digit_prefix_len(s@, k as int);
    }
    let amount = &s.as_slice()[0..k];
    let suffix = &s.as_slice()[k..s.len()];
    assert(amount@ =~= s@.take(k as int));
    assert(suffix@ =~= s@.skip(k as int));
    positive_canonical_decimal_chars(amount) && (suffix.len() == 0 || (suffix.len() == 1 && (suffix[0] == 'b'
        || suffix[0] == 'k' || suffix[0] == 'm' || suffix[0] == 'g')))
}

/// Whether `name=value` is a kernel parameter assignment the native grammar reads back.
pub fn is_safe_sysctl_assignment(name: &str, value: &str) -> (b: bool)
    ensures
        b == safe_sysctl_assignment(name@, value@),
{
    let n = chars_of(name);
    let v = chars_of(value);
    n.len() > 0 && v.len() > 0 && !contains_char(v.as_slice(), '=') && all_chars_in(
        n.as_slice(),
        Charset::SysctlName,
    ) && all_chars_in(v.as_slice(), Charset::SysctlValue)
}

fn native_limit_chars(s: &[char]) -> (b: bool)
    ensures
        b == native_limit(s@),
{
    minus_one(s) || canonical_decimal_chars(s)
}

/// Whether the resource limit assignment is one the native grammar reads back.
pub fn is_safe_ulimit_assignment(name: &str, soft: &str, hard: &str) -> (b: bool)
    ensures
        b == safe_ulimit_assignment(name@, soft@, hard@),
{
    let n = chars_of(name);
    let s = chars_of(soft);
    let h = chars_of(hard);
    n.len() > 0 && all_chars_in(n.as_slice(), Charset::UlimitName) && !contains_char(s.as_slice(), ':')
        && !contains_char(h.as_slice(), ':') && native_limit_chars(s.as_slice()) && native_limit_chars(
        h.as_slice(),
    )
}

fn safe_device_path_chars(s: &[char]) -> (b: bool)
    ensures
        b == safe_device_path(s@),
{
    if !(s.len() > 5 && s[0] == '/' && s[1] == 'd' && s[2] == 'e' && s[3] == 'v' && s[4] == '/') {
        proof {
            if starts_with(s@, seq!['/', 'd', 'e', 'v', '/']) && s@.len() > 5 {
                let t = s@.take(5);
                assert(t[0] == '/' && t[1] == 'd' && t[2] == 'e' && t[3] == 'v' && t[4] == '/');
            }
        }
        return false;
    }
    assert(s@.take(5) =~= seq!['/', 'd', 'e', 'v', '/']);
    safe_absolute_container_path_chars(s)
}

/// Whether `value` is a `/dev/` path that is also a safe absolute container path.
pub fn is_safe_device_path(value: &str) -> (b: bool)
    ensures
        b == safe_device_path(value@),
{
    safe_device_path_chars(chars_of(value).as_slice())
}

/// Whether `value` is a device declaration the native grammar reads back.
pub fn is_safe_device(value: &str) -> (b: bool)
    ensures
        b == safe_device(value@),
{
    let s = chars_of(value);
    let parts = split_chars(s.as_slice(), ':');
    proof {
        crate::text::lemma_split_nonempty(s@, ':');
    }
    if !(1 <= parts.len() && parts.len() <= 3) || !safe_device_path_chars(parts[0].as_slice()) {
        return false;
    }
    if parts.len() >= 2 && !safe_device_path_chars(parts[1].as_slice()) {
        return false;
    }
    parts.len() != 3 || reviewed_device_permissions_chars(parts[2].as_slice())
}

/// Whether `value` is a safe absolute environment-file path.
pub fn is_safe_absolute_environment_file_path(value: &str) -> (b: bool)
    ensures
        b == safe_absolute_environment_file_path(value@),
{
    let s = chars_of(value);
    s.len() > 0 && s[0] == '/' && trimmed(s.as_slice()) && !contains_char(s.as_slice(), '%') && all_chars_in(
        s.as_slice(),
        Charset::EnvironmentFilePath,
    )
}

/// Whether `value` is a plain health-check shell command.
pub fn is_safe_health_shell_command(value: &str) -> (b: bool)
    ensures
        b == safe_health_shell_command(value@),
{
    let s = chars_of(value);
    s.len() > 0 && trimmed(s.as_slice()) && all_chars_in(s.as_slice(), Charset::HealthShell)
}

pub(crate) fn decimal_chars(s: &[char]) -> (b: bool)
    ensures
        b == decimal(s@),
{
    if s.len() == 0 {
        return false;
    }
    let mut i: usize = 0;
    while i < s.len()
        invariant
            i <= s.len(),
            forall|j: int| 0 <= j < i ==> is_digit(#[trigger] s@[j]),
        decreases s.len() - i,
    {
        if !crate::text::digit(s[i]) {
            return false;
        }
        i += 1;
    }
    true
}

/// Whether `value` is non-empty ASCII digits.
pub fn is_decimal(value: &str) -> (b: bool)
    ensures
        b == decimal(value@),
{
    decimal_chars(chars_of(value).as_slice())
}

/// A Podman secret mode: one to four octal digits whose value is at most `0777`.
pub open spec fn podman_secret_mode(s: Seq<char>) -> bool {
    &&& 0 < s.len() <= 4
    &&& forall|i: int| 0 <= i < s.len() ==> '0' <= #[trigger] s[i] <= '7'
    &&& crate::number::octal_value(s) <= 0o777
}

pub(crate) fn podman_secret_mode_chars(s: &[char]) -> (b: bool)
    ensures
        b == podman_secret_mode(s@),
{
    if s.len() == 0 || s.len() > 4 {
        return false;
    }
    match crate::number::parse_octal(s) {
        Some(mode) => mode <= 0o777,
        None => false,
    }
}

/// Whether `value` is a Podman secret mode.
pub fn is_podman_secret_mode(value: &str) -> (b: bool)
    ensures
        b == podman_secret_mode(value@),
{
    podman_secret_mode_chars(chars_of(value).as_slice())
}

/// Whether `value` is a systemd unit name of the native atom grammar.
pub fn is_safe_systemd_unit_name(value: &str) -> (b: bool)
    ensures
        b == native_atom(value@),
{
    is_native_atom(value)
}

/// Network names that Podman reserves for its built-in network modes.
pub open spec fn reserved_network_mode(s: Seq<char>) -> bool {
    ||| s =~= seq!['b', 'r', 'i', 'd', 'g', 'e']
    ||| s =~= seq!['h', 'o', 's', 't']
    ||| s =~= seq!['n', 'o', 'n', 'e']
    ||| s =~= seq!['p', 'r', 'i', 'v', 'a', 't', 'e']
    ||| s =~= seq!['s', 'l', 'i', 'r', 'p', '4', 'n', 'e', 't', 'n', 's']
    ||| s =~= seq!['p', 'a', 's', 't', 'a']
}

fn equals_text(s: &[char], t: &[char]) -> (b: bool)
    ensures
        b == (s@ =~= t@),
{
    crate::text::same_chars(s, t)
}

/// Whether `value` names an external network rather than a built-in network mode.
pub fn is_external_network_name(value: &str) -> (b: bool)
    ensures
        b == (native_atom(value@) && !reserved_network_mode(value@)),
{
    let s = chars_of(value);
    if !native_atom_chars(s.as_slice()) {
        return false;
    }
    let bridge = ['b', 'r', 'i', 'd', 'g', 'e'];
    let host = ['h', 'o', 's', 't'];
    let none = ['n', 'o', 'n', 'e'];
    let private = ['p', 'r', 'i', 'v', 'a', 't', 'e'];
    let slirp = ['s', 'l', 'i', 'r', 'p', '4', 'n', 'e', 't', 'n', 's'];
    let pasta = ['p', 'a', 's', 't', 'a'];
    assert(bridge@ =~= seq!['b', 'r', 'i', 'd', 'g', 'e']);
    assert(host@ =~= seq!['h', 'o', 's', 't']);
    assert(none@ =~= seq!['n', 'o', 'n', 'e']);
    assert(private@ =~= seq!['p', 'r', 'i', 'v', 'a', 't', 'e']);
    assert(slirp@ =~= seq!['s', 'l', 'i', 'r', 'p', '4', 'n', 'e', 't', 'n', 's']);
    assert(pasta@ =~= seq!['p', 'a', 's', 't', 'a']);
    !(equals_text(s.as_slice(), bridge.as_slice()) || equals_text(s.as_slice(), host.as_slice())
        || equals_text(s.as_slice(), none.as_slice()) || equals_text(s.as_slice(), private.as_slice())
        || equals_text(s.as_slice(), slirp.as_slice()) || equals_text(s.as_slice(), pasta.as_slice()))
}

} // verus!
