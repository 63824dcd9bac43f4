//! Readings of native scalar spellings: booleans, assignments, unit stems, addresses, durations.

use vstd::prelude::*;
use crate::grammar::{label_name, label_name_chars, native_atom, safe_network_assignment, safe_network_scalar, safe_network_scalar_chars};
use crate::number::{all_digits, decimal_value};
use crate::text::{chars_of, has_char, split, split_chars, starts_with};

verus! {

broadcast use vstd::string::group_string_axioms;

/// A Quadlet boolean: `true`, `yes`, `1` or `false`, `no`, `0`.
pub open spec fn quadlet_bool(s: Seq<char>) -> Option<bool> {
    if s =~= seq!['t', 'r', 'u', 'e'] || s =~= seq!['y', 'e', 's'] || s =~= seq!['1'] {
        Some(true)
    } else if s =~= seq!['f', 'a', 'l', 's', 'e'] || s =~= seq!['n', 'o'] || s =~= seq!['0'] {
        Some(false)
    } else {
        None
    }
}

/// A canonical network boolean: exactly `true` or `false`.
pub open spec fn canonical_network_bool(s: Seq<char>) -> Option<bool> {
    if s =~= seq!['t', 'r', 'u', 'e'] {
        Some(true)
    } else if s =~= seq!['f', 'a', 'l', 's', 'e'] {
        Some(false)
    } else {
        None
    }
}

/// A security option boolean in Podman's permissive spelling.
pub open spec fn security_option_boolean(s: Seq<char>) -> Option<bool> {
    if s =~= seq!['1'] || s =~= seq!['y', 'e', 's'] || s =~= seq!['y'] || s =~= seq!['t', 'r', 'u', 'e']
        || s =~= seq!['t'] || s =~= seq!['o', 'n'] {
        Some(true)
    } else if s =~= seq!['0'] || s =~= seq!['n', 'o'] || s =~= seq!['n'] || s =~= seq![
        'f',
        'a',
        'l',
        's',
        'e',
    ] || s =~= seq!['f'] || s =~= seq!['o', 'f', 'f'] {
        Some(false)
    } else {
        None
    }
}

/// The spelling of a boolean in generated units.
pub open spec fn bool_spelling(value: bool) -> Seq<char> {
    if value {
        seq!['t', 'r', 'u', 'e']
    } else {
        seq!['f', 'a', 'l', 's', 'e']
    }
}

/// A boolean written into a generated unit reads back as itself under the Quadlet, canonical
/// network and security-option spellings.
pub proof fn lemma_bool_spelling_reads_back(value: bool)
    ensures
        quadlet_bool(bool_spelling(value)) == Some(value),
        canonical_network_bool(bool_spelling(value)) == Some(value),
        security_option_boolean(bool_spelling(value)) == Some(value),
{
    let t = seq!['t', 'r', 'u', 'e'];
    let f = seq!['f', 'a', 'l', 's', 'e'];
    assert(!(t =~= seq!['y', 'e', 's']) && !(t =~= seq!['1']) && !(t =~= seq!['y']) && !(t =~= seq!['t'])
        && !(t =~= seq!['o', 'n']));
    assert(!(f =~= t) && !(f =~= seq!['y', 'e', 's']) && !(f =~= seq!['1']) && !(f =~= seq!['y'])
        && !(f =~= seq!['t']) && !(f =~= seq!['o', 'n']));
    assert(!(f =~= seq!['0']) && !(f =~= seq!['n', 'o']) && !(f =~= seq!['n']));
}

/// Index of the last occurrence of `c` in `s`, or `-1`.
pub open spec fn last_index_of(s: Seq<char>, c: char) -> int
    decreases s.len(),
{
    if s.len() == 0 {
        -1
    } else if s.last() == c {
        s.len() - 1
    } else {
        last_index_of(s.drop_last(), c)
    }
}

/// The last `c` of `x + [c] + y` is the one after `x` when `y` holds no `c`.
pub proof fn lemma_last_index_of_concat(x: Seq<char>, y: Seq<char>, c: char)
    requires
        !has_char(y, c),
    ensures
        last_index_of(x + seq![c] + y, c) == x.len(),
    decreases y.len(),
{
    let t = x + seq![c] + y;
    if y.len() == 0 {
        assert(t.last() == c);
    } else {
        assert(t.last() == y.last());
        assert(y.last() != c) by {
            assert(y[y.len() - 1] == y.last());
        }
        assert(t.drop_last() =~= x + seq![c] + y.drop_last());
        assert(!has_char(y.drop_last(), c)) by {
            if has_char(y.drop_last(), c) {
                let i = choose|i: int| 0 <= i < y.drop_last().len() && y.drop_last()[i] == c;
                assert(y[i] == c);
            }
        }
        lemma_last_index_of_concat(x, y.drop_last(), c);
    }
}

/// A unit filename without its final `.`-suffix; the whole name when it has no `.`.
pub open spec fn stem(s: Seq<char>) -> Seq<char> {
    if last_index_of(s, '.') < 0 {
        s
    } else {
        s.take(last_index_of(s, '.'))
    }
}

/// A `name=value` network assignment split at the first `=`, when both parts are safe network
/// scalars and the name is non-empty.
pub open spec fn network_assignment(s: Seq<char>) -> Option<(Seq<char>, Seq<char>)> {
    let parts = split(s, '=');
    let name = parts[0];
    let value = s.skip(name.len() as int + 1);
    if parts.len() == 1 || name.len() == 0 || has_char(name, '=') || !safe_network_scalar(name, false)
        || !safe_network_scalar(value, true) {
        None
    } else {
        Some((name, value))
    }
}

/// A network assignment whose name is a metadata label name.
pub open spec fn network_label(s: Seq<char>) -> Option<(Seq<char>, Seq<char>)> {
    match network_assignment(s) {
        Some((name, value)) => if label_name(name) {
            Some((name, value))
        } else {
            None
        },
        None => None,
    }
}

/// One dotted-quad octet: one to three digits, no leading zero, value at most 255.
pub open spec fn ipv4_octet(s: Seq<char>) -> bool {
    &&& 0 < s.len() <= 3
    &&& all_digits(s)
    &&& s.len() > 1 ==> s[0] != '0'
    &&& decimal_value(s) <= 255
}

/// A dotted-quad IPv4 address as the standard library reads it.
pub open spec fn ipv4_address(s: Seq<char>) -> bool {
    split(s, '.').len() == 4 && forall|k: int| 0 <= k < 4 ==> ipv4_octet(#[trigger] split(s, '.')[k])
}

/// Length of the leading run of digits and dots.
pub open spec fn number_run_len(s: Seq<char>) -> int
    decreases s.len(),
{
    if s.len() == 0 || !(('0' <= s[0] && s[0] <= '9') || s[0] == '.') {
        0
    } else {
        1 + number_run_len(s.drop_first())
    }
}

pub proof fn lemma_number_run_len_bounds(s: Seq<char>)
    ensures
        0 <= number_run_len(s) <= s.len(),
    decreases s.len(),
{
    if s.len() > 0 {
        lemma_number_run_len_bounds(s.drop_first());
    }
}

/// Number of `.` characters.
pub open spec fn dot_count(s: Seq<char>) -> int
    decreases s.len(),
{
    if s.len() == 0 {
        0
    } else {
        dot_count(s.drop_last()) + if s.last() == '.' { 1int } else { 0int }
    }
}

/// Length of the duration unit that `s` starts with, trying `ns`, `us`, `µs`, `μs`, `ms`, `s`, `m`,
/// `h` in that order.
pub open spec fn duration_unit_len(s: Seq<char>) -> Option<int> {
    if starts_with(s, seq!['n', 's']) || starts_with(s, seq!['u', 's']) || starts_with(s, seq!['\u{b5}', 's'])
        || starts_with(s, seq!['\u{3bc}', 's']) || starts_with(s, seq!['m', 's']) {
        Some(2)
    } else if starts_with(s, seq!['s']) || starts_with(s, seq!['m']) || starts_with(s, seq!['h']) {
        Some(1)
    } else {
        None
    }
}

/// A sequence of `number unit` terms, each number a run of digits and at most one dot that is not
/// a lone dot.
pub open spec fn duration_terms(s: Seq<char>) -> bool
    decreases s.len(),
{
    if s.len() == 0 {
        true
    } else {
        let k = number_run_len(s);
        proof {
            lemma_number_run_len_bounds(s);
        }
        let number = s.take(k);
        let rest = s.skip(k);
        if k <= 0 || dot_count(number) > 1 || number =~= seq!['.'] {
            false
        } else {
            match duration_unit_len(rest) {
                Some(u) => duration_terms(rest.skip(u)),
                None => false,
            }
        }
    }
}

/// A Podman health-check duration: `0` or one or more `number unit` terms.
pub open spec fn podman_health_duration(s: Seq<char>) -> bool {
    s =~= seq!['0'] || (s.len() > 0 && duration_terms(s))
}

fn equals(s: &[char], t: &[char]) -> (b: bool)
    ensures
        b == (s@ =~= t@),
{
    crate::text::same_chars(s, t)
}

/// Reads a Quadlet boolean.
pub fn parse_quadlet_bool(value: &str) -> (parsed: Option<bool>)
    ensures
        parsed == quadlet_bool(value@),
{
    let s = chars_of(value);
    let t = ['t', 'r', 'u', 'e'];
    let y = ['y', 'e', 's'];
    let one = ['1'];
    let f = ['f', 'a', 'l', 's', 'e'];
    let n = ['n', 'o'];
    let zero = ['0'];
    assert(t@ =~= seq!['t', 'r', 'u', 'e'] && y@ =~= seq!['y', 'e', 's'] && one@ =~= seq!['1']);
    assert(f@ =~= seq!['f', 'a', 'l', 's', 'e'] && n@ =~= seq!['n', 'o'] && zero@ =~= seq!['0']);
    if equals(s.as_slice(), t.as_slice()) || equals(s.as_slice(), y.as_slice()) || equals(
        s.as_slice(),
        one.as_slice(),
    ) {
        Some(true)
    } else if equals(s.as_slice(), f.as_slice()) || equals(s.as_slice(), n.as_slice()) || equals(
        s.as_slice(),
        zero.as_slice(),
    ) {
        Some(false)
    } else {
        None
    }
}

/// Reads a canonical network boolean.
pub fn parse_canonical_network_bool(value: &str) -> (parsed: Option<bool>)
    ensures
        parsed == canonical_network_bool(value@),
{
    let s = chars_of(value);
    let t = ['t', 'r', 'u', 'e'];
    let f = ['f', 'a', 'l', 's', 'e'];
    assert(t@ =~= seq!['t', 'r', 'u', 'e'] && f@ =~= seq!['f', 'a', 'l', 's', 'e']);
    if equals(s.as_slice(), t.as_slice()) {
        Some(true)
    } else if equals(s.as_slice(), f.as_slice()) {
        Some(false)
    } else {
        None
    }
}

/// Reads a security option boolean.
pub fn parse_security_option_boolean(value: &str) -> (parsed: Option<bool>)
    ensures
        parsed == security_option_boolean(value@),
{
    let s = chars_of(value);
    let x = s.as_slice();
    let one = ['1'];
    let yes = ['y', 'e', 's'];
    let y = ['y'];
    let tr = ['t', 'r', 'u', 'e'];
    let t = ['t'];
    let on = ['o', 'n'];
    let zero = ['0'];
    let no = ['n', 'o'];
    let n = ['n'];
    let fa = ['f', 'a', 'l', 's', 'e'];
    let f = ['f'];
    let off = ['o', 'f', 'f'];
    assert(one@ =~= seq!['1'] && yes@ =~= seq!['y', 'e', 's'] && y@ =~= seq!['y'] && tr@ =~= seq![
        't',
        'r',
        'u',
        'e',
    ] && t@ =~= seq!['t'] && on@ =~= seq!['o', 'n']);
    assert(zero@ =~= seq!['0'] && no@ =~= seq!['n', 'o'] && n@ =~= seq!['n'] && fa@ =~= seq![
        'f',
        'a',
        'l',
        's',
        'e',
    ] && f@ =~= seq!['f'] && off@ =~= seq!['o', 'f', 'f']);
    if equals(x, one.as_slice()) || equals(x, yes.as_slice()) || equals(x, y.as_slice()) || equals(
        x,
        tr.as_slice(),
    ) || equals(x, t.as_slice()) || equals(x, on.as_slice()) {
        Some(true)
    } else if equals(x, zero.as_slice()) || equals(x, no.as_slice()) || equals(x, n.as_slice()) || equals(
        x,
        fa.as_slice(),
    ) || equals(x, f.as_slice()) || equals(x, off.as_slice()) {
        Some(false)
    } else {
        None
    }
}

/// The spelling of `value` in generated units.
pub fn bool_text(value: bool) -> (text: &'static str)
    ensures
        text@ == bool_spelling(value),
{
    proof {
        reveal_strlit("true");
        reveal_strlit("false");
    }
    if value {
        "true"
    } else {
        "false"
    }
}

/// Index of the last `c` in `s`, if any.
pub(crate) fn rfind_char(s: &[char], c: char) -> (index: Option<usize>)
    ensures
        match index {
            Some(i) => i as int == last_index_of(s@, c) && i < s.len(),
            None => last_index_of(s@, c) == -1,
        },
{
    let mut i: usize = s.len();
    assert(s@.take(s.len() as int) =~= s@);
    while i > 0
        invariant
            i <= s.len(),
            last_index_of(s@, c) == last_index_of(s@.take(i as int), c),
        decreases i,
    {
        assert(s@.take(i as int).drop_last() =~= s@.take(i - 1));
        if s[i - 1] == c {
            return Some(i - 1);
        }
        i -= 1;
    }
    None
}

/// The unit filename without its final suffix.
pub fn unit_stem(filename: &str) -> (unit: &str)
    ensures
        unit@ == stem(filename@),
{
    let s = chars_of(filename);
    match rfind_char(s.as_slice(), '.') {
        Some(i) => filename.substring_char(0, i),
        None => filename,
    }
}

/// `suffix` is a final segment of `s`.
pub open spec fn ends_with(s: Seq<char>, suffix: Seq<char>) -> bool {
    suffix.len() <= s.len() && s.skip(s.len() - suffix.len()) == suffix
}

pub(crate) fn ends_with_chars(s: &[char], suffix: &[char]) -> (b: bool)
    ensures
        b == ends_with(s@, suffix@),
{
    if suffix.len() > s.len() {
        return false;
    }
    let tail = &s[s.len() - suffix.len()..s.len()];
    assert(tail@ =~= s@.skip(s@.len() - suffix@.len()));
    crate::text::same_chars(tail, suffix)
}

/// The service a `Requires=`-style unit reference names, when it is a safe unit name ending in
/// `.container` or `.service` whose stem is one of `services`.
pub open spec fn sibling_service(value: Seq<char>, services: Seq<Seq<char>>) -> Option<Seq<char>> {
    let container = seq!['.', 'c', 'o', 'n', 't', 'a', 'i', 'n', 'e', 'r'];
    let service = seq!['.', 's', 'e', 'r', 'v', 'i', 'c', 'e'];
    if !native_atom(value) {
        None
    } else {
        let stem_text = if ends_with(value, container) {
            Some(value.take(value.len() - 10))
        } else if ends_with(value, service) {
            Some(value.take(value.len() - 8))
        } else {
            None
        };
        match stem_text {
            Some(n) => if services.contains(n) {
                Some(n)
            } else {
                None
            },
            None => None,
        }
    }
}

/// The sibling service a unit reference names, if `services` holds it.
pub fn sibling_service_reference<'a>(value: &'a str, services: &[String]) -> (service: Option<&'a str>)
    ensures
        match service {
            Some(n) => sibling_service(value@, services@.map_values(|v: String| v@)) == Some(n@),
            None => sibling_service(value@, services@.map_values(|v: String| v@)) is None,
        },
{
    let s = chars_of(value);
    if !crate::grammar::native_atom_chars(s.as_slice()) {
        return None;
    }
    let container = vec!['.', 'c', 'o', 'n', 't', 'a', 'i', 'n', 'e', 'r'];
    let service = vec!['.', 's', 'e', 'r', 'v', 'i', 'c', 'e'];
    assert(container@ =~= seq!['.', 'c', 'o', 'n', 't', 'a', 'i', 'n', 'e', 'r']);
    assert(service@ =~= seq!['.', 's', 'e', 'r', 'v', 'i', 'c', 'e']);
    let end = if ends_with_chars(s.as_slice(), container.as_slice()) {
        s.len() - 10
    } else if ends_with_chars(s.as_slice(), service.as_slice()) {
        s.len() - 8
    } else {
        return None;
    };
    let stem_chars = &s.as_slice()[0..end];
    assert(stem_chars@ =~= s@.take(end as int));
    let ghost names = services@.map_values(|v: String| v@);
    assert(sibling_service(value@, names) == (if names.contains(stem_chars@) {
        Some(stem_chars@)
    } else {
        None
    }));
    let mut k: usize = 0;
    while k < services.len()
        invariant
            k <= services@.len(),
            names == services@.map_values(|v: String| v@),
            end <= value@.len(),
            stem_chars@ == value@.take(end as int),
            sibling_service(value@, names) == (if names.contains(stem_chars@) {
                Some(stem_chars@)
            } else {
                None
            }),
            forall|j: int| 0 <= j < k ==> names[j] != stem_chars@,
        decreases services@.len() - k,
    {
        if crate::text::same_chars(chars_of(services[k].as_str()).as_slice(), stem_chars) {
            assert(names[k as int] == stem_chars@);
            return Some(value.substring_char(0, end));
        }
        k += 1;
    }
    assert(!names.contains(stem_chars@));
    None
}

/// An artifact `name[=value]` assignment and whether its text is sensitive.
#[derive(Clone, Debug, PartialEq, Eq)]
pub struct ArtifactAssignment {
    pub name: String,
    pub value: Option<String>,
    pub sensitive: bool,
}

/// The name and optional value of an artifact assignment, split at the first `=`.
pub open spec fn artifact_parts(s: Seq<char>) -> (Seq<char>, Option<Seq<char>>) {
    let parts = split(s, '=');
    if parts.len() == 1 {
        (s, None)
    } else {
        (parts[0], Some(s.skip(parts[0].len() as int + 1)))
    }
}

/// Splits an artifact assignment at its first `=`, carrying the caller's sensitivity.
pub fn artifact_assignment(value: &str, sensitive: bool) -> (assignment: ArtifactAssignment)
    ensures
        assignment.name@ == artifact_parts(value@).0,
        match assignment.value {
            Some(v) => artifact_parts(value@).1 == Some(v@),
            None => artifact_parts(value@).1 is None,
        },
        assignment.sensitive == sensitive,
{
    let s = chars_of(value);
    let parts = split_chars(s.as_slice(), '=');
    proof {
        crate::grammar::lemma_first_segment_len(s@, '=');
    }
    if parts.len() == 1 {
        return ArtifactAssignment { name: crate::text::string_from(s.as_slice()), value: None, sensitive };
    }
    let name = parts[0].as_slice();
    assert(name@ == split(s@, '=')[0]);
    assert(split(s@, '=').len() > 1);
    let cut: usize = name.len();
    assert(cut < s.len());
    let rest = &s.as_slice()[cut + 1..s.len()];
    assert(rest@ =~= s@.skip(name@.len() as int + 1));
    ArtifactAssignment {
        name: crate::text::string_from(name),
        value: Some(crate::text::string_from(rest)),
        sensitive,
    }
}

/// Reads a `name=value` network assignment.
pub fn parse_network_assignment(value: &str) -> (parsed: Option<(&str, &str)>)
    ensures
        match parsed {
            Some((name, v)) => network_assignment(value@) == Some((name@, v@)),
            None => network_assignment(value@) is None,
        },
{
    let s = chars_of(value);
    let parts = split_chars(s.as_slice(), '=');
    proof {
        crate::grammar::lemma_first_segment_len(s@, '=');
    }
    if parts.len() == 1 {
        return None;
    }
    let k = parts[0].len();
    assert(k < s.len());
    let name = &s.as_slice()[0..k];
    let rest = &s.as_slice()[k + 1..s.len()];
    assert(name@ =~= split(s@, '=')[0]);
    assert(rest@ =~= s@.skip(k + 1));
    if name.len() == 0 || crate::text::contains_char(name, '=') || !safe_network_scalar_chars(name, false)
        || !safe_network_scalar_chars(rest, true) {
        return None;
    }
    Some((value.substring_char(0, k), value.substring_char(k + 1, s.len())))
}

/// Reads a `name=value` network label assignment.
pub fn parse_network_label(value: &str) -> (parsed: Option<(&str, &str)>)
    ensures
        match parsed {
            Some((name, v)) => network_label(value@) == Some((name@, v@)),
            None => network_label(value@) is None,
        },
{
    let (name, v) = match parse_network_assignment(value) {
        Some(pair) => pair,
        None => return None,
    };
    if label_name_chars(chars_of(name).as_slice()) {
        Some((name, v))
    } else {
        None
    }
}

fn ipv4_octet_chars(s: &[char]) -> (b: bool)
    ensures
        b == ipv4_octet(s@),
{
    if s.len() == 0 || s.len() > 3 || (s.len() > 1 && s[0] == '0') {
        return false;
    }
    match crate::number::parse_unsigned(s, 255) {
        Some(_) => {
            if s[0] == '+' {
                return false;
            }
            assert(s@.len() > 0 && s@[0] != '+');
            true
        },
        None => {
            proof {
                if s@[0] != '+' && all_digits(s@) {
                    assert(decimal_value(s@) > 255);
                }
            }
            false
        },
    }
}

/// Whether `value` is a dotted-quad IPv4 address.
pub fn is_ipv4_address(value: &str) -> (b: bool)
    ensures
        b == ipv4_address(value@),
{
    let s = chars_of(value);
    let parts = split_chars(s.as_slice(), '.');
    if parts.len() != 4 {
        return false;
    }
    let mut k: usize = 0;
    while k < 4
        invariant
            k <= 4,
            s@ == value@,
            parts@.len() == 4 == split(s@, '.').len(),
            forall|j: int| 0 <= j < 4 ==> #[trigger] parts@[j]@ == split(s@, '.')[j],
            forall|j: int| 0 <= j < k ==> ipv4_octet(#[trigger] split(s@, '.')[j]),
        decreases 4 - k,
    {
        assert(parts@[k as int]@ == split(s@, '.')[k as int]);
        if !ipv4_octet_chars(parts[k].as_slice()) {
            return false;
        }
        k += 1;
    }
    true
}

proof fn lemma_number_run_len(s: Seq<char>, k: int)
    requires
        0 <= k <= s.len(),
        forall|j: int| 0 <= j < k ==> ('0' <= #[trigger] s[j] && s[j] <= '9') || s[j] == '.',
        k == s.len() || !(('0' <= s[k] && s[k] <= '9') || s[k] == '.'),
    ensures
        number_run_len(s) == k,
    decreases k,
{
    if k > 0 {
        assert forall|j: int| 0 <= j < k - 1 implies ('0' <= #[trigger] s.drop_first()[j] && s.drop_first()[j]
            <= '9') || s.drop_first()[j] == '.' by {
            assert(s.drop_first()[j] == s[j + 1]);
        }
        lemma_number_run_len(s.drop_first(), k - 1);
    }
}

fn starts_with_pair(s: &[char], a: char, b: char) -> (r: bool)
    ensures
        r == starts_with(s@, seq![a, b]),
{
    if s.len() >= 2 && s[0] == a && s[1] == b {
        assert(s@.take(2) =~= seq![a, b]);
        true
    } else {
        proof {
            if starts_with(s@, seq![a, b]) {
                assert(s@.take(2)[0] == a && s@.take(2)[1] == b);
            }
        }
        false
    }
}

fn starts_with_one(s: &[char], a: char) -> (r: bool)
    ensures
        r == starts_with(s@, seq![a]),
{
    if s.len() >= 1 && s[0] == a {
        assert(s@.take(1) =~= seq![a]);
        true
    } else {
        proof {
            if starts_with(s@, seq![a]) {
                assert(s@.take(1)[0] == a);
            }
        }
        false
    }
}

fn duration_unit(s: &[char]) -> (u: Option<usize>)
    ensures
        match u {
            Some(n) => duration_unit_len(s@) == Some(n as int),
            None => duration_unit_len(s@) is None,
        },
{
    if starts_with_pair(s, 'n', 's') || starts_with_pair(s, 'u', 's') || starts_with_pair(s, '\u{b5}', 's')
        || starts_with_pair(s, '\u{3bc}', 's') || starts_with_pair(s, 'm', 's') {
        Some(2)
    } else if starts_with_one(s, 's') || starts_with_one(s, 'm') || starts_with_one(s, 'h') {
        Some(1)
    } else {
        None
    }
}

/// Whether `value` is a Podman health-check duration.
pub fn is_podman_health_duration(value: &str) -> (b: bool)
    ensures
        b == podman_health_duration(value@),
{
    let s = chars_of(value);
    if s.len() == 1 && s[0] == '0' {
        assert(s@ =~= seq!['0']);
        return true;
    }
    assert(!(s@ =~= seq!['0']));
    if s.len() == 0 {
        return false;
    }
    let mut pos: usize = 0;
    assert(s@.skip(0) =~= s@);
    while pos < s.len()
        invariant
            pos <= s.len(),
            s@ == value@,
            !(s@ =~= seq!['0']),
            s@.len() > 0,
            duration_terms(s@) == duration_terms(s@.skip(pos as int)),
        decreases s.len() - pos,
    {
        let ghost rest = s@.skip(pos as int);
        let mut end: usize = pos;
        let mut dots: usize = 0;
        while end < s.len() && (('0' <= s[end] && s[end] <= '9') || s[end] == '.')
            invariant
                pos <= end <= s.len(),
                rest == s@.skip(pos as int),
                forall|j: int| pos <= j < end ==> ('0' <= #[trigger] s@[j] && s@[j] <= '9') || s@[j] == '.',
                dots as int == dot_count(s@.subrange(pos as int, end as int)),
                dots <= end - pos,
            decreases s.len() - end,
        {
            assert(s@.subrange(pos as int, end + 1).drop_last() =~= s@.subrange(pos as int, end as int));
            if s[end] == '.' {
                dots += 1;
            }
            end += 1;
        }
        let k = end - pos;
        proof {
            assert forall|j: int| 0 <= j < k implies ('0' <= #[trigger] rest[j] && rest[j] <= '9') || rest[j]
                == '.' by {
                assert(rest[j] == s@[pos + j]);
            }
            if end < s.len() {
                assert(rest[k as int] == s@[end as int]);
            }
            lemma_number_run_len(rest, k as int);
            assert(rest.take(k as int) =~= s@.subrange(pos as int, end as int));
        }
        if k == 0 || dots > 1 || (k == 1 && s[pos] == '.') {
            proof {
                if k == 1 && s@[pos as int] == '.' {
                    assert(rest.take(1) =~= seq!['.']);
                }
            }
            return false;
        }
        proof {
            if rest.take(k as int) =~= seq!['.'] {
                assert(rest.take(k as int)[0] == s@[pos as int]);
            }
        }
        let tail = &s.as_slice()[end..s.len()];
        assert(tail@ =~= rest.skip(k as int));
        match duration_unit(tail) {
            Some(u) => {
                assert(rest.skip(k as int).skip(u as int) =~= s@.skip(end + u));
                pos = end + u;
            },
            None => {
                proof {
                    assert(rest.len() > 0);
                    assert(number_run_len(rest) == k);
                    assert(duration_unit_len(rest.skip(k as int)) is None);
                    assert(!duration_terms(rest));
                }
                return false;
            },
        }
    }
    assert(s@.skip(s.len() as int) =~= Seq::<char>::empty());
    true
}

/// An assignment written as `NAME=VALUE` reads back as the same assignment: when `name` and
/// `value` form a safe network assignment, `network_assignment` splits `name=value` into exactly
/// `name` and `value`.
pub proof fn lemma_network_assignment_reads_back(name: Seq<char>, value: Seq<char>)
    requires
        safe_network_assignment(name, value),
    ensures
        network_assignment(name + seq!['='] + value) == Some((name, value)),
{
    let s = name + seq!['='] + value;
    crate::text::lemma_split_single(name, '=');
    crate::text::lemma_split_concat(name, value, '=');
    crate::text::lemma_split_nonempty(value, '=');
    assert(split(s, '=')[0] == name);
    assert(s.skip(name.len() as int + 1) =~= value);
}

/// A label written as `NAME=VALUE` reads back as the same label: when `name` is a label name and
/// `value` a safe network scalar (possibly empty), `network_label` splits `name=value` into
/// exactly `name` and `value`.
pub proof fn lemma_network_label_reads_back(name: Seq<char>, value: Seq<char>)
    requires
        label_name(name),
        safe_network_scalar(value, true),
    ensures
        network_label(name + seq!['='] + value) == Some((name, value)),
{
    assert(!has_char(name, '=')) by {
        if has_char(name, '=') {
            let i = choose|i: int| 0 <= i < name.len() && name[i] == '=';
            assert(crate::charset::in_set(crate::charset::Charset::LabelName, name[i]));
        }
    }
    assert forall|i: int| 0 <= i < name.len() implies !crate::charset::in_set(
        crate::charset::Charset::NetworkForbidden,
        #[trigger] name[i],
    ) by {
        assert(crate::charset::in_set(crate::charset::Charset::LabelName, name[i]));
    }
    assert(crate::charset::in_set(crate::charset::Charset::LabelName, name[0]));
    assert(crate::charset::in_set(crate::charset::Charset::LabelName, name[name.len() - 1]));
    assert(safe_network_scalar(name, false));
    lemma_network_assignment_reads_back(name, value);
}

/// The Quadlet boolean spellings and what they mean: `true`, `yes` and `1` read as true;
/// `false`, `no` and `0` read as false; nothing else reads as a boolean.
pub proof fn lemma_quadlet_bool_spellings(s: Seq<char>)
    ensures
        quadlet_bool(s) == Some(true) <==> (s == seq!['t', 'r', 'u', 'e'] || s == seq!['y', 'e', 's'] || s
            == seq!['1']),
        quadlet_bool(s) == Some(false) <==> (s == seq!['f', 'a', 'l', 's', 'e'] || s == seq!['n', 'o'] || s
            == seq!['0']),
        quadlet_bool(s) is None <==> !(s == seq!['t', 'r', 'u', 'e'] || s == seq!['y', 'e', 's'] || s == seq!['1']
            || s == seq!['f', 'a', 'l', 's', 'e'] || s == seq!['n', 'o'] || s == seq!['0']),
{
    let t = seq!['t', 'r', 'u', 'e'];
    let y = seq!['y', 'e', 's'];
    let one = seq!['1'];
    let f = seq!['f', 'a', 'l', 's', 'e'];
    let n = seq!['n', 'o'];
    let zero = seq!['0'];
    assert(t.len() == 4 && y.len() == 3 && one.len() == 1 && f.len() == 5 && n.len() == 2 && zero.len() == 1);
    assert(one[0] != zero[0]);
    if s =~= t || s =~= y || s =~= one {
        assert(!(s =~= f) && !(s =~= n) && !(s =~= zero));
    }
}

} // verus!
