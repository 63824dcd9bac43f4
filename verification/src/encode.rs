//! Quoting and escaping of values written into generated units, and their inverse readings.

use vstd::prelude::*;
use crate::grammar::podman_secret_mode;
use crate::number::octal_value;
use crate::text::{chars_of, contains_char, has_char, split, split_chars, starts_with, string_from};

verus! {

broadcast use vstd::string::group_string_axioms;

/// Lowercase hexadecimal digit for `n` in `0..16`.
pub open spec fn hex_digit(n: int) -> char {
    seq!['0', '1', '2', '3', '4', '5', '6', '7', '8', '9', 'a', 'b', 'c', 'd', 'e', 'f'][n]
}

/// `\u00` followed by two lowercase hexadecimal digits of a character below U+0100.
pub open spec fn unicode_escape(c: char) -> Seq<char> {
    seq!['\\', 'u', '0', '0', hex_digit((c as int) / 16), hex_digit((c as int) % 16)]
}

/// The JSON string escape of one character.
pub open spec fn json_escape(c: char) -> Seq<char> {
    if c == '"' {
        seq!['\\', '"']
    } else if c == '\\' {
        seq!['\\', '\\']
    } else if c == '\u{08}' {
        seq!['\\', 'b']
    } else if c == '\u{0c}' {
        seq!['\\', 'f']
    } else if c == '\n' {
        seq!['\\', 'n']
    } else if c == '\r' {
        seq!['\\', 'r']
    } else if c == '\t' {
        seq!['\\', 't']
    } else if c <= '\u{1f}' {
        unicode_escape(c)
    } else {
        seq![c]
    }
}

/// Applies `escape` to every character of `s` and concatenates the results.
pub open spec fn escaped(s: Seq<char>, escape: spec_fn(char) -> Seq<char>) -> Seq<char>
    decreases s.len(),
{
    if s.len() == 0 {
        Seq::empty()
    } else {
        escaped(s.drop_last(), escape) + escape(s.last())
    }
}

/// A JSON string literal holding `s`.
pub open spec fn json_string(s: Seq<char>) -> Seq<char> {
    seq!['"'] + escaped(s, |c: char| json_escape(c)) + seq!['"']
}

/// The JSON string literals of `values`, separated by commas.
pub open spec fn json_items(values: Seq<Seq<char>>) -> Seq<char>
    decreases values.len(),
{
    if values.len() == 0 {
        Seq::empty()
    } else if values.len() == 1 {
        json_string(values[0])
    } else {
        json_items(values.drop_last()) + seq![','] + json_string(values.last())
    }
}

/// A compact JSON array of string literals.
pub open spec fn json_array(values: Seq<Seq<char>>) -> Seq<char> {
    seq!['['] + json_items(values) + seq![']']
}

/// The Unicode general category `Cc`.
pub open spec fn is_control(c: char) -> bool {
    c <= '\u{1f}' || ('\u{7f}' <= c && c <= '\u{9f}')
}

/// The unit-file escape of one label character.
pub open spec fn label_escape(c: char) -> Seq<char> {
    if c == '"' {
        seq!['\\', '"']
    } else if c == '\\' {
        seq!['\\', '\\']
    } else if c == '%' {
        seq!['%', '%']
    } else if c == '\n' {
        seq!['\\', 'n']
    } else if c == '\r' {
        seq!['\\', 'r']
    } else if c == '\t' {
        seq!['\\', 't']
    } else if is_control(c) {
        unicode_escape(c)
    } else {
        seq![c]
    }
}

/// The quoted `name=value` label entry, or `None` when either part holds `NUL`.
pub open spec fn quadlet_label(name: Seq<char>, value: Seq<char>) -> Option<Seq<char>> {
    if has_char(name, '\0') || has_char(value, '\0') {
        None
    } else {
        Some(seq!['"'] + escaped(name + seq!['='] + value, |c: char| label_escape(c)) + seq!['"'])
    }
}

/// The items of a compact JSON exec array that needs no unescaping: `[`, then one or more
/// comma-separated `"`-delimited non-empty items without backslashes, line breaks or `NUL`, then
/// `]`.
pub open spec fn json_exec_items(s: Seq<char>) -> Option<Seq<Seq<char>>> {
    if s.len() < 2 || s[0] != '[' || s.last() != ']' || s.len() == 2 {
        None
    } else {
        let parts = split(s.subrange(1, s.len() - 1), ',');
        if forall|k: int| 0 <= k < parts.len() ==> plain_json_item(#[trigger] parts[k]) {
            Some(parts.map_values(|p: Seq<char>| p.subrange(1, p.len() - 1)))
        } else {
            None
        }
    }
}

/// One `"`-delimited item whose body is non-empty and holds no backslash, line break or `NUL`.
pub open spec fn plain_json_item(p: Seq<char>) -> bool {
    let body = p.subrange(1, p.len() - 1);
    &&& p.len() >= 2
    &&& p[0] == '"'
    &&& p.last() == '"'
    &&& body.len() > 0
    &&& !has_char(body, '\\') && !has_char(body, '\r') && !has_char(body, '\n') && !has_char(body, '\0')
}

/// The octal digit character for `d` in `0..8`.
pub open spec fn octal_digit(d: int) -> char {
    seq!['0', '1', '2', '3', '4', '5', '6', '7'][d]
}

/// An octal digit without the write bit.
pub open spec fn no_write_bit(d: int) -> bool {
    d % 4 < 2
}

/// The digits of a secret mode after an optional `0o` prefix.
pub open spec fn secret_mode_digits(s: Seq<char>) -> Seq<char> {
    if starts_with(s, seq!['0', 'o']) {
        s.skip(2)
    } else {
        s
    }
}

/// Every character is an octal digit.
pub open spec fn all_octal(s: Seq<char>) -> bool {
    forall|i: int| 0 <= i < s.len() ==> '0' <= #[trigger] s[i] <= '7'
}

/// The canonical four-digit form of a secret mode with an optional `0o` prefix; `None` unless the
/// mode has one to four octal digits, is at most `0777`, and grants no write permission.
pub open spec fn normalized_secret_mode(s: Seq<char>) -> Option<Seq<char>> {
    let digits = secret_mode_digits(s);
    let m = octal_value(digits);
    if digits.len() == 0 || digits.len() > 4 || !all_octal(digits) || m > 0o777 || !no_write_bit(m % 8)
        || !no_write_bit((m / 8) % 8) || !no_write_bit(m / 64) {
        None
    } else {
        Some(seq!['0', octal_digit(m / 64), octal_digit((m / 8) % 8), octal_digit(m % 8)])
    }
}

proof fn lemma_octal_digit(d: int)
    requires
        0 <= d < 8,
    ensures
        '0' <= octal_digit(d) <= '7',
        crate::number::digit_value(octal_digit(d)) == d,
{
    let digits = seq!['0', '1', '2', '3', '4', '5', '6', '7'];
    assert(digits[0] == '0' && digits[1] == '1' && digits[2] == '2' && digits[3] == '3');
    assert(digits[4] == '4' && digits[5] == '5' && digits[6] == '6' && digits[7] == '7');
}

/// A canonical secret mode is a mode the importer accepts, and canonicalizing it again leaves it
/// unchanged.
pub proof fn lemma_normalized_secret_mode_stable(s: Seq<char>)
    requires
        normalized_secret_mode(s) is Some,
    ensures
        podman_secret_mode(normalized_secret_mode(s)->Some_0),
        normalized_secret_mode(normalized_secret_mode(s)->Some_0) == normalized_secret_mode(s),
{
    let digits = secret_mode_digits(s);
    let m = octal_value(digits);
    let n = normalized_secret_mode(s)->Some_0;
    let (a, b, c) = (m / 64, (m / 8) % 8, m % 8);
    crate::number::lemma_octal_value_nonnegative(digits);
    assert(0 <= a < 8);
    lemma_octal_digit(a);
    lemma_octal_digit(b);
    lemma_octal_digit(c);
    let n3 = n.drop_last();
    let n2 = n3.drop_last();
    let n1 = n2.drop_last();
    let n0 = n1.drop_last();
    assert(n0 =~= Seq::<char>::empty());
    assert(n1.last() == '0' && n2.last() == octal_digit(a) && n3.last() == octal_digit(b) && n.last() == octal_digit(c));
    assert(octal_value(n1) == octal_value(n0) * 8 + crate::number::digit_value(n1.last()));
    assert(octal_value(n1) == 0);
    assert(octal_value(n2) == a);
    assert(octal_value(n3) == a * 8 + b);
    assert(octal_value(n) == (a * 8 + b) * 8 + c);
    assert(octal_value(n) == m);
    assert(!starts_with(n, seq!['0', 'o'])) by {
        assert(n.take(2)[1] == octal_digit(a));
    }
    assert(secret_mode_digits(n) == n);
    assert(all_octal(n));
}

/// A character that a compact exec-array item carries verbatim: no quote, backslash, comma, or
/// control character below U+0020.
pub open spec fn plain_exec_char(c: char) -> bool {
    c != '"' && c != '\\' && c != ',' && c > '\u{1f}'
}

/// A non-empty item made of plain exec characters.
pub open spec fn plain_exec_item(v: Seq<char>) -> bool {
    v.len() > 0 && forall|i: int| 0 <= i < v.len() ==> plain_exec_char(#[trigger] v[i])
}

proof fn lemma_escaped_plain(v: Seq<char>)
    requires
        forall|i: int| 0 <= i < v.len() ==> plain_exec_char(#[trigger] v[i]),
    ensures
        escaped(v, |c: char| json_escape(c)) == v,
    decreases v.len(),
{
    if v.len() > 0 {
        assert(plain_exec_char(v[v.len() - 1]));
        assert(v.last() == v[v.len() - 1]);
        lemma_escaped_plain(v.drop_last());
        assert(v.drop_last().push(v.last()) =~= v);
        assert(json_escape(v.last()) == seq![v.last()]);
        assert(v.drop_last() + seq![v.last()] =~= v);
    }
}

pub(crate) proof fn lemma_quoted_item(v: Seq<char>)
    requires
        plain_exec_item(v),
    ensures
        json_string(v) == seq!['"'] + v + seq!['"'],
        !has_char(json_string(v), ','),
        plain_json_item(json_string(v)),
        json_string(v).subrange(1, json_string(v).len() - 1) == v,
{
    lemma_escaped_plain(v);
    let q = json_string(v);
    assert(q =~= seq!['"'] + v + seq!['"']);
    let body = q.subrange(1, q.len() - 1);
    assert(body =~= v);
    assert(!has_char(q, ',')) by {
        if has_char(q, ',') {
            let i = choose|i: int| 0 <= i < q.len() && q[i] == ',';
            assert(plain_exec_char(v[i - 1]));
        }
    }
    assert(!has_char(body, '\\') && !has_char(body, '\r') && !has_char(body, '\n') && !has_char(body, '\0')) by {
        if has_char(body, '\\') || has_char(body, '\r') || has_char(body, '\n') || has_char(body, '\0') {
            let i = choose|i: int|
                0 <= i < body.len() && (body[i] == '\\' || body[i] == '\r' || body[i] == '\n' || body[i] == '\0');
            assert(plain_exec_char(v[i]));
        }
    }
}

proof fn lemma_split_json_items(values: Seq<Seq<char>>)
    requires
        values.len() > 0,
        forall|k: int| 0 <= k < values.len() ==> plain_exec_item(#[trigger] values[k]),
    ensures
        split(json_items(values), ',') == values.map_values(|v: Seq<char>| json_string(v)),
        json_items(values).len() >= 2,
    decreases values.len(),
{
    let last = values.last();
    assert(plain_exec_item(values[values.len() - 1]));
    lemma_quoted_item(last);
    crate::text::lemma_split_single(json_string(last), ',');
    if values.len() == 1 {
        assert(values.map_values(|v: Seq<char>| json_string(v)) =~= seq![json_string(values[0])]);
    } else {
        let init = values.drop_last();
        assert forall|k: int| 0 <= k < init.len() implies plain_exec_item(#[trigger] init[k]) by {
            assert(init[k] == values[k]);
        }
        lemma_split_json_items(init);
        crate::text::lemma_split_concat(json_items(init), json_string(last), ',');
        assert(values.map_values(|v: Seq<char>| json_string(v)) =~= init.map_values(|v: Seq<char>| json_string(v))
            + seq![json_string(last)]);
    }
}

/// A JSON array of plain, non-empty items reads back as the same items: what the exporter writes
/// for an exec form, the importer reads unchanged.
pub proof fn lemma_exec_array_round_trip(values: Seq<Seq<char>>)
    requires
        values.len() > 0,
        forall|k: int| 0 <= k < values.len() ==> plain_exec_item(#[trigger] values[k]),
    ensures
        json_exec_items(json_array(values)) == Some(values),
{
    let items = json_items(values);
    let s = json_array(values);
    lemma_split_json_items(values);
    assert(s.subrange(1, s.len() - 1) =~= items);
    assert(s[0] == '[' && s.last() == ']');
    let parts = split(items, ',');
    assert forall|k: int| 0 <= k < parts.len() implies plain_json_item(#[trigger] parts[k]) by {
        assert(parts[k] == json_string(values[k]));
        lemma_quoted_item(values[k]);
    }
    let bodies = parts.map_values(|p: Seq<char>| p.subrange(1, p.len() - 1));
    assert forall|k: int| 0 <= k < values.len() implies #[trigger] bodies[k] == values[k] by {
        lemma_quoted_item(values[k]);
    }
    assert(bodies =~= values);
}

fn hex_char(n: u32) -> (c: char)
    requires
        n < 16,
    ensures
        c == hex_digit(n as int),
{
    let digits: [char; 16] = ['0', '1', '2', '3', '4', '5', '6', '7', '8', '9', 'a', 'b', 'c', 'd', 'e', 'f'];
    assert(digits@ =~= seq!['0', '1', '2', '3', '4', '5', '6', '7', '8', '9', 'a', 'b', 'c', 'd', 'e', 'f']);
    digits[n as usize]
}

fn push_unicode_escape(out: &mut Vec<char>, c: char)
    requires
        c <= '\u{9f}',
    ensures
        final(out)@ == old(out)@ + unicode_escape(c),
{
    let n = c as u32;
    out.push('\\');
    out.push('u');
    out.push('0');
    out.push('0');
    out.push(hex_char(n / 16));
    out.push(hex_char(n % 16));
    assert(final(out)@ =~= old(out)@ + unicode_escape(c));
}

fn push_json_escape(out: &mut Vec<char>, c: char)
    ensures
        final(out)@ == old(out)@ + json_escape(c),
{
    let ghost base = out@;
    if c == '"' {
        out.push('\\');
        out.push('"');
    } else if c == '\\' {
        out.push('\\');
        out.push('\\');
    } else if c == '\u{08}' {
        out.push('\\');
        out.push('b');
    } else if c == '\u{0c}' {
        out.push('\\');
        out.push('f');
    } else if c == '\n' {
        out.push('\\');
        out.push('n');
    } else if c == '\r' {
        out.push('\\');
        out.push('r');
    } else if c == '\t' {
        out.push('\\');
        out.push('t');
    } else if c <= '\u{1f}' {
        push_unicode_escape(out, c);
        return;
    } else {
        out.push(c);
    }
    assert(out@ =~= base + json_escape(c));
}

fn push_json_string(out: &mut Vec<char>, value: &str)
    ensures
        final(out)@ == old(out)@ + json_string(value@),
{
    let s = chars_of(value);
    let ghost base = out@;
    out.push('"');
    let mut i: usize = 0;
    while i < s.len()
        invariant
            i <= s.len(),
            s@ == value@,
            out@ == base + seq!['"'] + escaped(s@.take(i as int), |c: char| json_escape(c)),
        decreases s.len() - i,
    {
        push_json_escape(out, s[i]);
        assert(s@.take(i + 1).drop_last() =~= s@.take(i as int));
        i += 1;
    }
    assert(s@.take(s.len() as int) =~= s@);
    out.push('"');
    assert(out@ =~= base + json_string(value@));
}

/// Encodes `values` as a compact JSON array of strings.
pub fn encode_json_array(values: &[&str]) -> (encoded: String)
    ensures
        encoded@ == json_array(values@.map_values(|v: &str| v@)),
{
    let ghost all = values@.map_values(|v: &str| v@);
    let mut out: Vec<char> = Vec::new();
    out.push('[');
    let mut k: usize = 0;
    while k < values.len()
        invariant
            k <= values.len(),
            all == values@.map_values(|v: &str| v@),
            out@ == seq!['['] + json_items(all.take(k as int)),
        decreases values.len() - k,
    {
        if k > 0 {
            out.push(',');
        }
        push_json_string(&mut out, values[k]);
        assert(all.take(k + 1).drop_last() =~= all.take(k as int));
        assert(all.take(k + 1).last() == values@[k as int]@);
        if k == 0 {
            assert(out@ =~= seq!['['] + json_items(all.take(k + 1)));
        } else {
            assert(out@ =~= seq!['['] + json_items(all.take(k + 1)));
        }
        k += 1;
    }
    out.push(']');
    assert(all.take(values.len() as int) =~= all);
    assert(out@ =~= json_array(all));
    string_from(out.as_slice())
}

fn push_label_escape(out: &mut Vec<char>, c: char)
    ensures
        final(out)@ == old(out)@ + label_escape(c),
{
    let ghost base = out@;
    if c == '"' {
        out.push('\\');
        out.push('"');
    } else if c == '\\' {
        out.push('\\');
        out.push('\\');
    } else if c == '%' {
        out.push('%');
        out.push('%');
    } else if c == '\n' {
        out.push('\\');
        out.push('n');
    } else if c == '\r' {
        out.push('\\');
        out.push('r');
    } else if c == '\t' {
        out.push('\\');
        out.push('t');
    } else if c <= '\u{1f}' || ('\u{7f}' <= c && c <= '\u{9f}') {
        push_unicode_escape(out, c);
        return;
    } else {
        out.push(c);
    }
    assert(out@ =~= base + label_escape(c));
}

/// Encodes a `name=value` label as one quoted unit-file value, or `None` when either part holds
/// `NUL`.
pub fn encode_quadlet_label(name: &str, value: &str) -> (encoded: Option<String>)
    ensures
        match encoded {
            Some(e) => quadlet_label(name@, value@) == Some(e@),
            None => quadlet_label(name@, value@) is None,
        },
{
    let n = chars_of(name);
    let v = chars_of(value);
    if contains_char(n.as_slice(), '\0') || contains_char(v.as_slice(), '\0') {
        return None;
    }
    let mut text = n.clone();
    text.push('=');
    let mut i: usize = 0;
    let ghost head = text@;
    while i < v.len()
        invariant
            i <= v.len(),
            text@ == head + v@.take(i as int),
        decreases v.len() - i,
    {
        text.push(v[i]);
        assert(v@.take(i + 1) =~= v@.take(i as int).push(v@[i as int]));
        i += 1;
    }
    assert(v@.take(v.len() as int) =~= v@);
    assert(text@ =~= name@ + seq!['='] + value@);
    let mut out: Vec<char> = Vec::new();
    out.push('"');
    let mut j: usize = 0;
    while j < text.len()
        invariant
            j <= text.len(),
            out@ == seq!['"'] + escaped(text@.take(j as int), |c: char| label_escape(c)),
        decreases text.len() - j,
    {
        push_label_escape(&mut out, text[j]);
        assert(text@.take(j + 1).drop_last() =~= text@.take(j as int));
        j += 1;
    }
    assert(text@.take(text.len() as int) =~= text@);
    out.push('"');
    assert(out@ =~= seq!['"'] + escaped(name@ + seq!['='] + value@, |c: char| label_escape(c)) + seq!['"']);
    Some(string_from(out.as_slice()))
}

fn plain_json_item_chars(p: &[char]) -> (b: bool)
    ensures
        b == plain_json_item(p@),
{
    if p.len() < 2 || p[0] != '"' || p[p.len() - 1] != '"' {
        return false;
    }
    let body = &p[1..p.len() - 1];
    assert(body@ =~= p@.subrange(1, p@.len() - 1));
    body.len() > 0 && !contains_char(body, '\\') && !contains_char(body, '\r') && !contains_char(body, '\n')
        && !contains_char(body, '\0')
}

/// Reads a compact JSON exec array whose items need no unescaping.
pub fn decode_json_exec_array(value: &str) -> (items: Option<Vec<String>>)
    ensures
        match items {
            Some(v) => json_exec_items(value@) == Some(v@.map_values(|s: String| s@)),
            None => json_exec_items(value@) is None,
        },
{
    let s = chars_of(value);
    if s.len() < 2 || s[0] != '[' || s[s.len() - 1] != ']' || s.len() == 2 {
        return None;
    }
    let inner = &s.as_slice()[1..s.len() - 1];
    assert(inner@ =~= s@.subrange(1, s@.len() - 1));
    let parts = split_chars(inner, ',');
    let ghost all = split(inner@, ',');
    let mut out: Vec<String> = Vec::new();
    let mut k: usize = 0;
    while k < parts.len()
        invariant
            k <= parts@.len(),
            s@ == value@,
            s@.len() > 2 && s@[0] == '[' && s@.last() == ']',
            inner@ == s@.subrange(1, s@.len() - 1),
            all == split(inner@, ','),
            parts@.len() == all.len(),
            forall|j: int| 0 <= j < parts@.len() ==> #[trigger] parts@[j]@ == all[j],
            forall|j: int| 0 <= j < k ==> plain_json_item(#[trigger] all[j]),
            out@.len() == k,
            forall|j: int| 0 <= j < k ==> #[trigger] out@[j]@ == all[j].subrange(1, all[j].len() - 1),
        decreases parts@.len() - k,
    {
        let part = parts[k].as_slice();
        assert(part@ == all[k as int]);
        if !plain_json_item_chars(part) {
            return None;
        }
        let body = &part[1..part.len() - 1];
        assert(body@ =~= all[k as int].subrange(1, all[k as int].len() - 1));
        out.push(string_from(body));
        k += 1;
    }
    assert(out@.map_values(|s: String| s@) =~= all.map_values(|p: Seq<char>| p.subrange(1, p.len() - 1)));
    Some(out)
}

fn octal_char(d: u64) -> (c: char)
    requires
        d < 8,
    ensures
        c == octal_digit(d as int),
{
    let digits: [char; 8] = ['0', '1', '2', '3', '4', '5', '6', '7'];
    assert(digits@ =~= seq!['0', '1', '2', '3', '4', '5', '6', '7']);
    digits[d as usize]
}

/// Canonicalizes a secret mode to four octal digits.
pub fn normalize_secret_mode(value: &str) -> (mode: Option<String>)
    ensures
        match mode {
            Some(m) => normalized_secret_mode(value@) == Some(m@),
            None => normalized_secret_mode(value@) is None,
        },
{
    let s = chars_of(value);
    let prefixed = s.len() >= 2 && s[0] == '0' && s[1] == 'o';
    proof {
        if prefixed {
            assert(s@.take(2) =~= seq!['0', 'o']);
        } else if starts_with(s@, seq!['0', 'o']) {
            assert(s@.take(2)[0] == '0' && s@.take(2)[1] == 'o');
        }
    }
    let digits: &[char] = if prefixed { &s.as_slice()[2..s.len()] } else { s.as_slice() };
    assert(prefixed ==> digits@ =~= s@.skip(2));
    if digits.len() == 0 || digits.len() > 4 {
        return None;
    }
    let ghost spec_digits = secret_mode_digits(s@);
    assert(spec_digits == digits@);
    let m = match crate::number::parse_octal(digits) {
        Some(m) => m,
        None => {
            proof {
                let i = choose|i: int| 0 <= i < digits@.len() && !('0' <= #[trigger] digits@[i] <= '7');
                assert(!('0' <= spec_digits[i] <= '7'));
            }
            return None;
        },
    };
    if m > 0o777 || (m % 8) % 4 >= 2 || ((m / 8) % 8) % 4 >= 2 || (m / 64) % 4 >= 2 {
        return None;
    }
    let mut out: Vec<char> = Vec::new();
    out.push('0');
    out.push(octal_char(m / 64));
    out.push(octal_char((m / 8) % 8));
    out.push(octal_char(m % 8));
    assert(out@ =~= seq!['0', octal_digit((m / 64) as int), octal_digit(((m / 8) % 8) as int), octal_digit((m % 8) as int)]);
    Some(string_from(out.as_slice()))
}

} // verus!
