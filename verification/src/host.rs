//! `AddHost=` values: `hostname[;hostname...]:address`, with an IPv6 address in brackets.

use vstd::prelude::*;
use crate::grammar::{native_atom, native_atom_chars};
use crate::issue::ValueIssue;
use crate::mount::push_chars;
use crate::scalar::{last_index_of, lemma_last_index_of_concat, rfind_char};
use crate::text::{chars_of, has_char, split, split_chars, string_from};

verus! {

broadcast use vstd::string::group_string_axioms;

/// Index of the last `:[` in `s`, or `-1`.
pub open spec fn last_bracket_colon(s: Seq<char>) -> int
    decreases s.len(),
{
    if s.len() < 2 {
        -1
    } else if s[s.len() - 2] == ':' && s[s.len() - 1] == '[' {
        s.len() - 2
    } else {
        last_bracket_colon(s.drop_last())
    }
}

/// The hostname list and the address of an `AddHost=` value, split at the `:[` before a
/// bracketed address or else at the last `:`.
pub open spec fn host_mapping_split(s: Seq<char>) -> Result<(Seq<char>, Seq<char>), ValueIssue> {
    let i = if s.len() > 0 && s.last() == ']' {
        last_bracket_colon(s)
    } else {
        last_index_of(s, ':')
    };
    if i < 0 {
        if s.len() > 0 && s.last() == ']' {
            Err(ValueIssue::Unsupported("AddHost bracketed address is outside the exact hostname:address subset"))
        } else {
            Err(ValueIssue::Invalid("AddHost must contain hostname:address"))
        }
    } else if i == 0 {
        Err(ValueIssue::Invalid("AddHost must contain at least one hostname"))
    } else {
        Ok((s.take(i), s.skip(i + 1)))
    }
}

/// The hostnames of a `;`-separated list, each a native atom.
pub open spec fn host_mapping_names_reading(s: Seq<char>) -> Result<Seq<Seq<char>>, ValueIssue> {
    if forall|k: int| 0 <= k < split(s, ';').len() ==> native_atom(#[trigger] split(s, ';')[k]) {
        Ok(split(s, ';'))
    } else {
        Err(ValueIssue::Unsupported("AddHost hostname requires native quoting or target-specific interpretation"))
    }
}

fn last_bracket_colon_index(s: &[char]) -> (index: Option<usize>)
    ensures
        match index {
            Some(i) => i as int == last_bracket_colon(s@) && i + 1 < s.len(),
            None => last_bracket_colon(s@) == -1,
        },
{
    let mut n: usize = s.len();
    assert(s@.take(n as int) =~= s@);
    while n >= 2
        invariant
            n <= s.len(),
            last_bracket_colon(s@) == last_bracket_colon(s@.take(n as int)),
        decreases n,
    {
        let ghost t = s@.take(n as int);
        assert(t[n - 2] == s@[n - 2] && t[n - 1] == s@[n - 1]);
        if s[n - 2] == ':' && s[n - 1] == '[' {
            return Some(n - 2);
        }
        assert(t.drop_last() =~= s@.take(n - 1));
        n -= 1;
    }
    None
}

/// Splits an `AddHost=` value into its hostname list and its address spelling.
pub fn split_host_mapping(value: &str) -> (parts: Result<(String, String), ValueIssue>)
    ensures
        match parts {
            Ok((names, address)) => host_mapping_split(value@) == Ok::<(Seq<char>, Seq<char>), ValueIssue>(
                (names@, address@),
            ),
            Err(e) => host_mapping_split(value@) == Err::<(Seq<char>, Seq<char>), ValueIssue>(e),
        },
{
    let s = chars_of(value);
    let bracketed = s.len() > 0 && s[s.len() - 1] == ']';
    let index = if bracketed {
        last_bracket_colon_index(s.as_slice())
    } else {
        rfind_char(s.as_slice(), ':')
    };
    let i = match index {
        Some(i) => i,
        None => {
            if bracketed {
                return Err(
                    ValueIssue::Unsupported("AddHost bracketed address is outside the exact hostname:address subset"),
                );
            }
            return Err(ValueIssue::Invalid("AddHost must contain hostname:address"));
        },
    };
    if i == 0 {
        return Err(ValueIssue::Invalid("AddHost must contain at least one hostname"));
    }
    let names = &s.as_slice()[0..i];
    let address = &s.as_slice()[i + 1..s.len()];
    assert(names@ =~= s@.take(i as int));
    assert(address@ =~= s@.skip(i + 1));
    Ok((string_from(names), string_from(address)))
}

/// Reads the `;`-separated hostname list of an `AddHost=` value.
pub fn host_mapping_names(names: &str) -> (hostnames: Result<Vec<String>, ValueIssue>)
    ensures
        match hostnames {
            Ok(h) => host_mapping_names_reading(names@) == Ok::<Seq<Seq<char>>, ValueIssue>(
                h@.map_values(|n: String| n@),
            ),
            Err(e) => host_mapping_names_reading(names@) == Err::<Seq<Seq<char>>, ValueIssue>(e),
        },
{
    let s = chars_of(names);
    let parts = split_chars(s.as_slice(), ';');
    let ghost all = split(s@, ';');
    let mut out: Vec<String> = Vec::new();
    let mut k: usize = 0;
    while k < parts.len()
        invariant
            k <= parts@.len(),
            s@ == names@,
            all == split(s@, ';'),
            parts@.len() == all.len(),
            forall|j: int| 0 <= j < parts@.len() ==> #[trigger] parts@[j]@ == all[j],
            out@.len() == k,
            forall|j: int| 0 <= j < k ==> native_atom(#[trigger] all[j]) && out@[j]@ == all[j],
        decreases parts@.len() - k,
    {
        if !native_atom_chars(parts[k].as_slice()) {
            assert(!native_atom(all[k as int]));
            return Err(
                ValueIssue::Unsupported("AddHost hostname requires native quoting or target-specific interpretation"),
            );
        }
        out.push(string_from(parts[k].as_slice()));
        k += 1;
    }
    assert(out@.map_values(|n: String| n@) =~= all);
    Ok(out)
}

/// The `AddHost=` value `hostname:address`, when the hostname is a native atom.
pub open spec fn host_mapping_text(hostname: Seq<char>, address: Seq<char>) -> Option<Seq<char>> {
    if native_atom(hostname) {
        Some(hostname + seq![':'] + address)
    } else {
        None
    }
}

/// Writes `hostname:address`; `address` is the written address spelling, with an IPv6 address
/// already in brackets.
pub fn host_mapping_entry(hostname: &str, address: &str) -> (entry: Option<String>)
    ensures
        match entry {
            Some(e) => host_mapping_text(hostname@, address@) == Some(e@),
            None => host_mapping_text(hostname@, address@) is None,
        },
{
    let h = chars_of(hostname);
    if !native_atom_chars(h.as_slice()) {
        return None;
    }
    let mut out: Vec<char> = Vec::new();
    push_chars(&mut out, h.as_slice());
    out.push(':');
    push_chars(&mut out, chars_of(address).as_slice());
    Some(string_from(out.as_slice()))
}

proof fn lemma_atom_plain(s: Seq<char>, c: char)
    requires
        native_atom(s),
        c == ':' || c == '[' || c == ';',
    ensures
        !has_char(s, c),
{
    if has_char(s, c) {
        let i = choose|i: int| 0 <= i < s.len() && s[i] == c;
        assert(crate::charset::in_set(crate::charset::Charset::Atom, s[i]));
    }
}

proof fn lemma_last_bracket_colon_after(x: Seq<char>, y: Seq<char>)
    requires
        !has_char(y, '['),
        y.len() > 0,
    ensures
        last_bracket_colon(x + seq![':', '['] + y) == x.len(),
    decreases y.len(),
{
    let t = x + seq![':', '['] + y;
    assert(t[t.len() - 1] == y.last());
    assert(y.last() != '[') by {
        assert(y[y.len() - 1] == y.last());
    }
    assert(!(t[t.len() - 2] == ':' && t[t.len() - 1] == '['));
    assert(last_bracket_colon(t) == last_bracket_colon(t.drop_last()));
    if y.len() == 1 {
        assert(t.drop_last() =~= x + seq![':', '[']);
        let u = t.drop_last();
        assert(u[u.len() - 2] == ':' && u[u.len() - 1] == '[');
        assert(last_bracket_colon(u) == x.len());
    } else {
        assert(t.drop_last() =~= x + seq![':', '['] + y.drop_last());
        assert(!has_char(y.drop_last(), '[')) by {
            if has_char(y.drop_last(), '[') {
                let i = choose|i: int| 0 <= i < y.drop_last().len() && y.drop_last()[i] == '[';
                assert(y[i] == '[');
            }
        }
        lemma_last_bracket_colon_after(x, y.drop_last());
    }
}

/// A single-host mapping written by the exporter reads back as that host and address, for an
/// address without `:` that does not end in `]` (IPv4 or `host-gateway`), and for a bracketed
/// address without a second `[` (IPv6).
pub proof fn lemma_host_mapping_reads_back(hostname: Seq<char>, address: Seq<char>)
    requires
        native_atom(hostname),
        ({
            ||| !has_char(address, ':') && !(address.len() > 0 && address.last() == ']')
            ||| address.len() >= 2 && address[0] == '[' && address.last() == ']' && !has_char(address.skip(1), '[')
        }),
    ensures
        host_mapping_text(hostname, address) is Some,
        host_mapping_split(host_mapping_text(hostname, address)->Some_0) == Ok::<
            (Seq<char>, Seq<char>),
            ValueIssue,
        >((hostname, address)),
        host_mapping_names_reading(hostname) == Ok::<Seq<Seq<char>>, ValueIssue>(seq![hostname]),
{
    let s = hostname + seq![':'] + address;
    lemma_atom_plain(hostname, ':');
    lemma_atom_plain(hostname, ';');
    assert(hostname.len() > 0);
    crate::text::lemma_split_single(hostname, ';');
    if !has_char(address, ':') && !(address.len() > 0 && address.last() == ']') {
        lemma_last_index_of_concat(hostname, address, ':');
        if address.len() > 0 {
            assert(s.last() == address.last());
        } else {
            assert(s.last() == ':');
        }
    } else {
        let rest = address.skip(1);
        assert(address =~= seq!['['] + rest);
        assert(s =~= hostname + seq![':', '['] + rest);
        lemma_last_bracket_colon_after(hostname, rest);
        assert(s.last() == address.last());
    }
    assert(s.take(hostname.len() as int) =~= hostname);
    assert(s.skip(hostname.len() as int + 1) =~= address);
}

} // verus!
