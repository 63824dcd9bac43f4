//! Published ports: the `PublishPort` spelling written for a port and the port read back from it.

use vstd::prelude::*;
use crate::grammar::{ipv4_spelling, is_ipv4_spelling};
use crate::issue::ValueIssue;
use crate::number::{decimal_text, parse_unsigned, parse_unsigned_spec, push_decimal};
use crate::scalar::{ipv4_address, is_ipv4_address, last_index_of, rfind_char};
use crate::text::{chars_of, contains_char, has_char, split, split_chars, split_once, split_once_chars, string_from};

verus! {

broadcast use vstd::string::group_string_axioms;

/// Transport protocol of a published port.
#[derive(Clone, Copy, Debug, PartialEq, Eq, Structural)]
pub enum Protocol {
    Tcp,
    Udp,
    Sctp,
}

/// A container port, optionally published on the host.
#[derive(Clone, Debug)]
pub struct PublishedPort {
    /// Port inside the container.
    pub container: u16,
    /// Host port, when published.
    pub published: Option<u16>,
    /// Host address the publication binds, when restricted.
    pub host_address: Option<String>,
    /// Transport protocol.
    pub protocol: Protocol,
}

/// Mathematical model of a [`PublishedPort`].
pub struct PortModel {
    pub container: u16,
    pub published: Option<u16>,
    pub host_address: Option<Seq<char>>,
    pub protocol: Protocol,
}

impl View for PublishedPort {
    type V = PortModel;

    open spec fn view(&self) -> PortModel {
        PortModel {
            container: self.container,
            published: self.published,
            host_address: match self.host_address {
                Some(a) => Some(a@),
                None => None,
            },
            protocol: self.protocol,
        }
    }
}

/// Why a port cannot be written in the accepted `PublishPort` form.
#[derive(Clone, Copy, Debug, PartialEq, Eq, Structural)]
pub enum PortIssue {
    /// The port is only exposed to the container network, never published.
    NotPublished,
    /// The host address is not a dotted IPv4 spelling.
    HostAddressForm,
}

impl PortIssue {
    /// The value-free explanation of this issue.
    pub fn reason(&self) -> (reason: &'static str)
        ensures
            reason == match *self {
                PortIssue::NotPublished => "container-only exposure without host publication is not in the current Quadlet subset",
                PortIssue::HostAddressForm => "host address requires a Quadlet port form not yet encoded",
            },
    {
        match self {
            PortIssue::NotPublished => {
                "container-only exposure without host publication is not in the current Quadlet subset"
            },
            PortIssue::HostAddressForm => "host address requires a Quadlet port form not yet encoded",
        }
    }
}

/// The lowercase protocol name.
pub open spec fn protocol_text(p: Protocol) -> Seq<char> {
    match p {
        Protocol::Tcp => seq!['t', 'c', 'p'],
        Protocol::Udp => seq!['u', 'd', 'p'],
        Protocol::Sctp => seq!['s', 'c', 't', 'p'],
    }
}

/// The protocol a lowercase name selects.
pub open spec fn protocol_named(s: Seq<char>) -> Option<Protocol> {
    if s =~= seq!['t', 'c', 'p'] {
        Some(Protocol::Tcp)
    } else if s =~= seq!['u', 'd', 'p'] {
        Some(Protocol::Udp)
    } else if s =~= seq!['s', 'c', 't', 'p'] {
        Some(Protocol::Sctp)
    } else {
        None
    }
}

/// `[address:]published:container/protocol`, the accepted `PublishPort` spelling.
pub open spec fn port_text(p: PortModel) -> Result<Seq<char>, PortIssue> {
    match p.published {
        None => Err(PortIssue::NotPublished),
        Some(published) => match p.host_address {
            Some(a) if !ipv4_spelling(a) => Err(PortIssue::HostAddressForm),
            _ => {
                let prefix = match p.host_address {
                    Some(a) => a + seq![':'],
                    None => Seq::empty(),
                };
                Ok(prefix + decimal_text(published as nat) + seq![':'] + decimal_text(p.container as nat)
                    + seq!['/'] + protocol_text(p.protocol))
            },
        },
    }
}

/// The addressing part and protocol name of a `PublishPort` value, split at the last `/`.
pub open spec fn port_sections(s: Seq<char>) -> (Seq<char>, Seq<char>) {
    let i = last_index_of(s, '/');
    if i < 0 {
        (s, seq!['t', 'c', 'p'])
    } else {
        (s.take(i), s.skip(i + 1))
    }
}

/// An optional host port: empty text reads as no port.
pub open spec fn optional_port_reading(s: Seq<char>) -> Result<Option<u16>, ValueIssue> {
    if s.len() == 0 {
        Ok(None)
    } else {
        match parse_unsigned_spec(s, u16::MAX as int) {
            Some(v) => Ok(Some(v as u16)),
            None => Err(ValueIssue::Invalid("PublishPort host port is not an unsigned 16-bit integer")),
        }
    }
}

/// A required container port.
pub open spec fn required_port_reading(s: Seq<char>) -> Result<u16, ValueIssue> {
    match parse_unsigned_spec(s, u16::MAX as int) {
        Some(v) => Ok(v as u16),
        None => Err(ValueIssue::Invalid("PublishPort container port is not an unsigned 16-bit integer")),
    }
}

/// The port a `PublishPort` value denotes within the exact scalar subset.
pub open spec fn port_reading(s: Seq<char>) -> Result<PortModel, ValueIssue> {
    if s.len() == 0 {
        Err(ValueIssue::Invalid("PublishPort value is empty"))
    } else if has_char(s, '-') {
        Err(ValueIssue::Unsupported("port ranges are not represented by the neutral port model"))
    } else {
        let (addressing, name) = port_sections(s);
        match protocol_named(name) {
            None => Err(ValueIssue::Invalid("PublishPort protocol must be tcp, udp, or sctp")),
            Some(protocol) => {
                let parts = split(addressing, ':');
                let fields: Result<(Option<Seq<char>>, Option<u16>, Seq<char>), ValueIssue> = if parts.len()
                    == 1 {
                    Ok((None, None, parts[0]))
                } else if parts.len() == 2 {
                    match optional_port_reading(parts[0]) {
                        Ok(published) => Ok((None, published, parts[1])),
                        Err(e) => Err(e),
                    }
                } else if parts.len() == 3 && (parts[0].len() == 0 || ipv4_address(parts[0])) {
                    match optional_port_reading(parts[1]) {
                        Ok(published) => Ok(
                            (if parts[0].len() == 0 { None } else { Some(parts[0]) }, published, parts[2]),
                        ),
                        Err(e) => Err(e),
                    }
                } else {
                    Err(
                        ValueIssue::Unsupported(
                            "IPv6 host addresses and target-specific PublishPort forms are outside the exact scalar subset",
                        ),
                    )
                };
                match fields {
                    Err(e) => Err(e),
                    Ok((host_address, published, container)) => match required_port_reading(container) {
                        Err(e) => Err(e),
                        Ok(container) => if container == 0 {
                            Err(ValueIssue::Invalid("PublishPort container port must be non-zero"))
                        } else {
                            Ok(PortModel { container, published, host_address, protocol })
                        },
                    },
                }
            },
        }
    }
}

/// The lowercase name of a protocol.
pub fn protocol_name(protocol: Protocol) -> (name: &'static str)
    ensures
        name@ == protocol_text(protocol),
{
    proof {
        reveal_strlit("tcp");
        reveal_strlit("udp");
        reveal_strlit("sctp");
    }
    match protocol {
        Protocol::Tcp => "tcp",
        Protocol::Udp => "udp",
        Protocol::Sctp => "sctp",
    }
}

fn push_text(out: &mut Vec<char>, text: &[char])
    ensures
        final(out)@ == old(out)@ + text@,
{
    let mut i: usize = 0;
    let ghost base = out@;
    while i < text.len()
        invariant
            i <= text.len(),
            out@ == base + text@.take(i as int),
        decreases text.len() - i,
    {
        out.push(text[i]);
        assert(text@.take(i + 1) =~= text@.take(i as int).push(text@[i as int]));
        i += 1;
    }
    assert(text@.take(text.len() as int) =~= text@);
}

/// Writes `port` in the accepted `PublishPort` spelling.
pub fn encode_port(port: &PublishedPort) -> (encoded: Result<String, PortIssue>)
    ensures
        match encoded {
            Ok(text) => port_text(port@) == Ok::<Seq<char>, PortIssue>(text@),
            Err(issue) => port_text(port@) == Err::<Seq<char>, PortIssue>(issue),
        },
{
    let published = match port.published {
        Some(published) => published,
        None => return Err(PortIssue::NotPublished),
    };
    let mut out: Vec<char> = Vec::new();
    match &port.host_address {
        Some(address) => {
            if !is_ipv4_spelling(address.as_str()) {
                return Err(PortIssue::HostAddressForm);
            }
            let a = chars_of(address.as_str());
            push_text(&mut out, a.as_slice());
            out.push(':');
        },
        None => {},
    }
    push_decimal(&mut out, published as u64);
    out.push(':');
    push_decimal(&mut out, port.container as u64);
    out.push('/');
    push_text(&mut out, chars_of(protocol_name(port.protocol)).as_slice());
    let ghost prefix = match port@.host_address {
        Some(a) => a + seq![':'],
        None => Seq::<char>::empty(),
    };
    assert(out@ =~= prefix + decimal_text(published as nat) + seq![':'] + decimal_text(port.container as nat)
        + seq!['/'] + protocol_text(port.protocol));
    Ok(string_from(out.as_slice()))
}

/// Reads an optional host port.
pub fn optional_port(value: &str) -> (port: Result<Option<u16>, ValueIssue>)
    ensures
        port == optional_port_reading(value@),
{
    optional_port_chars(chars_of(value).as_slice())
}

fn optional_port_chars(s: &[char]) -> (port: Result<Option<u16>, ValueIssue>)
    ensures
        port == optional_port_reading(s@),
{
    if s.len() == 0 {
        return Ok(None);
    }
    match parse_unsigned(s, 65535) {
        Some(v) => Ok(Some(v as u16)),
        None => Err(ValueIssue::Invalid("PublishPort host port is not an unsigned 16-bit integer")),
    }
}

/// Reads a required container port.
pub fn required_port(value: &str) -> (port: Result<u16, ValueIssue>)
    ensures
        port == required_port_reading(value@),
{
    required_port_chars(chars_of(value).as_slice())
}

fn required_port_chars(s: &[char]) -> (port: Result<u16, ValueIssue>)
    ensures
        port == required_port_reading(s@),
{
    match parse_unsigned(s, 65535) {
        Some(v) => Ok(v as u16),
        None => Err(ValueIssue::Invalid("PublishPort container port is not an unsigned 16-bit integer")),
    }
}

fn protocol_from(s: &[char]) -> (p: Option<Protocol>)
    ensures
        p == protocol_named(s@),
{
    if s.len() == 3 && s[0] == 't' && s[1] == 'c' && s[2] == 'p' {
        assert(s@ =~= seq!['t', 'c', 'p']);
        Some(Protocol::Tcp)
    } else if s.len() == 3 && s[0] == 'u' && s[1] == 'd' && s[2] == 'p' {
        assert(s@ =~= seq!['u', 'd', 'p']);
        assert(!(s@ =~= seq!['t', 'c', 'p']));
        Some(Protocol::Udp)
    } else if s.len() == 4 && s[0] == 's' && s[1] == 'c' && s[2] == 't' && s[3] == 'p' {
        assert(s@ =~= seq!['s', 'c', 't', 'p']);
        Some(Protocol::Sctp)
    } else {
        proof {
            if s@ =~= seq!['t', 'c', 'p'] {
                assert(s@[0] == 't' && s@[1] == 'c' && s@[2] == 'p');
            }
            if s@ =~= seq!['u', 'd', 'p'] {
                assert(s@[0] == 'u' && s@[1] == 'd' && s@[2] == 'p');
            }
            if s@ =~= seq!['s', 'c', 't', 'p'] {
                assert(s@[0] == 's' && s@[1] == 'c' && s@[2] == 't' && s@[3] == 'p');
            }
        }
        None
    }
}

/// Reads a `PublishPort` value within the exact scalar subset.
pub fn decode_port(value: &str) -> (port: Result<PublishedPort, ValueIssue>)
    ensures
        match port {
            Ok(p) => port_reading(value@) == Ok::<PortModel, ValueIssue>(p@),
            Err(e) => port_reading(value@) == Err::<PortModel, ValueIssue>(e),
        },
{
    let s = chars_of(value);
    if s.len() == 0 {
        return Err(ValueIssue::Invalid("PublishPort value is empty"));
    }
    if contains_char(s.as_slice(), '-') {
        return Err(ValueIssue::Unsupported("port ranges are not represented by the neutral port model"));
    }
    let tcp: [char; 3] = ['t', 'c', 'p'];
    assert(tcp@ =~= seq!['t', 'c', 'p']);
    let (addressing, name): (&[char], &[char]) = match rfind_char(s.as_slice(), '/') {
        Some(i) => (&s.as_slice()[0..i], &s.as_slice()[i + 1..s.len()]),
        None => (s.as_slice(), tcp.as_slice()),
    };
    assert(addressing@ =~= port_sections(s@).0);
    assert(name@ =~= port_sections(s@).1);
    let protocol = match protocol_from(name) {
        Some(p) => p,
        None => return Err(ValueIssue::Invalid("PublishPort protocol must be tcp, udp, or sctp")),
    };
    let parts = split_chars(addressing, ':');
    proof {
        crate::text::lemma_split_nonempty(addressing@, ':');
        assert(parts@[0]@ == split(addressing@, ':')[0]);
    }
    let (host_address, published, container): (Option<String>, Option<u16>, &[char]) = if parts.len() == 1 {
        (None, None, parts[0].as_slice())
    } else if parts.len() == 2 {
        assert(parts@[1]@ == split(addressing@, ':')[1]);
        match optional_port_chars(parts[0].as_slice()) {
            Ok(published) => (None, published, parts[1].as_slice()),
            Err(e) => return Err(e),
        }
    } else if parts.len() == 3 && (parts[0].len() == 0 || is_ipv4_address(
        string_from(parts[0].as_slice()).as_str(),
    )) {
        assert(parts@[1]@ == split(addressing@, ':')[1]);
        assert(parts@[2]@ == split(addressing@, ':')[2]);
        match optional_port_chars(parts[1].as_slice()) {
            Ok(published) => {
                let address = if parts[0].len() == 0 {
                    None
                } else {
                    Some(string_from(parts[0].as_slice()))
                };
                (address, published, parts[2].as_slice())
            },
            Err(e) => return Err(e),
        }
    } else {
        return Err(
            ValueIssue::Unsupported(
                "IPv6 host addresses and target-specific PublishPort forms are outside the exact scalar subset",
            ),
        );
    };
    let container = match required_port_chars(container) {
        Ok(c) => c,
        Err(e) => return Err(e),
    };
    if container == 0 {
        return Err(ValueIssue::Invalid("PublishPort container port must be non-zero"));
    }
    Ok(PublishedPort { container, published, host_address, protocol })
}


proof fn lemma_digits_lack(n: nat, c: char)
    requires
        !crate::text::is_digit(c),
    ensures
        !has_char(decimal_text(n), c),
{
    crate::number::lemma_decimal_text_value(n);
    if has_char(decimal_text(n), c) {
        let i = choose|i: int| 0 <= i < decimal_text(n).len() && decimal_text(n)[i] == c;
        assert(crate::text::is_digit(decimal_text(n)[i]));
    }
}

proof fn lemma_address_lacks(a: Seq<char>, c: char)
    requires
        ipv4_spelling(a),
        c != '.',
        !crate::text::is_digit(c),
    ensures
        !has_char(a, c),
{
    if has_char(a, c) {
        let i = choose|i: int| 0 <= i < a.len() && a[i] == c;
        assert(crate::charset::in_set(crate::charset::Charset::Ipv4Spelling, a[i]));
    }
}

/// Reading back the `PublishPort` spelling written for a published port yields that port, for
/// every published port with a non-zero container port whose host address, if any, is a
/// dotted-quad IPv4 address.
pub proof fn lemma_port_round_trip(p: PortModel)
    requires
        p.published is Some,
        p.container > 0,
        p.host_address matches Some(a) ==> ipv4_address(a),
    ensures
        port_text(p) is Ok,
        port_reading(port_text(p)->Ok_0) == Ok::<PortModel, ValueIssue>(p),
{
    let published = p.published->Some_0;
    let dp = decimal_text(published as nat);
    let dc = decimal_text(p.container as nat);
    let proto = protocol_text(p.protocol);
    crate::number::lemma_decimal_text_value(published as nat);
    crate::number::lemma_decimal_text_value(p.container as nat);
    lemma_digits_lack(published as nat, ':');
    lemma_digits_lack(p.container as nat, ':');
    lemma_digits_lack(published as nat, '-');
    lemma_digits_lack(p.container as nat, '-');
    lemma_digits_lack(published as nat, '/');
    lemma_digits_lack(p.container as nat, '/');
    let tail = dp + seq![':'] + dc;
    crate::text::lemma_split_single(dp, ':');
    crate::text::lemma_split_single(dc, ':');
    crate::text::lemma_split_concat(dp, dc, ':');
    assert(split(tail, ':') =~= seq![dp, dc]);
    crate::number::lemma_parse_decimal_text(published as nat, u16::MAX as int);
    crate::number::lemma_parse_decimal_text(p.container as nat, u16::MAX as int);
    assert(!has_char(proto, '/'));
    assert(!has_char(proto, '-'));
    assert(protocol_named(proto) == Some(p.protocol));
    let addressing = match p.host_address {
        Some(a) => a + seq![':'] + tail,
        None => tail,
    };
    match p.host_address {
        Some(a) => {
            assert(a.len() > 0);
            assert(ipv4_spelling(a)) by {
                assert forall|i: int| 0 <= i < a.len() implies crate::charset::in_set(
                    crate::charset::Charset::Ipv4Spelling,
                    #[trigger] a[i],
                ) by {
                    let parts = split(a, '.');
                    assert(crate::charset::in_set(crate::charset::Charset::Ipv4Spelling, a[i])) by {
                        lemma_ipv4_chars(a, i);
                    }
                }
            }
            lemma_address_lacks(a, ':');
            lemma_address_lacks(a, '-');
            lemma_address_lacks(a, '/');
            crate::text::lemma_split_single(a, ':');
            crate::text::lemma_split_concat(a, tail, ':');
            assert(split(addressing, ':') =~= seq![a, dp, dc]);
        },
        None => {},
    }
    let t = port_text(p)->Ok_0;
    assert(t =~= addressing + seq!['/'] + proto);
    assert(!has_char(addressing, '-')) by {
        if has_char(addressing, '-') {
            let i = choose|i: int| 0 <= i < addressing.len() && addressing[i] == '-';
            assert(addressing[i] == '-');
        }
    }
    assert(!has_char(t, '-')) by {
        if has_char(t, '-') {
            let i = choose|i: int| 0 <= i < t.len() && t[i] == '-';
            if i < addressing.len() {
                assert(addressing[i] == '-');
            } else if i > addressing.len() {
                assert(proto[i - addressing.len() - 1] == '-');
            }
        }
    }
    crate::scalar::lemma_last_index_of_concat(addressing, proto, '/');
    assert(t.take(addressing.len() as int) =~= addressing);
    assert(t.skip(addressing.len() as int + 1) =~= proto);
}

/// Every character of a dotted-quad IPv4 address is a digit or a dot.
proof fn lemma_ipv4_chars(a: Seq<char>, i: int)
    requires
        ipv4_address(a),
        0 <= i < a.len(),
    ensures
        crate::charset::in_set(crate::charset::Charset::Ipv4Spelling, a[i]),
{
    if a[i] != '.' {
        lemma_split_member(a, '.', i);
        let (k, j) = choose|k: int, j: int|
            0 <= k < split(a, '.').len() && 0 <= j < split(a, '.')[k].len() && split(a, '.')[k][j] == a[i];
        assert(ipv4_address(a));
        assert(0 <= k < 4);
        assert(crate::scalar::ipv4_octet(split(a, '.')[k]));
        assert(crate::number::all_digits(split(a, '.')[k]));
        assert(crate::text::is_digit(split(a, '.')[k][j]));
    }
}

/// Every non-separator character of `s` appears in one of its segments.
proof fn lemma_split_member(s: Seq<char>, sep: char, i: int)
    requires
        0 <= i < s.len(),
        s[i] != sep,
    ensures
        exists|k: int, j: int|
            0 <= k < split(s, sep).len() && 0 <= j < split(s, sep)[k].len() && split(s, sep)[k][j] == s[i],
    decreases s.len(),
{
    let prev = s.drop_last();
    crate::text::lemma_split_nonempty(prev, sep);
    let ps = split(prev, sep);
    if i < s.len() - 1 {
        lemma_split_member(prev, sep, i);
        let (k, j) = choose|k: int, j: int|
            0 <= k < ps.len() && 0 <= j < ps[k].len() && ps[k][j] == prev[i];
        if s.last() == sep {
            assert(split(s, sep)[k] == ps[k]);
        } else if k == ps.len() - 1 {
            assert(split(s, sep)[k] == ps[k].push(s.last()));
            assert(split(s, sep)[k][j] == ps[k][j]);
        } else {
            assert(split(s, sep)[k] == ps[k]);
        }
    } else {
        let k = ps.len() - 1;
        assert(split(s, sep)[k] == ps[k].push(s.last()));
        assert(split(s, sep)[k][ps[k].len() as int] == s[i]);
    }
}

// ---------------------------------------------------------------------------------------------
// Exposed ports
// ---------------------------------------------------------------------------------------------

/// A container port exposed to other containers without host publication.
#[derive(Clone, Copy, Debug, PartialEq, Eq, Structural)]
pub struct ExposedPort {
    /// Port inside the container.
    pub container: u16,
    /// Transport protocol.
    pub protocol: Protocol,
}

/// The `ExposeHostPort=` value of an exposed port: the port for tcp, `port/udp` for udp; sctp
/// cannot be written.
pub open spec fn exposed_port_text(port: ExposedPort) -> Result<Seq<char>, &'static str> {
    match port.protocol {
        Protocol::Tcp => Ok(decimal_text(port.container as nat)),
        Protocol::Udp => Ok(decimal_text(port.container as nat) + seq!['/', 'u', 'd', 'p']),
        Protocol::Sctp => Err("ExposeHostPort supports only tcp or udp"),
    }
}

/// Writes the `ExposeHostPort=` value of an exposed port.
pub fn exposed_port_value(port: ExposedPort) -> (value: Result<String, &'static str>)
    ensures
        match value {
            Ok(v) => exposed_port_text(port) == Ok::<Seq<char>, &'static str>(v@),
            Err(reason) => exposed_port_text(port) == Err::<Seq<char>, &'static str>(reason),
        },
{
    if port.protocol == Protocol::Sctp {
        return Err("ExposeHostPort supports only tcp or udp");
    }
    let mut out: Vec<char> = Vec::new();
    push_decimal(&mut out, port.container as u64);
    if port.protocol == Protocol::Udp {
        let ghost number = out@;
        out.push('/');
        out.push('u');
        out.push('d');
        out.push('p');
        assert(out@ =~= number + seq!['/', 'u', 'd', 'p']);
    }
    Ok(string_from(out.as_slice()))
}

/// The exposed port an `ExposeHostPort=` value denotes: a port, optionally followed by `/tcp`
/// or `/udp`; the port must be a non-zero `u16`.
pub open spec fn exposed_port_reading(value: Seq<char>) -> Result<ExposedPort, ValueIssue> {
    let parts = match split_once(value, '/') {
        None => Some((value, Protocol::Tcp)),
        Some((port, protocol)) => if protocol =~= seq!['t', 'c', 'p'] {
            Some((port, Protocol::Tcp))
        } else if protocol =~= seq!['u', 'd', 'p'] {
            Some((port, Protocol::Udp))
        } else {
            None
        },
    };
    match parts {
        None => Err(ValueIssue::Unsupported("ExposeHostPort supports only one tcp or udp port")),
        Some((port, protocol)) => match parse_unsigned_spec(port, u16::MAX as int) {
            None => Err(ValueIssue::Unsupported("ExposeHostPort ranges and deferred values are not exposure metadata")),
            Some(n) => if n == 0 {
                Err(ValueIssue::Invalid("ExposeHostPort cannot be zero"))
            } else {
                Ok(ExposedPort { container: n as u16, protocol })
            },
        },
    }
}

/// Reads an `ExposeHostPort=` value.
pub fn exposed_port(value: &str) -> (port: Result<ExposedPort, ValueIssue>)
    ensures
        port == exposed_port_reading(value@),
{
    let s = chars_of(value);
    let tcp = ['t', 'c', 'p'];
    let udp = ['u', 'd', 'p'];
    assert(tcp@ =~= seq!['t', 'c', 'p'] && udp@ =~= seq!['u', 'd', 'p']);
    let (digits, protocol) = match split_once_chars(s.as_slice(), '/') {
        None => (s, Protocol::Tcp),
        Some((port, name)) => {
            if crate::text::same_chars(name.as_slice(), tcp.as_slice()) {
                (port, Protocol::Tcp)
            } else if crate::text::same_chars(name.as_slice(), udp.as_slice()) {
                (port, Protocol::Udp)
            } else {
                return Err(ValueIssue::Unsupported("ExposeHostPort supports only one tcp or udp port"));
            }
        },
    };
    match parse_unsigned(digits.as_slice(), 65535) {
        None => Err(ValueIssue::Unsupported("ExposeHostPort ranges and deferred values are not exposure metadata")),
        Some(n) => {
            if n == 0 {
                Err(ValueIssue::Invalid("ExposeHostPort cannot be zero"))
            } else {
                Ok(ExposedPort { container: n as u16, protocol })
            }
        },
    }
}

/// A tcp or udp port exposed by a generated unit reads back as itself.
pub proof fn lemma_exposed_port_reads_back(port: ExposedPort)
    requires
        exposed_port_text(port) is Ok,
        port.container > 0,
    ensures
        exposed_port_reading(exposed_port_text(port)->Ok_0) == Ok::<ExposedPort, ValueIssue>(port),
{
    let n = decimal_text(port.container as nat);
    crate::number::lemma_parse_decimal_text(port.container as nat, u16::MAX as int);
    crate::number::lemma_decimal_text_value(port.container as nat);
    assert(!has_char(n, '/')) by {
        if has_char(n, '/') {
            let i = choose|i: int| 0 <= i < n.len() && n[i] == '/';
            assert(crate::text::is_digit(n[i]));
        }
    }
    if port.protocol == Protocol::Tcp {
        crate::text::lemma_split_single(n, '/');
    } else {
        crate::text::lemma_split_concat(n, seq!['u', 'd', 'p'], '/');
        crate::text::lemma_split_single(n, '/');
        assert(n + seq!['/', 'u', 'd', 'p'] =~= n + seq!['/'] + seq!['u', 'd', 'p']);
        assert(split(seq!['u', 'd', 'p'], '/').len() >= 1) by {
            crate::text::lemma_split_nonempty(seq!['u', 'd', 'p'], '/');
        }
        assert((n + seq!['/'] + seq!['u', 'd', 'p']).skip(n.len() as int + 1) =~= seq!['u', 'd', 'p']);
    }
}

/// Text without `c` has no last `c`.
proof fn lemma_no_last_index(s: Seq<char>, c: char)
    requires
        !has_char(s, c),
    ensures
        last_index_of(s, c) < 0,
    decreases s.len(),
{
    if s.len() > 0 {
        assert(s.last() == s[s.len() - 1]);
        assert(!has_char(s.drop_last(), c)) by {
            if has_char(s.drop_last(), c) {
                let i = choose|i: int| 0 <= i < s.drop_last().len() && s.drop_last()[i] == c;
                assert(s[i] == c);
            }
        }
        lemma_no_last_index(s.drop_last(), c);
    }
}

/// A `PublishPort` value without a protocol suffix is a TCP port: it reads exactly as the same
/// value with `/tcp` appended, and whenever it reads as a port, that port's protocol is TCP.
pub proof fn lemma_port_defaults_to_tcp(s: Seq<char>)
    requires
        s.len() > 0,
        !has_char(s, '/'),
    ensures
        port_reading(s) == port_reading(s + seq!['/', 't', 'c', 'p']),
        port_reading(s) matches Ok(p) ==> p.protocol == Protocol::Tcp,
{
    let tcp = seq!['t', 'c', 'p'];
    let t = s + seq!['/', 't', 'c', 'p'];
    assert(t =~= s + seq!['/'] + tcp);
    assert(!has_char(tcp, '/')) by {
        assert forall|i: int| 0 <= i < tcp.len() implies tcp[i] != '/' by {}
    }
    crate::scalar::lemma_last_index_of_concat(s, tcp, '/');
    lemma_no_last_index(s, '/');
    assert(t.take(s.len() as int) =~= s);
    assert(t.skip(s.len() as int + 1) =~= tcp);
    assert(port_sections(s) == port_sections(t));
    assert(has_char(s, '-') == has_char(t, '-')) by {
        if has_char(t, '-') {
            let i = choose|i: int| 0 <= i < t.len() && t[i] == '-';
            if i == s.len() {
                assert(t[i] == '/');
            } else if i > s.len() {
                assert(t[i] == tcp[i - s.len() - 1]);
            }
            assert(s[i] == '-');
        }
        if has_char(s, '-') {
            let i = choose|i: int| 0 <= i < s.len() && s[i] == '-';
            assert(t[i] == s[i]);
        }
    }
    assert(protocol_named(tcp) == Some(Protocol::Tcp));
}

} // verus!
