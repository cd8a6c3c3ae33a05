//! Forwarded ports.

use vstd::prelude::*;

use crate::duplicate::Duplicate;
use crate::json::{Json, JsonModel};
use crate::text;

verus! {

/// A port a devcontainer asks to be reachable from the host.
#[derive(Debug, PartialEq, Eq)]
pub enum ForwardedPort {
    /// A port on the container the agent runs in.
    Own(u16),
    /// `"<service>:<port>"`: a port on another compose service.
    Service { service: String, port: u16 },
    /// A complete publish specification, handed to the runtime as written.
    Published(String),
}

/// What a [`ForwardedPort`] stands for.
pub enum ForwardedPortModel {
    Own(u16),
    Service { service: Seq<char>, port: u16 },
    Published(Seq<char>),
}

impl DeepView for ForwardedPort {
    type V = ForwardedPortModel;

    open spec fn deep_view(&self) -> ForwardedPortModel {
        match self {
            ForwardedPort::Own(p) => ForwardedPortModel::Own(*p),
            ForwardedPort::Service { service, port } => ForwardedPortModel::Service {
                service: service@,
                port: *port,
            },
            ForwardedPort::Published(s) => ForwardedPortModel::Published(s@),
        }
    }
}

impl Duplicate for ForwardedPort {
    fn duplicate(&self) -> (r: Self) {
        match self {
            ForwardedPort::Own(p) => ForwardedPort::Own(*p),
            ForwardedPort::Service { service, port } => ForwardedPort::Service {
                service: service.clone(),
                port: *port,
            },
            ForwardedPort::Published(s) => ForwardedPort::Published(s.clone()),
        }
    }
}

/// The port that a JSON number spells: digits alone, at most 65535.
pub open spec fn port_number(n: Seq<char>) -> Option<u16> {
    if n.len() > 0 && n[0] != '+' {
        port_text(n)
    } else {
        None
    }
}

/// The port that a text spells.
pub open spec fn port_text(s: Seq<char>) -> Option<u16> {
    match text::parsed(s, 65535) {
        Some(n) => Some(n as u16),
        None => None,
    }
}

/// The publish specification of a port: on loopback, the same port on both sides.
pub open spec fn published(port: u16) -> Seq<char> {
    "127.0.0.1:"@ + text::decimal(port as nat) + ":"@ + text::decimal(port as nat)
}

/// One `forwardPorts` entry; none where it cannot be read.
pub open spec fn port_of(j: JsonModel) -> Option<ForwardedPortModel> {
    match j {
        JsonModel::Number(n) => match port_number(n) {
            Some(p) => Some(ForwardedPortModel::Own(p)),
            None => None,
        },
        JsonModel::Str(s) => match text::split_last(s, ':') {
            Some((service, port)) if service.len() > 0 => match port_text(port) {
                Some(p) => Some(ForwardedPortModel::Service { service, port: p }),
                None => None,
            },
            _ => match port_text(s) {
                Some(p) => Some(ForwardedPortModel::Own(p)),
                None => None,
            },
        },
        _ => None,
    }
}

impl ForwardedPortModel {
    /// The publish specification, where this names a port of the session's own container.
    pub open spec fn spec_text(self) -> Option<Seq<char>> {
        match self {
            ForwardedPortModel::Own(p) => Some(published(p)),
            ForwardedPortModel::Published(s) => Some(s),
            ForwardedPortModel::Service { .. } => None,
        }
    }
}

pub fn parse_port(s: &str) -> (r: Option<u16>)
    ensures
        r == port_text(s@),
{
    match text::parse_number(s, 65535) {
        Some(n) => Some(n as u16),
        None => None,
    }
}

impl ForwardedPort {
    /// Reads one `forwardPorts` entry. An entry that cannot be read yields `None`: the property is a
    /// convenience, and a session is worth more than a port.
    pub fn parse(value: &Json) -> (r: Option<ForwardedPort>)
        ensures
            r.deep_view() == port_of(value@),
    {
        match value {
            Json::Number(n) => {
                if n.as_str().unicode_len() > 0 && n.as_str().get_char(0) != '+' {
                    match parse_port(n.as_str()) {
                        Some(p) => Some(ForwardedPort::Own(p)),
                        None => None,
                    }
                } else {
                    None
                }
            },
            Json::Str(s) => {
                match text::rsplit_once(s.as_str(), ':') {
                    Some((service, port)) => {
                        if !service.is_empty() {
                            return match parse_port(port) {
                                Some(p) => Some(
                                    ForwardedPort::Service { service: service.to_owned(), port: p },
                                ),
                                None => None,
                            };
                        }
                    },
                    None => {},
                }
                match parse_port(s.as_str()) {
                    Some(p) => Some(ForwardedPort::Own(p)),
                    None => None,
                }
            },
            _ => None,
        }
    }

    /// The publish specification for a port, bound to loopback.
    pub fn publish_spec(port: u16) -> (r: String)
        ensures
            r@ == published(port),
    {
        let n = text::decimal_of(port as u64);
        text::cat4("127.0.0.1:", n.as_str(), ":", n.as_str())
    }

    /// The publish specification, where this names a port of the session's own container.
    pub fn spec(&self) -> (r: Option<String>)
        ensures
            r.deep_view() == self.deep_view().spec_text(),
    {
        match self {
            ForwardedPort::Own(p) => Some(ForwardedPort::publish_spec(*p)),
            ForwardedPort::Published(s) => Some(s.clone()),
            ForwardedPort::Service { .. } => None,
        }
    }

    /// Whether both name the same port.
    pub fn same(&self, other: &ForwardedPort) -> (r: bool)
        ensures
            r == (self.deep_view() == other.deep_view()),
    {
        match (self, other) {
            (ForwardedPort::Own(a), ForwardedPort::Own(b)) => *a == *b,
            (
                ForwardedPort::Service { service: a, port: p },
                ForwardedPort::Service { service: b, port: q },
            ) => text::eq(a.as_str(), b.as_str()) && *p == *q,
            (ForwardedPort::Published(a), ForwardedPort::Published(b)) => text::eq(a.as_str(), b.as_str()),
            _ => false,
        }
    }
}

// ----------------------------------------------------------------------------------------------
// What an entry means
// ----------------------------------------------------------------------------------------------

/// Every port can be written as a number, as a text and behind the name of a service, and is read back as
/// it was written. A number that is no port, and what is neither a number nor a text, is none.
pub proof fn law_a_port_is_read_as_written(port: u16, service: Seq<char>, n: nat, other: JsonModel)
    ensures
        ({
            let digits = text::decimal(port as nat);
            &&& port_of(JsonModel::Number(digits)) == Some(ForwardedPortModel::Own(port))
            &&& port_of(JsonModel::Str(digits)) == Some(ForwardedPortModel::Own(port))
            &&& service.len() > 0 ==> port_of(JsonModel::Str(service + ":"@ + digits)) == Some(
                ForwardedPortModel::Service { service, port },
            )
        }),
        n > 65535 ==> port_of(JsonModel::Number(text::decimal(n))) is None && port_of(
            JsonModel::Str(text::decimal(n)),
        ) is None,
        !(other is Number) && !(other is Str) ==> port_of(other) is None,
{
    let digits = text::decimal(port as nat);
    text::law_decimals_are_read_back(port as nat);
    text::law_decimals_are_read_back(n);
    assert(text::is_digit(digits[0]));
    assert(text::is_digit(text::decimal(n)[0]));
    text::lemma_last_end_is(digits, ':', 0);
    text::lemma_last_end_is(text::decimal(n), ':', 0);
    reveal_strlit(":");
    let s = service + ":"@ + digits;
    assert forall|j: int| service.len() + 1 <= j < s.len() implies s[j] != ':' by {
        assert(s[j] == digits[j - service.len() - 1]);
    }
    text::lemma_last_end_is(s, ':', service.len() as int + 1);
    assert(s.subrange(0, service.len() as int) =~= service);
    assert(s.subrange(service.len() as int + 1, s.len() as int) =~= digits);
}

/// A port of the session's own container is published on loopback, under its own number; one that is
/// published already is left as it is, and a service's port is not published here.
pub proof fn law_a_port_is_published_on_loopback(port: u16, given: Seq<char>, service: Seq<char>)
    ensures
        ForwardedPortModel::Own(port).spec_text() == Some(
            "127.0.0.1:"@ + text::decimal(port as nat) + ":"@ + text::decimal(port as nat),
        ),
        ForwardedPortModel::Published(given).spec_text() == Some(given),
        (ForwardedPortModel::Service { service, port }).spec_text() is None,
{
}

} // verus!
