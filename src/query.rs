use vstd::prelude::*;

use crate::text::{decimal_string, decimal_text, parse_u16, parsed_u16, text_eq};

verus! {

/// Known port protocols.
#[derive(Copy, Clone, Debug, PartialEq, Eq, Structural)]
pub enum SupportedProtocol {
    /// Protocol unspecified.
    Any,
    /// Transmission Control Protocol.
    Tcp,
    /// User Datagram Protocol.
    Udp,
    /// Stream Control Transmission Protocol.
    Sctp,
    /// Datagram Congestion Control Protocol.
    Dccp,
}

/// The lowercase name of a protocol.
pub open spec fn protocol_name(p: SupportedProtocol) -> Seq<char> {
    match p {
        SupportedProtocol::Any => "any"@,
        SupportedProtocol::Tcp => "tcp"@,
        SupportedProtocol::Udp => "udp"@,
        SupportedProtocol::Sctp => "sctp"@,
        SupportedProtocol::Dccp => "dccp"@,
    }
}

/// The protocol with the given lowercase name, compared case-sensitively.
pub open spec fn protocol_named(s: Seq<char>) -> Option<SupportedProtocol> {
    if s == "any"@ {
        Some(SupportedProtocol::Any)
    } else if s == "tcp"@ {
        Some(SupportedProtocol::Tcp)
    } else if s == "udp"@ {
        Some(SupportedProtocol::Udp)
    } else if s == "sctp"@ {
        Some(SupportedProtocol::Sctp)
    } else if s == "dccp"@ {
        Some(SupportedProtocol::Dccp)
    } else {
        None
    }
}

impl SupportedProtocol {
    /// The lowercase name of the protocol.
    pub fn name(&self) -> (r: &'static str)
        ensures
            r@ == protocol_name(*self),
    {
        match self {
            SupportedProtocol::Any => "any",
            SupportedProtocol::Tcp => "tcp",
            SupportedProtocol::Udp => "udp",
            SupportedProtocol::Sctp => "sctp",
            SupportedProtocol::Dccp => "dccp",
        }
    }

    /// The protocol with the given lowercase name.
    pub fn from_name(s: &str) -> (r: Option<SupportedProtocol>)
        ensures
            r == protocol_named(s@),
    {
        if text_eq(s, "any") {
            Some(SupportedProtocol::Any)
        } else if text_eq(s, "tcp") {
            Some(SupportedProtocol::Tcp)
        } else if text_eq(s, "udp") {
            Some(SupportedProtocol::Udp)
        } else if text_eq(s, "sctp") {
            Some(SupportedProtocol::Sctp)
        } else if text_eq(s, "dccp") {
            Some(SupportedProtocol::Dccp)
        } else {
            None
        }
    }
}

/// A port, optionally narrowed to one protocol.
#[derive(Copy, Clone, Debug, PartialEq, Eq, Structural)]
pub struct PortSelection {
    pub number: u16,
    pub protocol: SupportedProtocol,
}

/// Why a text is not a port selection.
#[derive(Clone, Debug)]
pub enum SelectionError {
    /// The text after `/` names no known protocol.
    UnknownProtocol { name: String },
    /// The port part is not a number from 0 to 65535.
    InvalidPortNumber { text: String },
}

/// The mathematical value of a [`SelectionError`].
pub enum SelectionFault {
    UnknownProtocol(Seq<char>),
    InvalidPortNumber(Seq<char>),
}

impl View for SelectionError {
    type V = SelectionFault;

    open spec fn view(&self) -> SelectionFault {
        match self {
            SelectionError::UnknownProtocol { name } => SelectionFault::UnknownProtocol(name@),
            SelectionError::InvalidPortNumber { text } => SelectionFault::InvalidPortNumber(text@),
        }
    }
}

/// The index of the first occurrence of `a` or `b` at or after `i`.
pub open spec fn first_of(s: Seq<char>, a: char, b: char, i: int) -> Option<int>
    decreases s.len() - i,
{
    if i < 0 || i >= s.len() {
        None
    } else if s[i] == a || s[i] == b {
        Some(i)
    } else {
        first_of(s, a, b, i + 1)
    }
}

/// The index of the first occurrence of `a` or `b` in `s`.
pub fn find_first_of(s: &str, a: char, b: char) -> (r: Option<usize>)
    ensures
        match r {
            Some(k) => first_of(s@, a, b, 0) == Some(k as int) && k < s@.len(),
            None => first_of(s@, a, b, 0) is None,
        },
{
    let n = s.unicode_len();
    let mut i: usize = 0;
    while i < n
        invariant
            n == s@.len(),
            i <= n,
            first_of(s@, a, b, 0) == first_of(s@, a, b, i as int),
        decreases n - i,
    {
        let c = s.get_char(i);
        if c == a || c == b {
            return Some(i);
        }
        i = i + 1;
    }
    None
}

/// The port selection a text writes: `<port>` or `<port>/<protocol>`, split at the
/// first `/`.
pub open spec fn selection_of(s: Seq<char>) -> Result<PortSelection, SelectionFault> {
    let (n, proto) = match first_of(s, '/', '/', 0) {
        Some(k) => (s.subrange(0, k), protocol_named(s.subrange(k + 1, s.len() as int))),
        None => (s, Some(SupportedProtocol::Any)),
    };
    match proto {
        None => Err(SelectionFault::UnknownProtocol(
            s.subrange(first_of(s, '/', '/', 0)->0 + 1, s.len() as int),
        )),
        Some(protocol) => match parsed_u16(n) {
            None => Err(SelectionFault::InvalidPortNumber(n)),
            Some(number) => Ok(PortSelection { number, protocol }),
        },
    }
}

/// How a selection is written: the port, then `/` and the protocol unless any
/// protocol is selected.
pub open spec fn selection_text(p: PortSelection) -> Seq<char> {
    match p.protocol {
        SupportedProtocol::Any => decimal_text(p.number as nat),
        _ => decimal_text(p.number as nat) + "/"@ + protocol_name(p.protocol),
    }
}

impl PortSelection {
    /// Reads `<port>` or `<port>/<protocol>`.
    pub fn parse(s: &str) -> (r: Result<PortSelection, SelectionError>)
        ensures
            match r {
                Ok(p) => selection_of(s@) == Ok::<PortSelection, SelectionFault>(p),
                Err(e) => selection_of(s@) == Err::<PortSelection, SelectionFault>(e@),
            },
    {
        let n = s.unicode_len();
        let (number_str, protocol) = match find_first_of(s, '/', '/') {
            Some(k) => {
                let p = s.substring_char(k + 1, n);
                match SupportedProtocol::from_name(p) {
                    Some(proto) => (s.substring_char(0, k), proto),
                    None => {
                        return Err(SelectionError::UnknownProtocol { name: String::from_str(p) });
                    },
                }
            },
            None => (s, SupportedProtocol::Any),
        };
        match parse_u16(number_str) {
            Some(number) => Ok(PortSelection { number, protocol }),
            None => Err(SelectionError::InvalidPortNumber { text: String::from_str(number_str) }),
        }
    }

    /// The selection written as `<port>` or `<port>/<protocol>`.
    pub fn to_text(&self) -> (r: String)
        ensures
            r@ == selection_text(*self),
    {
        let mut r = decimal_string(self.number as usize);
        match self.protocol {
            SupportedProtocol::Any => {},
            _ => {
                r.append("/");
                r.append(self.protocol.name());
            },
        }
        r
    }
}

impl SelectionError {
    /// A human-readable account of the error.
    pub fn message(&self) -> (r: String)
        ensures
            r@ == match self@ {
                SelectionFault::UnknownProtocol(p) => "Unknown protocol: \""@ + p + "\""@,
                SelectionFault::InvalidPortNumber(t) => "\""@ + t + "\" is not a valid port number"@,
            },
    {
        match self {
            SelectionError::UnknownProtocol { name } => {
                let mut r = String::from_str("Unknown protocol: \"");
                r.append(name.as_str());
                r.append("\"");
                r
            },
            SelectionError::InvalidPortNumber { text } => {
                let mut r = String::from_str("\"");
                r.append(text.as_str());
                r.append("\" is not a valid port number");
                r
            },
        }
    }
}

/// What the user asked for.
#[derive(Clone, Debug)]
pub enum UserQuery {
    /// A search term.
    Search(String),
    /// A port lookup.
    PortLookup(PortSelection),
}

impl UserQuery {
    /// A text that reads as a port selection is a lookup; any other text is a search.
    pub fn parse(s: &str) -> (r: UserQuery)
        ensures
            match r {
                UserQuery::PortLookup(p) => selection_of(s@) == Ok::<PortSelection, SelectionFault>(p),
                UserQuery::Search(t) => selection_of(s@) is Err && t@ == s@,
            },
    {
        match PortSelection::parse(s) {
            Ok(p) => UserQuery::PortLookup(p),
            Err(_) => UserQuery::Search(String::from_str(s)),
        }
    }

    /// The query written out: `Search: "<term>"`, or the port selection.
    pub fn to_text(&self) -> (r: String)
        ensures
            r@ == match self {
                UserQuery::Search(t) => "Search: \""@ + t@ + "\""@,
                UserQuery::PortLookup(p) => selection_text(*p),
            },
    {
        match self {
            UserQuery::Search(t) => {
                let mut r = String::from_str("Search: \"");
                r.append(t.as_str());
                r.append("\"");
                r
            },
            UserQuery::PortLookup(p) => p.to_text(),
        }
    }
}

impl std::str::FromStr for PortSelection {
    type Err = SelectionError;

    fn from_str(s: &str) -> Result<PortSelection, SelectionError> {
        PortSelection::parse(s)
    }
}

impl std::str::FromStr for UserQuery {
    type Err = std::convert::Infallible;

    fn from_str(s: &str) -> Result<UserQuery, std::convert::Infallible> {
        Ok(UserQuery::parse(s))
    }
}

} // verus!
