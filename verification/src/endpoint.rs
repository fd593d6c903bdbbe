//! Endpoints of game servers and their text in the catalog.
//!
//! A host name is written as `name:port`, an address as `|address:port`: the
//! bar occurs in no host name and in no address.

use vstd::prelude::*;
use vstd::string::*;
use crate::ip::{parse_ip, read_ip, IpAddr, IpView};
use crate::text::{chars_of, decimal, parse_u16, push_decimal, read_u16, string_of};

verus! {

/// Where a server is reached: at a host name or at an address.
#[derive(Debug, Clone, PartialEq, Eq, Hash)]
pub enum AddressKind {
    Name(String),
    Ip(IpAddr),
}

/// A server's address and port.
#[derive(Debug, Clone, PartialEq, Eq, Hash)]
pub struct Endpoint {
    pub address: AddressKind,
    pub port: u16,
}

/// What an address holds.
pub enum AddressView {
    Name(Seq<char>),
    Ip(IpView),
}

/// What an endpoint holds.
pub struct EndpointView {
    pub address: AddressView,
    pub port: u16,
}

impl View for AddressKind {
    type V = AddressView;

    open spec fn view(&self) -> AddressView {
        match self {
            AddressKind::Name(name) => AddressView::Name(name@),
            AddressKind::Ip(ip) => AddressView::Ip(ip@),
        }
    }
}

impl View for Endpoint {
    type V = EndpointView;

    open spec fn view(&self) -> EndpointView {
        EndpointView { address: self.address@, port: self.port }
    }
}

impl EndpointView {
    /// Whether the endpoint is found again from its text: every address
    /// is, and every host name that does not start with a bar.
    pub open spec fn round_trips(self) -> bool {
        match self.address {
            AddressView::Name(name) => name.len() == 0 || name[0] != '|',
            AddressView::Ip(ip) => ip.wf(),
        }
    }

    /// The text of the endpoint in the catalog.
    pub open spec fn text(self) -> Seq<char> {
        match self.address {
            AddressView::Name(name) => name + seq![':'] + decimal(self.port as nat),
            AddressView::Ip(ip) => seq!['|'] + ip.text() + seq![':'] + decimal(self.port as nat),
        }
    }
}

impl Endpoint {
    /// The endpoint at `address` and `port`.
    pub fn new(address: AddressKind, port: u16) -> (r: Self)
        ensures
            r.address == address,
            r.port == port,
    {
        Endpoint { address, port }
    }

    /// The text of the endpoint in the catalog. It is read back as the
    /// endpoint, unless the endpoint has a host name that starts with a bar.
    pub fn to_text(&self) -> (r: String)
        ensures
            r@ == self@.text(),
            self@.round_trips() ==> parse(r@) == Ok::<EndpointView, EndpointError>(self@),
    {
        proof {
            if self@.round_trips() {
                crate::round_trip::lemma_endpoint_round_trip(self@);
            }
        }
        let mut out = String::new();
        match &self.address {
            AddressKind::Name(name) => {
                out.append(name.as_str());
            },
            AddressKind::Ip(ip) => {
                // The bar tells an address from a host name when the text is read
                out.push('|');
                match ip {
                    IpAddr::V4(octets) => crate::ip::push_v4(&mut out, octets),
                    IpAddr::V6(groups) => crate::ip::push_v6(&mut out, groups),
                }
            },
        }
        out.push(':');
        push_decimal(&mut out, self.port as u64);
        assert(out@ =~= self@.text());
        out
    }
}

/// Why a text is no endpoint.
#[derive(Debug, Clone, Copy, PartialEq, Eq)]
pub enum EndpointError {
    /// The text holds no colon.
    MissingColon,
    /// What follows the last colon is no port.
    InvalidPort,
    /// What follows the bar is no address.
    InvalidAddress,
}

/// Whether the last colon of `text` stands at `i`.
pub open spec fn last_colon(text: Seq<char>, i: int) -> bool {
    &&& 0 <= i < text.len()
    &&& text[i] == ':'
    &&& forall|j: int| i < j < text.len() ==> text[j] != ':'
}

/// The endpoint that a text denotes, or why it denotes none. The text is
/// cut at its last colon. Behind it stands the port. In front of it stands a
/// host name or, behind a bar, an address.
pub open spec fn parse(text: Seq<char>) -> Result<EndpointView, EndpointError> {
    if !exists|i: int| last_colon(text, i) {
        Err(EndpointError::MissingColon)
    } else {
        let i = choose|i: int| last_colon(text, i);
        let address = text.take(i);
        match parse_u16(text.skip(i + 1)) {
            None => Err(EndpointError::InvalidPort),
            Some(port) => if address.len() > 0 && address[0] == '|' {
                match parse_ip(address.skip(1)) {
                    Some(ip) => Ok(EndpointView { address: AddressView::Ip(ip), port }),
                    None => Err(EndpointError::InvalidAddress),
                }
            } else {
                Ok(EndpointView { address: AddressView::Name(address), port })
            },
        }
    }
}

/// The position of the last colon of `text`.
fn find_last_colon(text: &[char]) -> (r: Option<usize>)
    ensures
        match r {
            Some(i) => last_colon(text@, i as int),
            None => forall|i: int| !last_colon(text@, i),
        },
{
    let mut i: usize = text.len();
    while i > 0
        invariant
            i <= text@.len(),
            forall|j: int| i <= j < text@.len() ==> text@[j] != ':',
        decreases i,
    {
        i -= 1;
        if text[i] == ':' {
            return Some(i);
        }
    }
    None
}

/// Reads an endpoint from its text in the catalog.
pub fn parse_endpoint(addr: &str) -> (r: Result<Endpoint, EndpointError>)
    ensures
        match r {
            Ok(endpoint) => parse(addr@) == Ok::<EndpointView, EndpointError>(endpoint@),
            Err(e) => parse(addr@) == Err::<EndpointView, EndpointError>(e),
        },
{
    let chars = chars_of(addr);
    let text = chars.as_slice();
    let at = match find_last_colon(text) {
        Some(at) => at,
        None => {
            return Err(EndpointError::MissingColon);
        },
    };
    proof {
        let i = choose|i: int| last_colon(text@, i);
        assert(last_colon(text@, at as int));
        assert(i == at);
    }
    let len = text.len();
    let address = vstd::slice::slice_subrange(text, 0, at);
    let port = match read_u16(vstd::slice::slice_subrange(text, at + 1, len)) {
        Some(port) => port,
        None => {
            return Err(EndpointError::InvalidPort);
        },
    };
    if address.len() > 0 && address[0] == '|' {
        match read_ip(vstd::slice::slice_subrange(address, 1, at)) {
            Some(ip) => Ok(Endpoint::new(AddressKind::Ip(ip), port)),
            None => Err(EndpointError::InvalidAddress),
        }
    } else {
        Ok(Endpoint::new(AddressKind::Name(string_of(address)), port))
    }
}

} // verus!
