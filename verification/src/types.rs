//! Closed value types of the AT command set: wire ordinals for the enum
//! fields, HTTP headers, and IPv4 addresses held as plain octets.

use vstd::prelude::*;
use crate::bytes::dec_digits;
use crate::bytes::lemma_dec_digits_len;
use crate::bytes::push_dec_u32;
use crate::bytes::ten_pow;

verus! {

/// DNS configuration mode.
#[derive(Clone, Copy, Debug, PartialEq, Eq, Structural)]
pub enum DNSMode {
    AUTOMATIC,
    MANUAL,
}

impl DNSMode {
    /// The stable wire ordinal of the mode.
    pub open spec fn spec_ordinal(self) -> u8 {
        match self {
            DNSMode::AUTOMATIC => 0,
            DNSMode::MANUAL => 1,
        }
    }

    /// Renders the mode as its wire ordinal.
    pub fn ordinal(self) -> (r: u8)
        ensures
            r == self.spec_ordinal(),
    {
        match self {
            DNSMode::AUTOMATIC => 0,
            DNSMode::MANUAL => 1,
        }
    }
}

/// HTTP request method.
#[derive(Clone, Copy, Debug, PartialEq, Eq, Structural)]
pub enum HTTPMethode {
    HEAD,
    GET,
    POST,
    PUT,
    DELTE,
}

impl HTTPMethode {
    /// The stable wire ordinal of the method.
    pub open spec fn spec_ordinal(self) -> u8 {
        match self {
            HTTPMethode::HEAD => 1,
            HTTPMethode::GET => 2,
            HTTPMethode::POST => 3,
            HTTPMethode::PUT => 4,
            HTTPMethode::DELTE => 5,
        }
    }

    /// Renders the method as its wire ordinal.
    pub fn ordinal(self) -> (r: u8)
        ensures
            r == self.spec_ordinal(),
    {
        match self {
            HTTPMethode::HEAD => 1,
            HTTPMethode::GET => 2,
            HTTPMethode::POST => 3,
            HTTPMethode::PUT => 4,
            HTTPMethode::DELTE => 5,
        }
    }
}

/// HTTP request body content type.
#[derive(Clone, Copy, Debug, PartialEq, Eq, Structural)]
pub enum ContentType {
    X_WWW_FORM_URLENCODED,
    JSON,
    MULTIPART_FORM_DATA,
    TEXT_XML,
}

impl ContentType {
    /// The stable wire ordinal of the content type.
    pub open spec fn spec_ordinal(self) -> u8 {
        match self {
            ContentType::X_WWW_FORM_URLENCODED => 0,
            ContentType::JSON => 1,
            ContentType::MULTIPART_FORM_DATA => 2,
            ContentType::TEXT_XML => 3,
        }
    }

    /// Renders the content type as its wire ordinal.
    pub fn ordinal(self) -> (r: u8)
        ensures
            r == self.spec_ordinal(),
    {
        match self {
            ContentType::X_WWW_FORM_URLENCODED => 0,
            ContentType::JSON => 1,
            ContentType::MULTIPART_FORM_DATA => 2,
            ContentType::TEXT_XML => 3,
        }
    }
}

/// Transport under an HTTP request.
#[derive(Clone, Copy, Debug, PartialEq, Eq, Structural)]
pub enum TransportType {
    TCP,
    SSL,
}

impl TransportType {
    /// The stable wire ordinal of the transport.
    pub open spec fn spec_ordinal(self) -> u8 {
        match self {
            TransportType::TCP => 1,
            TransportType::SSL => 2,
        }
    }

    /// Renders the transport as its wire ordinal.
    pub fn ordinal(self) -> (r: u8)
        ensures
            r == self.spec_ordinal(),
    {
        match self {
            TransportType::TCP => 1,
            TransportType::SSL => 2,
        }
    }
}

/// One HTTP header, rendered on the wire as `key=value`.
#[derive(Clone, Debug, PartialEq, Eq)]
pub struct Header {
    pub key: Vec<u8>,
    pub value: Vec<u8>,
}

impl Header {
    /// The declared bounds of the two parts.
    pub open spec fn wf(self) -> bool {
        self.key@.len() <= 32 && self.value@.len() <= 64
    }

    /// `key=value`.
    pub open spec fn spec_render(self) -> Seq<u8> {
        self.key@ + seq![61u8] + self.value@
    }

    /// Appends `key=value` to `out`.
    pub fn render_onto(&self, out: &mut Vec<u8>)
        ensures
            final(out)@ == old(out)@ + self.spec_render(),
    {
        crate::bytes::push_all(out, self.key.as_slice());
        out.push(61);
        crate::bytes::push_all(out, self.value.as_slice());
        proof {
            assert(out@ =~= old(out)@ + self.spec_render());
        }
    }
}

/// An IPv4 address held as its four octets.
#[derive(Clone, Copy, Debug, PartialEq, Eq, Structural)]
pub struct Ipv4Addr {
    pub octet1: u8,
    pub octet2: u8,
    pub octet3: u8,
    pub octet4: u8,
}

impl Ipv4Addr {
    /// Builds the address `a.b.c.d`.
    pub fn new(a: u8, b: u8, c: u8, d: u8) -> (r: Ipv4Addr)
        ensures
            r.octet1 == a && r.octet2 == b && r.octet3 == c && r.octet4 == d,
    {
        Ipv4Addr { octet1: a, octet2: b, octet3: c, octet4: d }
    }

    /// The dotted-quad text of the address.
    pub open spec fn spec_render(self) -> Seq<u8> {
        dec_digits(self.octet1 as nat) + seq![46u8] + dec_digits(self.octet2 as nat) + seq![46u8]
            + dec_digits(self.octet3 as nat) + seq![46u8] + dec_digits(self.octet4 as nat)
    }

    /// A dotted quad is never longer than fifteen bytes.
    pub proof fn lemma_render_len(self)
        ensures
            self.spec_render().len() <= 15,
    {
        assert(ten_pow(0) == 1);
        assert(ten_pow(1) == 10);
        assert(ten_pow(2) == 100);
        assert(ten_pow(3) == 1000);
        lemma_dec_digits_len(self.octet1 as nat, 3);
        lemma_dec_digits_len(self.octet2 as nat, 3);
        lemma_dec_digits_len(self.octet3 as nat, 3);
        lemma_dec_digits_len(self.octet4 as nat, 3);
    }

    /// Appends the dotted-quad text to `out`.
    pub fn render_onto(&self, out: &mut Vec<u8>)
        ensures
            final(out)@ == old(out)@ + self.spec_render(),
    {
        push_dec_u32(out, self.octet1 as u32);
        out.push(46);
        push_dec_u32(out, self.octet2 as u32);
        out.push(46);
        push_dec_u32(out, self.octet3 as u32);
        out.push(46);
        push_dec_u32(out, self.octet4 as u32);
        proof {
            assert(out@ =~= old(out)@ + self.spec_render());
        }
    }
}

} // verus!
