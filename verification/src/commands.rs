//! The command codec: one type per AT operation, each rendering itself to its
//! exact wire bytes within a declared capacity, and parsing the module's
//! line-oriented reply into its typed response.

use vstd::prelude::*;
use crate::bytes::all_digits;
use crate::bytes::ascii_check;
use crate::bytes::contains;
use crate::bytes::contains_seq;
use crate::bytes::dec_digits;
use crate::bytes::dec_value;
use crate::bytes::is_ascii_bytes;
use crate::bytes::is_match_at;
use crate::bytes::strip_cr;
use crate::bytes::lemma_dec_digits_len;
use crate::bytes::lines_of;
use crate::bytes::push_all;
use crate::bytes::push_dec_u32;
use crate::bytes::split_at_byte;
use crate::bytes::split_fields;
use crate::bytes::split_lines;
use crate::bytes::ten_pow;
use crate::bytes::trim_quotes;
use crate::bytes::trim_quotes_vec;
use crate::bytes::DecParse;
use crate::bytes::parse_dec;
use crate::responses::DNSResponse;
use crate::responses::EmptyResponse;
use crate::responses::HTTPResponse;
use crate::responses::IPResponse;
use crate::responses::WifiConnectResponse;
use crate::types::ContentType;
use crate::types::DNSMode;
use crate::types::HTTPMethode;
use crate::types::Header;
use crate::types::Ipv4Addr;
use crate::types::TransportType;

verus! {

/// Why a reply failed to parse.
#[derive(Clone, Copy, Debug, PartialEq, Eq, Structural)]
pub enum ParseError {
    /// The reply held a byte outside seven-bit ASCII.
    InvalidText,
    /// A declared size field exceeded the response capacity.
    Overflow,
}

/// The line ends in carriage return, line feed.
pub open spec fn ends_with_crlf(s: Seq<u8>) -> bool {
    s.len() >= 2 && s[s.len() - 2] == 13 && s[s.len() - 1] == 10
}

/// Declared capacity of the plain probe command.
pub const AT_MAX_LEN: usize = 4;

/// Declared capacity of the DHCP set command.
pub const DHCP_SET_MAX_LEN: usize = 20;

/// Declared capacity of the WiFi join command.
pub const WIFI_CONNECT_MAX_LEN: usize = 256;

/// Declared capacity of the station IP query command.
pub const IP_CMD_MAX_LEN: usize = 16;

/// Declared capacity of the DNS set command.
pub const SET_DNS_MAX_LEN: usize = 72;

/// Declared capacity of the DNS query command.
pub const GET_DNS_MAX_LEN: usize = 16;

/// Declared capacity of the HTTP client command.
pub const HTTP_CMD_MAX_LEN: usize = 4352;

/// The plain probe command `AT`.
#[derive(Clone, Copy, Debug)]
pub struct At;

impl At {
    /// `AT\r\n`.
    pub open spec fn spec_render(self) -> Seq<u8> {
        seq![65u8, 84u8, 13u8, 10u8]
    }

    /// Renders the probe line.
    pub fn as_bytes(&self) -> (r: Vec<u8>)
        ensures
            r@ == self.spec_render(),
            r@.len() <= AT_MAX_LEN,
            ends_with_crlf(r@),
    {
        let mut out: Vec<u8> = Vec::new();
        let lit: [u8; 4] = [65, 84, 13, 10];
        push_all(&mut out, lit.as_slice());
        proof {
            assert(out@ =~= self.spec_render());
        }
        out
    }
}

/// Enables or disables DHCP on the station or access-point interface.
#[derive(Clone, Copy, Debug)]
pub struct DHCPSet {
    pub operate: u8,
    pub mode: u8,
}

impl DHCPSet {
    /// `AT+CWDHCP=<operate>,<mode>\r\n`.
    pub open spec fn spec_render(self) -> Seq<u8> {
        seq![65u8, 84u8, 43u8, 67u8, 87u8, 68u8, 72u8, 67u8, 80u8, 61u8] + dec_digits(
            self.operate as nat,
        ) + seq![44u8] + dec_digits(self.mode as nat) + seq![13u8, 10u8]
    }

    /// Renders the DHCP set line.
    pub fn as_bytes(&self) -> (r: Vec<u8>)
        ensures
            r@ == self.spec_render(),
            r@.len() <= DHCP_SET_MAX_LEN,
            ends_with_crlf(r@),
    {
        let mut out: Vec<u8> = Vec::new();
        let lit: [u8; 10] = [65, 84, 43, 67, 87, 68, 72, 67, 80, 61];
        push_all(&mut out, lit.as_slice());
        push_dec_u32(&mut out, self.operate as u32);
        out.push(44);
        push_dec_u32(&mut out, self.mode as u32);
        out.push(13);
        out.push(10);
        proof {
            assert(out@ =~= self.spec_render());
            lemma_dec_u8_len(self.operate as nat);
            lemma_dec_u8_len(self.mode as nat);
        }
        out
    }
}

/// A byte below 256 renders in at most three decimal digits.
proof fn lemma_dec_u8_len(n: nat)
    requires
        n < 256,
    ensures
        1 <= dec_digits(n).len() <= 3,
{
    assert(ten_pow(0) == 1);
    assert(ten_pow(1) == 10);
    assert(ten_pow(2) == 100);
    assert(ten_pow(3) == 1000);
    lemma_dec_digits_len(n, 3);
}

/// Joins the station to an access point.
#[derive(Clone, Debug)]
pub struct WifiConnect {
    pub ssid: Vec<u8>,
    pub pw: Vec<u8>,
}

impl WifiConnect {
    /// The declared bounds of the network name and passphrase.
    pub open spec fn wf(self) -> bool {
        self.ssid@.len() <= 64 && self.pw@.len() <= 128
    }

    /// `AT+CWJAP="<ssid>","<pw>"\r\n`.
    pub open spec fn spec_render(self) -> Seq<u8> {
        seq![65u8, 84u8, 43u8, 67u8, 87u8, 74u8, 65u8, 80u8, 61u8, 34u8] + self.ssid@ + seq![
            34u8,
            44u8,
            34u8,
        ] + self.pw@ + seq![34u8, 13u8, 10u8]
    }

    /// Renders the join line.
    pub fn as_bytes(&self) -> (r: Vec<u8>)
        requires
            self.wf(),
        ensures
            r@ == self.spec_render(),
            r@.len() <= WIFI_CONNECT_MAX_LEN,
            ends_with_crlf(r@),
    {
        let mut out: Vec<u8> = Vec::new();
        let lit: [u8; 10] = [65, 84, 43, 67, 87, 74, 65, 80, 61, 34];
        push_all(&mut out, lit.as_slice());
        push_all(&mut out, self.ssid.as_slice());
        let mid: [u8; 3] = [34, 44, 34];
        push_all(&mut out, mid.as_slice());
        push_all(&mut out, self.pw.as_slice());
        let tail: [u8; 3] = [34, 13, 10];
        push_all(&mut out, tail.as_slice());
        proof {
            assert(out@ =~= self.spec_render());
        }
        out
    }
}

/// Queries the station IP and MAC addresses.
#[derive(Clone, Copy, Debug)]
pub struct IPCmd {}

impl IPCmd {
    /// `AT+CIFSR\r\n`.
    pub open spec fn spec_render(self) -> Seq<u8> {
        seq![65u8, 84u8, 43u8, 67u8, 73u8, 70u8, 83u8, 82u8, 13u8, 10u8]
    }

    /// Renders the IP query line.
    pub fn as_bytes(&self) -> (r: Vec<u8>)
        ensures
            r@ == self.spec_render(),
            r@.len() <= IP_CMD_MAX_LEN,
            ends_with_crlf(r@),
    {
        let mut out: Vec<u8> = Vec::new();
        let lit: [u8; 10] = [65, 84, 43, 67, 73, 70, 83, 82, 13, 10];
        push_all(&mut out, lit.as_slice());
        proof {
            assert(out@ =~= self.spec_render());
        }
        out
    }
}

/// Sets the DNS servers, each given as a dotted quad.
#[derive(Clone, Copy, Debug)]
pub struct SetDNSCmd {
    pub dns_mode: DNSMode,
    pub dns_ip1: Option<Ipv4Addr>,
    pub dns_ip2: Option<Ipv4Addr>,
    pub dns_ip3: Option<Ipv4Addr>,
}

/// An optional server renders as `,"a.b.c.d"` when present and as nothing
/// when absent.
pub open spec fn spec_render_opt_ip(ip: Option<Ipv4Addr>) -> Seq<u8> {
    match ip {
        Some(addr) => seq![44u8, 34u8] + addr.spec_render() + seq![34u8],
        None => seq![],
    }
}

impl SetDNSCmd {
    /// `AT+CIPDNS=<mode>[,"ip1"][,"ip2"][,"ip3"]\r\n`.
    pub open spec fn spec_render(self) -> Seq<u8> {
        seq![65u8, 84u8, 43u8, 67u8, 73u8, 80u8, 68u8, 78u8, 83u8, 61u8] + dec_digits(
            self.dns_mode.spec_ordinal() as nat,
        ) + spec_render_opt_ip(self.dns_ip1) + spec_render_opt_ip(self.dns_ip2)
            + spec_render_opt_ip(self.dns_ip3) + seq![13u8, 10u8]
    }

    /// Renders the DNS set line.
    pub fn as_bytes(&self) -> (r: Vec<u8>)
        ensures
            r@ == self.spec_render(),
            r@.len() <= SET_DNS_MAX_LEN,
            ends_with_crlf(r@),
    {
        let mut out: Vec<u8> = Vec::new();
        let lit: [u8; 10] = [65, 84, 43, 67, 73, 80, 68, 78, 83, 61];
        push_all(&mut out, lit.as_slice());
        push_dec_u32(&mut out, self.dns_mode.ordinal() as u32);
        push_opt_ip(&mut out, &self.dns_ip1);
        push_opt_ip(&mut out, &self.dns_ip2);
        push_opt_ip(&mut out, &self.dns_ip3);
        out.push(13);
        out.push(10);
        proof {
            assert(out@ =~= self.spec_render());
            lemma_dec_u8_len(self.dns_mode.spec_ordinal() as nat);
            lemma_opt_ip_len(self.dns_ip1);
            lemma_opt_ip_len(self.dns_ip2);
            lemma_opt_ip_len(self.dns_ip3);
        }
        out
    }
}

/// An optional server field is never longer than eighteen bytes.
proof fn lemma_opt_ip_len(ip: Option<Ipv4Addr>)
    ensures
        spec_render_opt_ip(ip).len() <= 18,
{
    match ip {
        Some(addr) => addr.lemma_render_len(),
        None => (),
    }
}

fn push_opt_ip(out: &mut Vec<u8>, ip: &Option<Ipv4Addr>)
    ensures
        final(out)@ == old(out)@ + spec_render_opt_ip(*ip),
{
    match ip {
        Some(addr) => {
            out.push(44);
            out.push(34);
            addr.render_onto(out);
            out.push(34);
            proof {
                assert(out@ =~= old(out)@ + spec_render_opt_ip(*ip));
            }
        },
        None => {
            proof {
                assert(out@ =~= old(out)@ + spec_render_opt_ip(*ip));
            }
        },
    }
}

/// Queries the configured DNS servers.
#[derive(Clone, Copy, Debug)]
pub struct GetDNSCmd {}

impl GetDNSCmd {
    /// `AT+CIPDNS?\r\n`.
    pub open spec fn spec_render(self) -> Seq<u8> {
        seq![65u8, 84u8, 43u8, 67u8, 73u8, 80u8, 68u8, 78u8, 83u8, 63u8, 13u8, 10u8]
    }

    /// Renders the DNS query line.
    pub fn as_bytes(&self) -> (r: Vec<u8>)
        ensures
            r@ == self.spec_render(),
            r@.len() <= GET_DNS_MAX_LEN,
            ends_with_crlf(r@),
    {
        let mut out: Vec<u8> = Vec::new();
        let lit: [u8; 12] = [65, 84, 43, 67, 73, 80, 68, 78, 83, 63, 13, 10];
        push_all(&mut out, lit.as_slice());
        proof {
            assert(out@ =~= self.spec_render());
        }
        out
    }
}

/// Headers joined with `&`, each rendered as `key=value`.
pub open spec fn spec_join_headers(hs: Seq<Header>) -> Seq<u8>
    decreases hs.len(),
{
    if hs.len() == 0 {
        seq![]
    } else if hs.len() == 1 {
        hs[0].spec_render()
    } else {
        spec_join_headers(hs.drop_last()) + seq![38u8] + hs.last().spec_render()
    }
}

/// A joined list of `n` well-formed headers takes at most `98 n - 1` bytes.
proof fn lemma_join_headers_len(hs: Seq<Header>)
    requires
        forall|i: int| 0 <= i < hs.len() ==> (#[trigger] hs[i]).wf(),
    ensures
        hs.len() == 0 ==> spec_join_headers(hs).len() == 0,
        hs.len() > 0 ==> spec_join_headers(hs).len() <= 98 * hs.len() - 1,
    decreases hs.len(),
{
    if hs.len() > 1 {
        lemma_join_headers_len(hs.drop_last());
    }
}

/// The host and path render as `,"host","path"` when both are present; an
/// incomplete pair renders as the two empty fields `,,`.
pub open spec fn spec_render_host_path(host: Option<Vec<u8>>, path: Option<Vec<u8>>) -> Seq<u8> {
    match (host, path) {
        (Some(h), Some(p)) => seq![44u8, 34u8] + h@ + seq![34u8, 44u8, 34u8] + p@ + seq![34u8],
        _ => seq![44u8, 44u8],
    }
}

/// An optional quoted field renders as `,"text"` when present and as nothing
/// when absent.
pub open spec fn spec_render_opt_quoted(text: Option<Vec<u8>>) -> Seq<u8> {
    match text {
        Some(t) => seq![44u8, 34u8] + t@ + seq![34u8],
        None => seq![],
    }
}

/// An HTTP request through the module's embedded client.
#[derive(Clone, Debug)]
pub struct HttpCmd {
    pub methode: HTTPMethode,
    pub content_type: ContentType,
    pub url: Vec<u8>,
    pub host: Option<Vec<u8>>,
    pub path: Option<Vec<u8>>,
    pub transport_type: TransportType,
    pub data: Option<Vec<u8>>,
    pub header: Option<Vec<Header>>,
}

impl HttpCmd {
    /// The declared bounds of every textual field.
    pub open spec fn wf(self) -> bool {
        &&& self.url@.len() <= 256
    &&& match self.host {
        Some(h) => h@.len() <= 64,
        None => true,
    }
    &&& match self.path {
        Some(p) => p@.len() <= 192,
        None => true,
    }
    &&& match self.data {
        Some(d) => d@.len() <= 2048,
        None => true,
    }
    &&& match self.header {
        Some(hs) => hs@.len() <= 16 && forall|i: int|
            0 <= i < hs@.len() ==> (#[trigger] hs@[i]).wf(),
        None => true,
    }
    }

    /// A request with the given method, URL and body; XML content over SSL,
    /// no explicit host, path or headers.
    pub fn new(methode: HTTPMethode, url: &[u8], data: Option<Vec<u8>>) -> (r: Self)
        ensures
            r.methode == methode,
            r.content_type == ContentType::TEXT_XML,
            r.url@ == url@,
            r.host is None,
            r.path is None,
            r.transport_type == TransportType::SSL,
            r.data == data,
            r.header is None,
    {
        HttpCmd {
            methode,
            content_type: ContentType::TEXT_XML,
            url: vstd::slice::slice_to_vec(url),
            host: None,
            path: None,
            transport_type: TransportType::SSL,
            data,
            header: None,
        }
    }

    /// The header list renders as `,"k1=v1&k2=v2"` when present and as
    /// nothing when absent.
    pub open spec fn spec_render_headers(self) -> Seq<u8> {
        match self.header {
            Some(hs) => seq![44u8, 34u8] + spec_join_headers(hs@) + seq![34u8],
            None => seq![],
        }
    }

    /// `AT+HTTPCLIENT=<method>,<content type>,"<url>"` then the host/path
    /// pair or `,,`, the transport ordinal, and the optional quoted body and
    /// header list, closed by CRLF.
    pub open spec fn spec_render(self) -> Seq<u8> {
        seq![65u8, 84u8, 43u8, 72u8, 84u8, 84u8, 80u8, 67u8, 76u8, 73u8, 69u8, 78u8, 84u8, 61u8]
            + dec_digits(self.methode.spec_ordinal() as nat) + seq![44u8] + dec_digits(
            self.content_type.spec_ordinal() as nat,
        ) + seq![44u8, 34u8] + self.url@ + seq![34u8] + spec_render_host_path(self.host, self.path)
            + seq![44u8] + dec_digits(self.transport_type.spec_ordinal() as nat)
            + spec_render_opt_quoted(self.data) + self.spec_render_headers() + seq![13u8, 10u8]
    }

    /// A well-formed request always renders within the declared capacity.
    pub proof fn lemma_render_len(self)
        requires
            self.wf(),
        ensures
            self.spec_render().len() <= HTTP_CMD_MAX_LEN,
    {
        assert(ten_pow(0) == 1);
        assert(ten_pow(1) == 10);
        lemma_dec_digits_len(self.methode.spec_ordinal() as nat, 1);
        lemma_dec_digits_len(self.content_type.spec_ordinal() as nat, 1);
        lemma_dec_digits_len(self.transport_type.spec_ordinal() as nat, 1);
        if let Some(hs) = self.header {
            lemma_join_headers_len(hs@);
        }
    }

    /// Renders the HTTP client line.
    pub fn as_bytes(&self) -> (r: Vec<u8>)
        requires
            self.wf(),
        ensures
            r@ == self.spec_render(),
            r@.len() <= HTTP_CMD_MAX_LEN,
            ends_with_crlf(r@),
    {
        let mut out: Vec<u8> = Vec::new();
        let lit: [u8; 14] = [65, 84, 43, 72, 84, 84, 80, 67, 76, 73, 69, 78, 84, 61];
        push_all(&mut out, lit.as_slice());
        push_dec_u32(&mut out, self.methode.ordinal() as u32);
        out.push(44);
        push_dec_u32(&mut out, self.content_type.ordinal() as u32);
        out.push(44);
        out.push(34);
        push_all(&mut out, self.url.as_slice());
        out.push(34);
        let ghost head = seq![
            65u8,
            84u8,
            43u8,
            72u8,
            84u8,
            84u8,
            80u8,
            67u8,
            76u8,
            73u8,
            69u8,
            78u8,
            84u8,
            61u8,
        ] + dec_digits(self.methode.spec_ordinal() as nat) + seq![44u8] + dec_digits(
            self.content_type.spec_ordinal() as nat,
        ) + seq![44u8, 34u8] + self.url@ + seq![34u8];
        proof {
            assert(out@ =~= head);
        }
        push_host_path(&mut out, &self.host, &self.path);
        out.push(44);
        push_dec_u32(&mut out, self.transport_type.ordinal() as u32);
        push_opt_quoted(&mut out, &self.data);
        let ghost with_data = head + spec_render_host_path(self.host, self.path) + seq![44u8]
            + dec_digits(self.transport_type.spec_ordinal() as nat) + spec_render_opt_quoted(
            self.data,
        );
        proof {
            assert(out@ =~= with_data);
        }
        push_header_list(&mut out, &self.header);
        out.push(13);
        out.push(10);
        proof {
            assert(out@ =~= with_data + self.spec_render_headers() + seq![13u8, 10u8]);
            assert(out@ =~= self.spec_render());
            self.lemma_render_len();
        }
        out
    }
}

fn push_host_path(out: &mut Vec<u8>, host: &Option<Vec<u8>>, path: &Option<Vec<u8>>)
    ensures
        final(out)@ == old(out)@ + spec_render_host_path(*host, *path),
{
    match (host, path) {
        (Some(h), Some(p)) => {
            out.push(44);
            out.push(34);
            push_all(out, h.as_slice());
            let mid: [u8; 3] = [34, 44, 34];
            push_all(out, mid.as_slice());
            push_all(out, p.as_slice());
            out.push(34);
            proof {
                assert(out@ =~= old(out)@ + spec_render_host_path(*host, *path));
            }
        },
        _ => {
            out.push(44);
            out.push(44);
            proof {
                assert(out@ =~= old(out)@ + spec_render_host_path(*host, *path));
            }
        },
    }
}

fn push_opt_quoted(out: &mut Vec<u8>, text: &Option<Vec<u8>>)
    ensures
        final(out)@ == old(out)@ + spec_render_opt_quoted(*text),
{
    match text {
        Some(t) => {
            out.push(44);
            out.push(34);
            push_all(out, t.as_slice());
            out.push(34);
            proof {
                assert(out@ =~= old(out)@ + spec_render_opt_quoted(*text));
            }
        },
        None => {
            proof {
                assert(out@ =~= old(out)@ + spec_render_opt_quoted(*text));
            }
        },
    }
}

fn push_header_list(out: &mut Vec<u8>, header: &Option<Vec<Header>>)
    ensures
        final(out)@ == old(out)@ + match *header {
            Some(hs) => seq![44u8, 34u8] + spec_join_headers(hs@) + seq![34u8],
            None => Seq::<u8>::empty(),
        },
{
    match header {
        Some(hs) => {
            out.push(44);
            out.push(34);
            let ghost hstart = out@;
            let mut i: usize = 0;
            while i < hs.len()
                invariant
                    i <= hs@.len(),
                    out@ == hstart + spec_join_headers(hs@.take(i as int)),
                decreases hs@.len() - i,
            {
                if i > 0 {
                    out.push(38);
                }
                let h = &hs[i];
                h.render_onto(out);
                proof {
                    assert(hs@.take(i + 1).drop_last() =~= hs@.take(i as int));
                    assert(hs@.take(i + 1).last() == hs@[i as int]);
                    assert(out@ =~= hstart + spec_join_headers(hs@.take(i + 1)));
                }
                i += 1;
            }
            out.push(34);
            proof {
                assert(hs@.take(hs@.len() as int) =~= hs@);
                assert(out@ =~= old(out)@ + (seq![44u8, 34u8] + spec_join_headers(hs@) + seq![
                    34u8,
                ]));
            }
        },
        None => {
            proof {
                assert(out@ =~= old(out)@ + Seq::<u8>::empty());
            }
        },
    }
}

/// The exact join sentinel `WIFI CONNECTED`.
pub open spec fn marker_wifi_connected() -> Seq<u8> {
    seq![87u8, 73u8, 70u8, 73u8, 32u8, 67u8, 79u8, 78u8, 78u8, 69u8, 67u8, 84u8, 69u8, 68u8]
}

/// The exact leave sentinel `WIFI DISCONNECTED`.
pub open spec fn marker_wifi_disconnected() -> Seq<u8> {
    seq![
        87u8,
        73u8,
        70u8,
        73u8,
        32u8,
        68u8,
        73u8,
        83u8,
        67u8,
        79u8,
        78u8,
        78u8,
        69u8,
        67u8,
        84u8,
        69u8,
        68u8,
    ]
}

/// The address-acquired sentinel `WIFI GOT IP`.
pub open spec fn marker_wifi_got_ip() -> Seq<u8> {
    seq![87u8, 73u8, 70u8, 73u8, 32u8, 71u8, 79u8, 84u8, 32u8, 73u8, 80u8]
}

/// The join flags after reading the lines in order: a disconnect sentinel
/// clears the connected flag, a connect sentinel sets it, and the got-IP
/// sentinel sets the second flag; every other line is passed over.
pub open spec fn spec_wifi_flags(ls: Seq<Seq<u8>>) -> (bool, bool)
    decreases ls.len(),
{
    if ls.len() == 0 {
        (false, false)
    } else {
        let prev = spec_wifi_flags(ls.drop_last());
        let l = ls.last();
        if contains_seq(l, marker_wifi_disconnected()) {
            (false, prev.1)
        } else if contains_seq(l, marker_wifi_connected()) {
            (true, prev.1)
        } else if contains_seq(l, marker_wifi_got_ip()) {
            (prev.0, true)
        } else {
            prev
        }
    }
}

/// What parsing a join reply yields: the two flags read from the reply's
/// lines, or a text error when the reply is not ASCII.
pub open spec fn spec_parse_wifi_connect(raw: Seq<u8>) -> Result<WifiConnectResponse, ParseError> {
    if !is_ascii_bytes(raw) {
        Err(ParseError::InvalidText)
    } else {
        Ok(
            WifiConnectResponse {
                connected: spec_wifi_flags(split_lines(raw)).0,
                got_ip: spec_wifi_flags(split_lines(raw)).1,
            },
        )
    }
}

impl WifiConnect {
    /// Reads the join reply: scans every line for the connection sentinels.
    pub fn parse(&self, resp: &[u8]) -> (r: Result<WifiConnectResponse, ParseError>)
        ensures
            r == spec_parse_wifi_connect(resp@),
    {
        if !ascii_check(resp) {
            return Err(ParseError::InvalidText);
        }
        let lines = lines_of(resp);
        let ghost ls = split_lines(resp@);
        let mut connected = false;
        let mut got_ip = false;
        let mut i: usize = 0;
        while i < lines.len()
            invariant
                i <= lines@.len(),
                lines.deep_view() == ls,
                connected == spec_wifi_flags(ls.take(i as int)).0,
                got_ip == spec_wifi_flags(ls.take(i as int)).1,
            decreases lines@.len() - i,
        {
            let l = &lines[i];
            proof {
                assert(ls[i as int] == lines@[i as int].deep_view());
                assert(ls.take(i + 1).drop_last() =~= ls.take(i as int));
                assert(ls.take(i + 1).last() == ls[i as int]);
            }
            let m_disc: [u8; 17] = [
                87,
                73,
                70,
                73,
                32,
                68,
                73,
                83,
                67,
                79,
                78,
                78,
                69,
                67,
                84,
                69,
                68,
            ];
            let m_conn: [u8; 14] = [87, 73, 70, 73, 32, 67, 79, 78, 78, 69, 67, 84, 69, 68];
            let m_gotip: [u8; 11] = [87, 73, 70, 73, 32, 71, 79, 84, 32, 73, 80];
            proof {
                assert(m_disc@ =~= marker_wifi_disconnected());
                assert(m_conn@ =~= marker_wifi_connected());
                assert(m_gotip@ =~= marker_wifi_got_ip());
                assert(l@ == ls[i as int]);
            }
            if contains(l.as_slice(), m_disc.as_slice()) {
                connected = false;
            } else if contains(l.as_slice(), m_conn.as_slice()) {
                connected = true;
            } else if contains(l.as_slice(), m_gotip.as_slice()) {
                got_ip = true;
            }
            i += 1;
        }
        proof {
            assert(ls.take(ls.len() as int) =~= ls);
        }
        Ok(WifiConnectResponse { connected, got_ip })
    }
}

impl At {
    /// The probe expects no data in its reply.
    pub fn parse(&self, resp: &[u8]) -> (r: Result<EmptyResponse, ParseError>)
        ensures
            r == Ok::<EmptyResponse, ParseError>(EmptyResponse {  }),
    {
        let _ = resp;
        Ok(EmptyResponse {  })
    }
}

impl DHCPSet {
    /// The DHCP set command expects no data in its reply.
    pub fn parse(&self, resp: &[u8]) -> (r: Result<EmptyResponse, ParseError>)
        ensures
            r == Ok::<EmptyResponse, ParseError>(EmptyResponse {  }),
    {
        let _ = resp;
        Ok(EmptyResponse {  })
    }
}

impl SetDNSCmd {
    /// The DNS set command expects no data in its reply.
    pub fn parse(&self, resp: &[u8]) -> (r: Result<EmptyResponse, ParseError>)
        ensures
            r == Ok::<EmptyResponse, ParseError>(EmptyResponse {  }),
    {
        let _ = resp;
        Ok(EmptyResponse {  })
    }
}

/// Splitting off one sentinel line: a line free of line feeds and carriage
/// returns, closed by CRLF, is the first line, and the rest splits on its
/// own.
proof fn lemma_single_line_split(m: Seq<u8>, rest: Seq<u8>)
    requires
        forall|i: int| 0 <= i < m.len() ==> #[trigger] m[i] != 10 && m[i] != 13,
    ensures
        split_lines(m + seq![13u8, 10u8] + rest) == seq![m] + split_lines(rest),
{
    let s = m + seq![13u8, 10u8] + rest;
    assert forall|j: int| 0 <= j < m.len() + 1 implies s[j] != 10 by {
        if j < m.len() {
            assert(s[j] == m[j]);
        } else {
            assert(s[j] == 13);
        }
    }
    assert(s[m.len() as int + 1] == 10);
    crate::bytes::lemma_first_byte_at(s, 10, m.len() as int + 1);
    assert(s.take(m.len() as int + 1) =~= m + seq![13u8]);
    assert((m + seq![13u8]).last() == 13);
    assert(strip_cr(m + seq![13u8]) =~= m);
    assert(s.skip(m.len() as int + 2) =~= rest);
    assert(split_lines(s) == seq![strip_cr(s.take(m.len() as int + 1))] + split_lines(
        s.skip(m.len() as int + 2),
    ));
    assert(strip_cr(s.take(m.len() as int + 1)) == m);
}

/// The reply the module sends for a join outcome: the matching connection
/// sentinel line, then the got-IP sentinel line when an address came.
pub open spec fn spec_simulated_join_reply(connected: bool, got_ip: bool) -> Seq<u8> {
    (if connected {
        marker_wifi_connected()
    } else {
        marker_wifi_disconnected()
    }) + seq![13u8, 10u8] + (if got_ip {
        marker_wifi_got_ip() + seq![13u8, 10u8]
    } else {
        Seq::<u8>::empty()
    })
}

/// Every byte of the three join sentinels is printable ASCII: no line feed,
/// no carriage return, below 128.
proof fn lemma_join_marker_bytes()
    ensures
        forall|i: int|
            0 <= i < marker_wifi_connected().len() ==> #[trigger] marker_wifi_connected()[i] != 10
                && marker_wifi_connected()[i] != 13 && marker_wifi_connected()[i] < 128,
        forall|i: int|
            0 <= i < marker_wifi_disconnected().len() ==> #[trigger] marker_wifi_disconnected()[i]
                != 10 && marker_wifi_disconnected()[i] != 13 && marker_wifi_disconnected()[i]
                < 128,
        forall|i: int|
            0 <= i < marker_wifi_got_ip().len() ==> #[trigger] marker_wifi_got_ip()[i] != 10
                && marker_wifi_got_ip()[i] != 13 && marker_wifi_got_ip()[i] < 128,
{
}

/// The simulated join reply is ASCII and splits into its sentinel lines.
proof fn lemma_join_reply_lines(connected: bool, got_ip: bool)
    ensures
        is_ascii_bytes(spec_simulated_join_reply(connected, got_ip)),
        split_lines(spec_simulated_join_reply(connected, got_ip)) =~= (if connected {
            seq![marker_wifi_connected()]
        } else {
            seq![marker_wifi_disconnected()]
        }) + (if got_ip {
            seq![marker_wifi_got_ip()]
        } else {
            Seq::<Seq<u8>>::empty()
        }),
{
    let m1 = if connected {
        marker_wifi_connected()
    } else {
        marker_wifi_disconnected()
    };
    let m2 = marker_wifi_got_ip();
    let crlf = seq![13u8, 10u8];
    let tail = if got_ip {
        m2 + crlf
    } else {
        Seq::<u8>::empty()
    };
    let reply = spec_simulated_join_reply(connected, got_ip);
    assert(reply =~= m1 + crlf + tail);
    lemma_join_marker_bytes();
    assert forall|i: int| 0 <= i < reply.len() implies reply[i] < 128 by {
        if i < m1.len() {
            assert(reply[i] == m1[i]);
        } else if i < m1.len() + 2 {
            assert(reply[i] == crlf[i - m1.len()]);
        } else {
            assert(reply[i] == tail[i - m1.len() - 2]);
            assert(got_ip);
            if i - m1.len() - 2 < m2.len() {
                assert(tail[i - m1.len() - 2] == m2[i - m1.len() - 2]);
            } else {
                assert(tail[i - m1.len() - 2] == crlf[i - m1.len() - 2 - m2.len()]);
            }
        }
    }
    lemma_single_line_split(m1, tail);
    if got_ip {
        assert(tail =~= m2 + crlf + Seq::<u8>::empty());
        lemma_single_line_split(m2, Seq::<u8>::empty());
        assert(split_lines(Seq::<u8>::empty()) =~= Seq::<Seq<u8>>::empty());
        assert(split_lines(tail) =~= seq![m2]);
    } else {
        assert(split_lines(tail) =~= Seq::<Seq<u8>>::empty());
    }
}

/// The flags after one connection-sentinel line alone.
proof fn lemma_flags_of_join_line(connected: bool)
    ensures
        spec_wifi_flags(
            if connected {
                seq![marker_wifi_connected()]
            } else {
                seq![marker_wifi_disconnected()]
            },
        ) == (connected, false),
{
    if connected {
        let m1 = marker_wifi_connected();
        assert(seq![m1].drop_last() =~= Seq::<Seq<u8>>::empty());
        assert(seq![m1].last() == m1);
        assert(spec_wifi_flags(Seq::<Seq<u8>>::empty()) == (false, false));
        assert(!contains_seq(m1, marker_wifi_disconnected())) by {
            assert forall|i: int| !is_match_at(m1, marker_wifi_disconnected(), i) by {}
        }
        assert(contains_seq(m1, m1)) by {
            assert(m1.subrange(0, m1.len() as int) =~= m1);
            assert(is_match_at(m1, m1, 0));
        }
        assert(spec_wifi_flags(seq![m1]) == (true, false));
    } else {
        let m1 = marker_wifi_disconnected();
        assert(seq![m1].drop_last() =~= Seq::<Seq<u8>>::empty());
        assert(seq![m1].last() == m1);
        assert(spec_wifi_flags(Seq::<Seq<u8>>::empty()) == (false, false));
        assert(contains_seq(m1, m1)) by {
            assert(m1.subrange(0, m1.len() as int) =~= m1);
            assert(is_match_at(m1, m1, 0));
        }
        assert(spec_wifi_flags(seq![m1]) == (false, false));
    }
}

/// A got-IP sentinel line sets the second flag and keeps the first.
proof fn lemma_flags_of_got_ip_line(ls: Seq<Seq<u8>>)
    ensures
        spec_wifi_flags(ls.push(marker_wifi_got_ip())) == (spec_wifi_flags(ls).0, true),
{
    let m2 = marker_wifi_got_ip();
    assert(ls.push(m2).drop_last() =~= ls);
    assert(ls.push(m2).last() == m2);
    assert(!contains_seq(m2, marker_wifi_disconnected())) by {
        assert forall|i: int| !is_match_at(m2, marker_wifi_disconnected(), i) by {}
    }
    assert(!contains_seq(m2, marker_wifi_connected())) by {
        assert forall|i: int| !is_match_at(m2, marker_wifi_connected(), i) by {}
    }
    assert(contains_seq(m2, m2)) by {
        assert(m2.subrange(0, m2.len() as int) =~= m2);
        assert(is_match_at(m2, m2, 0));
    }
}

/// Law (round trip): for every join outcome, the reply the module would
/// send for it parses back to exactly that outcome.
pub proof fn lemma_join_round_trip(connected: bool, got_ip: bool)
    ensures
        spec_parse_wifi_connect(spec_simulated_join_reply(connected, got_ip)) == Ok::<
            WifiConnectResponse,
            ParseError,
        >(WifiConnectResponse { connected, got_ip }),
{
    let m1 = if connected {
        marker_wifi_connected()
    } else {
        marker_wifi_disconnected()
    };
    let m2 = marker_wifi_got_ip();
    let reply = spec_simulated_join_reply(connected, got_ip);
    lemma_join_reply_lines(connected, got_ip);
    let ls = split_lines(reply);
    lemma_flags_of_join_line(connected);
    if got_ip {
        assert(ls =~= seq![m1].push(m2));
        lemma_flags_of_got_ip_line(seq![m1]);
    } else {
        assert(ls =~= seq![m1]);
    }
}

/// The station-address marker `STAIP`.
pub open spec fn marker_staip() -> Seq<u8> {
    seq![83u8, 84u8, 65u8, 73u8, 80u8]
}

/// The station-hardware-address marker `STAMAC`.
pub open spec fn marker_stamac() -> Seq<u8> {
    seq![83u8, 84u8, 65u8, 77u8, 65u8, 67u8]
}

/// The second comma-separated field of the line, quotes trimmed.
pub open spec fn spec_quoted_second_field(l: Seq<u8>) -> Seq<u8> {
    trim_quotes(split_at_byte(l, 44)[1])
}

/// The station IP and MAC texts after reading the lines in order: a line
/// with the address marker and a second field supplies that address, the
/// later line winning; every other line is passed over.
pub open spec fn spec_ip_fields(ls: Seq<Seq<u8>>) -> (Seq<u8>, Seq<u8>)
    decreases ls.len(),
{
    if ls.len() == 0 {
        (Seq::<u8>::empty(), Seq::<u8>::empty())
    } else {
        let prev = spec_ip_fields(ls.drop_last());
        let l = ls.last();
        if contains_seq(l, marker_staip()) && split_at_byte(l, 44).len() >= 2 {
            (spec_quoted_second_field(l), prev.1)
        } else if contains_seq(l, marker_stamac()) && split_at_byte(l, 44).len() >= 2 {
            (prev.0, spec_quoted_second_field(l))
        } else {
            prev
        }
    }
}

/// What parsing an IP query reply yields.
pub open spec fn spec_parse_ip(raw: Seq<u8>) -> Result<(Seq<u8>, Seq<u8>), ParseError> {
    if !is_ascii_bytes(raw) {
        Err(ParseError::InvalidText)
    } else {
        Ok(spec_ip_fields(split_lines(raw)))
    }
}

/// Copies the second comma-separated field with quotes trimmed; the line
/// must have one.
fn quoted_second_field(l: &[u8]) -> (r: Option<Vec<u8>>)
    ensures
        match r {
            Some(v) => split_at_byte(l@, 44).len() >= 2 && v@ == spec_quoted_second_field(l@),
            None => split_at_byte(l@, 44).len() < 2,
        },
{
    let fields = split_fields(l, 44);
    if fields.len() >= 2 {
        let f = &fields[1];
        proof {
            assert(fields@[1].deep_view() =~= fields@[1]@);
            assert(fields.deep_view()[1] == fields@[1].deep_view());
        }
        Some(trim_quotes_vec(f.as_slice()))
    } else {
        None
    }
}

impl IPCmd {
    /// Reads the IP query reply: scans every line for the address markers
    /// and keeps the quoted second field of each.
    pub fn parse(&self, resp: &[u8]) -> (r: Result<IPResponse, ParseError>)
        ensures
            match r {
                Ok(v) => spec_parse_ip(resp@) is Ok && v.stat_ip@ == spec_parse_ip(
                    resp@,
                ).unwrap().0 && v.stat_mac@ == spec_parse_ip(resp@).unwrap().1,
                Err(e) => spec_parse_ip(resp@) == Err::<(Seq<u8>, Seq<u8>), ParseError>(e),
            },
    {
        if !ascii_check(resp) {
            return Err(ParseError::InvalidText);
        }
        let lines = lines_of(resp);
        let ghost ls = split_lines(resp@);
        let mut stat_ip: Vec<u8> = Vec::new();
        let mut stat_mac: Vec<u8> = Vec::new();
        let mut i: usize = 0;
        proof {
            assert(stat_ip@ =~= spec_ip_fields(ls.take(0)).0);
            assert(stat_mac@ =~= spec_ip_fields(ls.take(0)).1);
        }
        while i < lines.len()
            invariant
                i <= lines@.len(),
                lines.deep_view() == ls,
                stat_ip@ == spec_ip_fields(ls.take(i as int)).0,
                stat_mac@ == spec_ip_fields(ls.take(i as int)).1,
            decreases lines@.len() - i,
        {
            let l = &lines[i];
            let m_ip: [u8; 5] = [83, 84, 65, 73, 80];
            let m_mac: [u8; 6] = [83, 84, 65, 77, 65, 67];
            proof {
                assert(m_ip@ =~= marker_staip());
                assert(m_mac@ =~= marker_stamac());
                assert(l@ == ls[i as int]);
                assert(ls.take(i + 1).drop_last() =~= ls.take(i as int));
                assert(ls.take(i + 1).last() == ls[i as int]);
            }
            if contains(l.as_slice(), m_ip.as_slice()) {
                if let Some(v) = quoted_second_field(l.as_slice()) {
                    stat_ip = v;
                }
            } else if contains(l.as_slice(), m_mac.as_slice()) {
                if let Some(v) = quoted_second_field(l.as_slice()) {
                    stat_mac = v;
                }
            }
            i += 1;
        }
        proof {
            assert(ls.take(ls.len() as int) =~= ls);
        }
        Ok(IPResponse { stat_ip, stat_mac })
    }
}

/// The DNS configuration marker `CIPDNS`.
pub open spec fn marker_cipdns() -> Seq<u8> {
    seq![67u8, 73u8, 80u8, 68u8, 78u8, 83u8]
}

/// Server field `k`, quotes trimmed, when the line carries one that is not
/// empty.
pub open spec fn spec_dns_opt(fs: Seq<Seq<u8>>, k: int) -> Option<Seq<u8>> {
    if k < fs.len() && fs[k].len() > 0 {
        Some(trim_quotes(fs[k]))
    } else {
        None
    }
}

/// What one line contributes to the DNS reply: a marker line shaped
/// `...CIPDNS...:<mode>[,"ip"]*` with mode 0 or 1 supplies the whole
/// configuration; any other line supplies nothing.
pub open spec fn spec_dns_line(l: Seq<u8>) -> Option<
    (DNSMode, Option<Seq<u8>>, Option<Seq<u8>>, Option<Seq<u8>>),
> {
    if !contains_seq(l, marker_cipdns()) {
        None
    } else if split_at_byte(l, 58).len() < 2 {
        None
    } else {
        let fs = split_at_byte(split_at_byte(l, 58)[1], 44);
        let m = fs[0];
        if m.len() > 0 && all_digits(m) && dec_value(m) == 0 {
            Some((DNSMode::AUTOMATIC, spec_dns_opt(fs, 1), spec_dns_opt(fs, 2), spec_dns_opt(fs, 3)))
        } else if m.len() > 0 && all_digits(m) && dec_value(m) == 1 {
            Some((DNSMode::MANUAL, spec_dns_opt(fs, 1), spec_dns_opt(fs, 2), spec_dns_opt(fs, 3)))
        } else {
            None
        }
    }
}

/// The DNS configuration after reading the lines in order, the later marker
/// line winning; automatic mode with no servers when none matched.
pub open spec fn spec_dns_fold(ls: Seq<Seq<u8>>) -> (
    DNSMode,
    Option<Seq<u8>>,
    Option<Seq<u8>>,
    Option<Seq<u8>>,
)
    decreases ls.len(),
{
    if ls.len() == 0 {
        (DNSMode::AUTOMATIC, None, None, None)
    } else {
        match spec_dns_line(ls.last()) {
            Some(t) => t,
            None => spec_dns_fold(ls.drop_last()),
        }
    }
}

/// What parsing a DNS query reply yields.
pub open spec fn spec_parse_dns(raw: Seq<u8>) -> Result<
    (DNSMode, Option<Seq<u8>>, Option<Seq<u8>>, Option<Seq<u8>>),
    ParseError,
> {
    if !is_ascii_bytes(raw) {
        Err(ParseError::InvalidText)
    } else {
        Ok(spec_dns_fold(split_lines(raw)))
    }
}

/// The view of an optional byte string.
pub open spec fn opt_view(o: Option<Vec<u8>>) -> Option<Seq<u8>> {
    match o {
        Some(v) => Some(v@),
        None => None,
    }
}

/// Copies server field `k` as `spec_dns_opt` describes it.
fn dns_opt_field(fs: &Vec<Vec<u8>>, k: usize) -> (r: Option<Vec<u8>>)
    ensures
        opt_view(r) == spec_dns_opt(fs.deep_view(), k as int),
{
    if k < fs.len() && fs[k].len() > 0 {
        let f = &fs[k];
        proof {
            assert(fs@[k as int].deep_view() =~= fs@[k as int]@);
            assert(fs.deep_view()[k as int] == fs@[k as int].deep_view());
        }
        Some(trim_quotes_vec(f.as_slice()))
    } else {
        proof {
            if k < fs@.len() {
                assert(fs@[k as int].deep_view() =~= fs@[k as int]@);
                assert(fs.deep_view()[k as int] == fs@[k as int].deep_view());
            }
        }
        None
    }
}

impl GetDNSCmd {
    /// Reads the DNS query reply: the last marker line with a valid mode
    /// field supplies the mode and up to three quoted server addresses.
    pub fn parse(&self, resp: &[u8]) -> (r: Result<DNSResponse, ParseError>)
        ensures
            match r {
                Ok(v) => spec_parse_dns(resp@) is Ok && v.dns_mode == spec_parse_dns(
                    resp@,
                ).unwrap().0 && opt_view(v.dns_1) == spec_parse_dns(resp@).unwrap().1 && opt_view(
                    v.dns_2,
                ) == spec_parse_dns(resp@).unwrap().2 && opt_view(v.dns_3) == spec_parse_dns(
                    resp@,
                ).unwrap().3,
                Err(e) => spec_parse_dns(resp@) is Err && spec_parse_dns(resp@)->Err_0 == e,
            },
    {
        if !ascii_check(resp) {
            return Err(ParseError::InvalidText);
        }
        let lines = lines_of(resp);
        let ghost ls = split_lines(resp@);
        let mut dns_mode = DNSMode::AUTOMATIC;
        let mut dns_1: Option<Vec<u8>> = None;
        let mut dns_2: Option<Vec<u8>> = None;
        let mut dns_3: Option<Vec<u8>> = None;
        let mut i: usize = 0;
        while i < lines.len()
            invariant
                i <= lines@.len(),
                lines.deep_view() == ls,
                dns_mode == spec_dns_fold(ls.take(i as int)).0,
                opt_view(dns_1) == spec_dns_fold(ls.take(i as int)).1,
                opt_view(dns_2) == spec_dns_fold(ls.take(i as int)).2,
                opt_view(dns_3) == spec_dns_fold(ls.take(i as int)).3,
            decreases lines@.len() - i,
        {
            let l = &lines[i];
            let m_dns: [u8; 6] = [67, 73, 80, 68, 78, 83];
            proof {
                assert(m_dns@ =~= marker_cipdns());
                assert(l@ == ls[i as int]);
                assert(ls.take(i + 1).drop_last() =~= ls.take(i as int));
                assert(ls.take(i + 1).last() == ls[i as int]);
            }
            if contains(l.as_slice(), m_dns.as_slice()) {
                let parts = split_fields(l.as_slice(), 58);
                if parts.len() >= 2 {
                    let rest = &parts[1];
                    proof {
                        assert(parts@[1].deep_view() =~= parts@[1]@);
                        assert(parts.deep_view()[1] == parts@[1].deep_view());
                        assert(rest@ == split_at_byte(l@, 58)[1]);
                    }
                    let fs = split_fields(rest.as_slice(), 44);
                    let m = &fs[0];
                    proof {
                        assert(fs.deep_view() == split_at_byte(split_at_byte(l@, 58)[1], 44));
                        assert(fs@[0].deep_view() =~= fs@[0]@);
                        assert(fs.deep_view()[0] == fs@[0].deep_view());
                        assert(m@ == split_at_byte(split_at_byte(l@, 58)[1], 44)[0]);
                    }
                    match parse_dec(m.as_slice()) {
                        DecParse::Value(0) => {
                            dns_mode = DNSMode::AUTOMATIC;
                            dns_1 = dns_opt_field(&fs, 1);
                            dns_2 = dns_opt_field(&fs, 2);
                            dns_3 = dns_opt_field(&fs, 3);
                        },
                        DecParse::Value(1) => {
                            dns_mode = DNSMode::MANUAL;
                            dns_1 = dns_opt_field(&fs, 1);
                            dns_2 = dns_opt_field(&fs, 2);
                            dns_3 = dns_opt_field(&fs, 3);
                        },
                        _ => {},
                    }
                }
            }
            i += 1;
        }
        proof {
            assert(ls.take(ls.len() as int) =~= ls);
        }
        Ok(DNSResponse { dns_mode, dns_1, dns_2, dns_3 })
    }
}

/// The HTTP client reply marker.
pub open spec fn marker_httpclient() -> Seq<u8> {
    seq![72u8, 84u8, 84u8, 80u8, 67u8, 76u8, 73u8, 69u8, 78u8, 84u8]
}

/// The body text of a marker line: the second comma-separated field — the
/// text between the first comma and the next one, or to the line's end — or
/// nothing when the line has no comma.
pub open spec fn spec_http_data_field(l: Seq<u8>) -> Seq<u8> {
    if split_at_byte(l, 44).len() >= 2 {
        split_at_byte(l, 44)[1]
    } else {
        Seq::<u8>::empty()
    }
}

/// What one line contributes to the HTTP reply: a marker line shaped
/// `...HTTPCLIENT...:<size>[,<data>]` supplies size and data, overflowing
/// when the declared size exceeds the 2048-byte capacity; any other line
/// supplies nothing.
pub open spec fn spec_http_line(l: Seq<u8>) -> Option<Result<(u32, Seq<u8>), ParseError>> {
    if !contains_seq(l, marker_httpclient()) {
        None
    } else if split_at_byte(l, 58).len() < 2 {
        None
    } else {
        let szf = split_at_byte(split_at_byte(l, 58)[1], 44)[0];
        if !(szf.len() > 0 && all_digits(szf)) {
            None
        } else if dec_value(szf) > 2048 {
            Some(Err(ParseError::Overflow))
        } else {
            Some(Ok((dec_value(szf) as u32, spec_http_data_field(l))))
        }
    }
}

/// The HTTP reply after reading the lines in order: the later marker line
/// wins, and an overflowing size field fails the whole parse.
pub open spec fn spec_http_fold(ls: Seq<Seq<u8>>) -> Result<(u32, Seq<u8>), ParseError>
    decreases ls.len(),
{
    if ls.len() == 0 {
        Ok((0, Seq::<u8>::empty()))
    } else {
        match spec_http_fold(ls.drop_last()) {
            Err(e) => Err(e),
            Ok(p) => match spec_http_line(ls.last()) {
                None => Ok(p),
                Some(x) => x,
            },
        }
    }
}

/// Once a prefix of the lines fails the parse, the whole reply fails with
/// that error.
proof fn lemma_http_fold_err(ls: Seq<Seq<u8>>, i: int)
    requires
        0 <= i <= ls.len(),
        spec_http_fold(ls.take(i)) is Err,
    ensures
        spec_http_fold(ls) == spec_http_fold(ls.take(i)),
    decreases ls.len() - i,
{
    if i == ls.len() {
        assert(ls.take(i) =~= ls);
    } else {
        assert(ls.take(i + 1).drop_last() =~= ls.take(i));
        lemma_http_fold_err(ls, i + 1);
    }
}

/// What parsing an HTTP reply yields.
pub open spec fn spec_parse_http(raw: Seq<u8>) -> Result<(u32, Seq<u8>), ParseError> {
    if !is_ascii_bytes(raw) {
        Err(ParseError::InvalidText)
    } else {
        spec_http_fold(split_lines(raw))
    }
}

impl HttpCmd {
    /// Reads the HTTP reply: the last marker line supplies the declared
    /// size and the body text, and a size beyond the 2048-byte capacity
    /// fails with an overflow.
    pub fn parse(&self, resp: &[u8]) -> (r: Result<HTTPResponse, ParseError>)
        ensures
            match r {
                Ok(v) => spec_parse_http(resp@) is Ok && v.size == spec_parse_http(
                    resp@,
                ).unwrap().0 && v.data@ == spec_parse_http(resp@).unwrap().1,
                Err(e) => spec_parse_http(resp@) is Err && spec_parse_http(resp@)->Err_0 == e,
            },
    {
        if !ascii_check(resp) {
            return Err(ParseError::InvalidText);
        }
        let lines = lines_of(resp);
        let ghost ls = split_lines(resp@);
        let mut size: u32 = 0;
        let mut data: Vec<u8> = Vec::new();
        let mut i: usize = 0;
        proof {
            assert(data@ =~= Seq::<u8>::empty());
        }
        while i < lines.len()
            invariant
                i <= lines@.len(),
                lines.deep_view() == ls,
                is_ascii_bytes(resp@),
                ls == split_lines(resp@),
                spec_http_fold(ls.take(i as int)) == Ok::<(u32, Seq<u8>), ParseError>(
                    (size, data@),
                ),
            decreases lines@.len() - i,
        {
            let l = &lines[i];
            let m_http: [u8; 10] = [72, 84, 84, 80, 67, 76, 73, 69, 78, 84];
            proof {
                assert(m_http@ =~= marker_httpclient());
                assert(l@ == ls[i as int]);
                assert(ls.take(i + 1).drop_last() =~= ls.take(i as int));
                assert(ls.take(i + 1).last() == ls[i as int]);
            }
            if contains(l.as_slice(), m_http.as_slice()) {
                let parts = split_fields(l.as_slice(), 58);
                if parts.len() >= 2 {
                    let rest = &parts[1];
                    proof {
                        assert(parts@[1].deep_view() =~= parts@[1]@);
                        assert(parts.deep_view()[1] == parts@[1].deep_view());
                        assert(rest@ == split_at_byte(l@, 58)[1]);
                    }
                    let fs = split_fields(rest.as_slice(), 44);
                    let szf = &fs[0];
                    proof {
                        assert(fs.deep_view() == split_at_byte(split_at_byte(l@, 58)[1], 44));
                        assert(fs@[0].deep_view() =~= fs@[0]@);
                        assert(fs.deep_view()[0] == fs@[0].deep_view());
                        assert(szf@ == split_at_byte(split_at_byte(l@, 58)[1], 44)[0]);
                    }
                    match parse_dec(szf.as_slice()) {
                        DecParse::Value(v) => {
                            if v > 2048 {
                                proof {
                                    assert(spec_http_line(ls[i as int]) == Some(
                                        Err::<(u32, Seq<u8>), ParseError>(ParseError::Overflow),
                                    ));
                                    assert(spec_http_fold(ls.take(i + 1)) == Err::<
                                        (u32, Seq<u8>),
                                        ParseError,
                                    >(ParseError::Overflow));
                                    lemma_http_fold_err(ls, i + 1);
                                    assert(spec_parse_http(resp@) == Err::<
                                        (u32, Seq<u8>),
                                        ParseError,
                                    >(ParseError::Overflow));
                                }
                                return Err(ParseError::Overflow);
                            }
                            size = v;
                            let dfields = split_fields(l.as_slice(), 44);
                            if dfields.len() >= 2 {
                                let d = &dfields[1];
                                proof {
                                    assert(dfields@[1].deep_view() =~= dfields@[1]@);
                                    assert(dfields.deep_view()[1] == dfields@[1].deep_view());
                                    assert(d@ == spec_http_data_field(l@));
                                }
                                data = vstd::slice::slice_to_vec(d.as_slice());
                            } else {
                                data = Vec::new();
                                proof {
                                    assert(data@ =~= Seq::<u8>::empty());
                                    assert(data@ == spec_http_data_field(l@));
                                }
                            }
                            proof {
                                assert(spec_http_line(ls[i as int]) == Some(
                                    Ok::<(u32, Seq<u8>), ParseError>((size, data@)),
                                ));
                            }
                        },
                        DecParse::TooBig => {
                            proof {
                                assert(dec_value(szf@) > 2048);
                                assert(spec_http_line(ls[i as int]) == Some(
                                    Err::<(u32, Seq<u8>), ParseError>(ParseError::Overflow),
                                ));
                                assert(spec_http_fold(ls.take(i + 1)) == Err::<
                                    (u32, Seq<u8>),
                                    ParseError,
                                >(ParseError::Overflow));
                                lemma_http_fold_err(ls, i + 1);
                                assert(spec_parse_http(resp@) == Err::<
                                    (u32, Seq<u8>),
                                    ParseError,
                                >(ParseError::Overflow));
                            }
                            return Err(ParseError::Overflow);
                        },
                        DecParse::NotNumeric => {},
                    }
                }
            }
            i += 1;
        }
        proof {
            assert(ls.take(ls.len() as int) =~= ls);
        }
        Ok(HTTPResponse { size, data })
    }
}

} // verus!
