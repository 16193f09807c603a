//! Interception listener: what to read out of the first bytes of a connection
//! that was redirected to loopback, and what to answer.
//!
//! Binding sockets and reading from them is the caller's part; the functions
//! here take the bytes that were read.

use crate::text::{append_decimal, chars_of, decimal, trim, trim_end_index, trim_start_index};
use vstd::prelude::*;
use vstd::slice::slice_subrange;
use vstd::string::*;
use vstd::utf8::{decode_utf8, valid_utf8};

verus! {

/// The text that a lossy UTF-8 decoding makes of `bytes`: each invalid
/// sequence becomes a replacement character.
pub uninterp spec fn utf8_lossy(bytes: Seq<u8>) -> Seq<char>;

/// Calls `String::from_utf8_lossy`. The contract names the text it gives, and
/// claims that valid UTF-8 is decoded as it stands.
#[verifier::external_body]
fn decode_lossy(bytes: &[u8]) -> (text: String)
    ensures
        text@ == utf8_lossy(bytes@),
        valid_utf8(bytes@) ==> text@ == decode_utf8(bytes@),
{
    String::from_utf8_lossy(bytes).into_owned()
}

/// The number that two bytes at `at` give, the high byte first.
pub open spec fn be16(data: Seq<u8>, at: int) -> int {
    data[at] as int * 256 + data[at + 1] as int
}

/// Where the extensions of a TLS ClientHello record begin: behind the record
/// and handshake headers, the version, the random, the session id, the cipher
/// suites, the compression methods and the length of the extensions. `None`
/// where `data` is no handshake record with a ClientHello, or ends before.
pub open spec fn extensions_start(data: Seq<u8>) -> Option<int> {
    if data.len() < 44 || data[0] != 0x16 || data[5] != 0x01 {
        None
    } else {
        let suites = 44 + data[43] as int;
        if suites + 2 > data.len() {
            None
        } else {
            let methods = suites + 2 + be16(data, suites);
            if methods + 1 > data.len() {
                None
            } else {
                let extensions = methods + 1 + data[methods] as int;
                if extensions + 2 > data.len() {
                    None
                } else {
                    Some(extensions + 2)
                }
            }
        }
    }
}

/// The bytes of the host name in a server-name extension whose body begins at
/// `body`: the first entry of its list, where that is a host name that lies
/// within `data`.
pub open spec fn host_name_range(data: Seq<u8>, body: int) -> Option<(int, int)> {
    if body + 5 > data.len() || data[body + 2] != 0 {
        None
    } else {
        let start = body + 5;
        let end = start + be16(data, body + 3);
        if end <= data.len() {
            Some((start, end))
        } else {
            None
        }
    }
}

/// The host name of the first server-name extension among the extensions that
/// begin at `pos`.
pub open spec fn server_name_from(data: Seq<u8>, pos: int) -> Option<(int, int)>
    decreases data.len() - pos,
{
    if pos < 0 || pos + 4 > data.len() {
        None
    } else if be16(data, pos) == 0 {
        host_name_range(data, pos + 4)
    } else if pos + 4 + be16(data, pos + 2) > data.len() {
        None
    } else {
        server_name_from(data, pos + 4 + be16(data, pos + 2))
    }
}

/// Where the server name stands in a ClientHello record, as first and
/// one-past-last position in `data`.
pub open spec fn sni_range(data: Seq<u8>) -> Option<(int, int)> {
    match extensions_start(data) {
        Some(pos) => server_name_from(data, pos),
        None => None,
    }
}

fn read_be16(data: &[u8], at: usize) -> (r: usize)
    requires
        at + 2 <= data@.len(),
    ensures
        r == be16(data@, at as int),
        r < 65536,
{
    let high: usize = data[at] as usize;
    let low: usize = data[at + 1] as usize;
    high * 256 + low
}

fn find_extensions(data: &[u8]) -> (r: Option<usize>)
    ensures
        match r {
            Some(pos) => extensions_start(data@) == Some(pos as int) && pos <= data@.len(),
            None => extensions_start(data@) is None,
        },
{
    let n = data.len();
    if n < 44 || data[0] != 0x16 || data[5] != 0x01 {
        return None;
    }
    let session: usize = data[43] as usize;
    if session + 2 > n - 44 {
        return None;
    }
    let suites = 44 + session;
    let methods_offset = read_be16(data, suites);
    if methods_offset + 1 > n - suites - 2 {
        return None;
    }
    let methods = suites + 2 + methods_offset;
    let skipped: usize = data[methods] as usize;
    if skipped + 2 > n - methods - 1 {
        return None;
    }
    Some(methods + 1 + skipped + 2)
}

/// Where the server name stands in the ClientHello record `data`.
pub fn sni_name_range(data: &[u8]) -> (r: Option<(usize, usize)>)
    ensures
        match r {
            Some((start, end)) => sni_range(data@) == Some((start as int, end as int)) && start
                <= end <= data@.len(),
            None => sni_range(data@) is None,
        },
{
    let n = data.len();
    let mut pos = match find_extensions(data) {
        Some(pos) => pos,
        None => {
            return None;
        },
    };
    loop
        invariant
            n == data@.len(),
            pos <= n,
            sni_range(data@) == server_name_from(data@, pos as int),
        decreases n - pos,
    {
        if n - pos < 4 {
            return None;
        }
        let kind = read_be16(data, pos);
        let length = read_be16(data, pos + 2);
        let body = pos + 4;
        if kind == 0 {
            if n - body < 5 || data[body + 2] != 0 {
                return None;
            }
            let name_length = read_be16(data, body + 3);
            let start = body + 5;
            if name_length > n - start {
                return None;
            }
            return Some((start, start + name_length));
        }
        if length > n - body {
            return None;
        }
        pos = body + length;
    }
}

/// The server name that a TLS ClientHello asks for, read from the first bytes
/// of a connection. Bytes that are no ClientHello, or that end before the name
/// does, give `None`.
pub fn parse_sni(data: &[u8]) -> (r: Option<String>)
    ensures
        match sni_range(data@) {
            Some((start, end)) => r matches Some(name) && name@ == utf8_lossy(
                data@.subrange(start, end),
            ) && (valid_utf8(data@.subrange(start, end)) ==> name@ == decode_utf8(
                data@.subrange(start, end),
            )),
            None => r is None,
        },
{
    match sni_name_range(data) {
        Some((start, end)) => Some(decode_lossy(slice_subrange(data, start, end))),
        None => None,
    }
}

/// The position of the first newline at or after `from`, or the length of
/// `text` where there is none.
pub open spec fn line_end(text: Seq<char>, from: int) -> int
    decreases text.len() - from,
{
    if from < 0 || from >= text.len() {
        text.len() as int
    } else if text[from] == '\n' {
        from
    } else {
        line_end(text, from + 1)
    }
}

/// Whether `line` begins with `host:`, in any mix of upper and lower case.
pub open spec fn is_host_line(line: Seq<char>) -> bool {
    &&& line.len() >= 5
    &&& (line[0] == 'h' || line[0] == 'H')
    &&& (line[1] == 'o' || line[1] == 'O')
    &&& (line[2] == 's' || line[2] == 'S')
    &&& (line[3] == 't' || line[3] == 'T')
    &&& line[4] == ':'
}

/// The value of the first `Host` header among the lines of `text` that begin
/// at or after `from`: what follows the colon, without the white space around
/// it.
pub open spec fn host_value_from(text: Seq<char>, from: int) -> Option<Seq<char>>
    decreases text.len() - from + 1,
{
    if from < 0 || from >= text.len() {
        None
    } else {
        let end = line_end(text, from);
        if is_host_line(text.subrange(from, end)) {
            Some(trim(text.subrange(from + 5, end)))
        } else {
            proof {
                lemma_line_end_bounds(text, from);
            }
            host_value_from(text, end + 1)
        }
    }
}

/// The value of the first `Host` header in `text`.
pub open spec fn host_value(text: Seq<char>) -> Option<Seq<char>> {
    host_value_from(text, 0)
}

/// A line ends at or after the position where it begins, and within the text.
pub proof fn lemma_line_end_bounds(text: Seq<char>, from: int)
    requires
        0 <= from <= text.len(),
    ensures
        from <= line_end(text, from) <= text.len(),
    decreases text.len() - from,
{
    if from < text.len() && text[from] != '\n' {
        lemma_line_end_bounds(text, from + 1);
    }
}

fn find_line_end(chars: &[char], from: usize) -> (r: usize)
    requires
        from <= chars@.len(),
    ensures
        r == line_end(chars@, from as int),
        from <= r <= chars@.len(),
{
    let n = chars.len();
    let mut k = from;
    while k < n && chars[k] != '\n'
        invariant
            n == chars@.len(),
            from <= k <= n,
            line_end(chars@, from as int) == line_end(chars@, k as int),
        decreases n - k,
    {
        k += 1;
    }
    k
}

fn starts_with_host(chars: &[char], from: usize, end: usize) -> (r: bool)
    requires
        from <= end <= chars@.len(),
    ensures
        r == is_host_line(chars@.subrange(from as int, end as int)),
{
    if end - from < 5 {
        return false;
    }
    (chars[from] == 'h' || chars[from] == 'H') && (chars[from + 1] == 'o' || chars[from + 1]
        == 'O') && (chars[from + 2] == 's' || chars[from + 2] == 'S') && (chars[from + 3] == 't'
        || chars[from + 3] == 'T') && chars[from + 4] == ':'
}

/// The value of the first `Host` header in the text of an HTTP request.
pub fn host_header_in_text(text: &str) -> (r: Option<String>)
    ensures
        match host_value(text@) {
            Some(value) => r matches Some(host) && host@ == value,
            None => r is None,
        },
{
    let chars = chars_of(text);
    let n = chars.len();
    let mut from: usize = 0;
    while from < n
        invariant
            n == chars@.len(),
            chars@ == text@,
            from <= n,
            host_value(text@) == if from < n {
                host_value_from(text@, from as int)
            } else {
                None
            },
        decreases n - from,
    {
        let end = find_line_end(chars.as_slice(), from);
        if starts_with_host(chars.as_slice(), from, end) {
            let a = trim_start_index(chars.as_slice(), from + 5, end);
            let b = trim_end_index(chars.as_slice(), a, end);
            return Some(text.substring_char(a, b).to_owned());
        }
        if end == n {
            assert(host_value_from(text@, end + 1) is None);
            return None;
        }
        from = end + 1;
    }
    None
}

/// The host that an HTTP request names in its `Host` header, read from the
/// first bytes of a connection. The bytes are decoded as UTF-8, invalid
/// sequences replaced.
pub fn parse_host_header(data: &[u8]) -> (r: Option<String>)
    ensures
        match host_value(utf8_lossy(data@)) {
            Some(value) => r matches Some(host) && host@ == value,
            None => r is None,
        },
        valid_utf8(data@) ==> match host_value(decode_utf8(data@)) {
            Some(value) => r matches Some(host) && host@ == value,
            None => r is None,
        },
{
    let text = decode_lossy(data);
    host_header_in_text(text.as_str())
}

/// What a blocked attempt was aimed at.
#[derive(Clone, Copy, Debug, PartialEq, Eq, Structural)]
pub enum TargetType {
    Website,
    App,
}

/// The tag under which the event log files a kind of target.
pub open spec fn target_tag(kind: TargetType) -> Seq<char> {
    match kind {
        TargetType::Website => "website"@,
        TargetType::App => "app"@,
    }
}

impl TargetType {
    /// The tag under which the event log files this kind of target.
    pub fn as_str(&self) -> (tag: &'static str)
        ensures
            tag@ == target_tag(*self),
    {
        match self {
            TargetType::Website => "website",
            TargetType::App => "app",
        }
    }
}

/// A blocked attempt that is to be logged.
#[derive(Debug)]
pub struct BlockNotice {
    pub target: String,
    pub target_type: TargetType,
}

/// The target under which every datagram on the QUIC port is logged.
pub const QUIC_TARGET: &'static str = "QUIC/UDP Protocol";

/// The warning of the block page where none is configured.
pub const DEFAULT_WARNING: &'static str = "Blocked by Bastion";

/// The notice for a datagram that arrived on the QUIC port. Its payload is
/// encrypted, so every datagram gives the same notice.
pub fn datagram_notice() -> (notice: BlockNotice)
    ensures
        notice.target@ == "QUIC/UDP Protocol"@,
        notice.target_type == TargetType::Website,
{
    BlockNotice { target: QUIC_TARGET.to_owned(), target_type: TargetType::Website }
}

/// The notice for an application that the enforcer terminated.
pub fn app_notice(name: &str) -> (notice: BlockNotice)
    ensures
        notice.target@ == name@,
        notice.target_type == TargetType::App,
{
    BlockNotice { target: name.to_owned(), target_type: TargetType::App }
}

/// The answer to a blocked HTTP request: status 403 and a page that shows
/// `warning`.
pub open spec fn block_page(warning: Seq<char>) -> Seq<char> {
    "HTTP/1.1 403 Forbidden\r\nContent-Type: text/html\r\n\r\n<h1>"@ + warning + "</h1>"@
}

/// The answer to a blocked HTTP request.
pub fn block_page_response(warning: &str) -> (response: String)
    ensures
        response@ == block_page(warning@),
{
    let mut response = "HTTP/1.1 403 Forbidden\r\nContent-Type: text/html\r\n\r\n<h1>".to_owned();
    response.append(warning);
    response.append("</h1>");
    response
}

/// What to do with a connection: the attempt to log, if a host was found, and
/// the answer to send before closing, if any.
#[derive(Debug)]
pub struct Interception {
    pub notice: Option<BlockNotice>,
    pub response: Option<String>,
}

/// The host that the first bytes of a connection on `port` ask for: on port
/// 443 the server name of a ClientHello, else the `Host` header of a request.
pub open spec fn requested_host(port: u16, data: Seq<u8>) -> Option<Seq<char>> {
    if port == 443 {
        match sni_range(data) {
            Some((start, end)) => Some(utf8_lossy(data.subrange(start, end))),
            None => None,
        }
    } else {
        host_value(utf8_lossy(data))
    }
}

/// Decides what to do with a connection on `port` from the bytes `data` that
/// its first read gave. A read that gave nothing leads to nothing: no notice,
/// no answer. Else the host that was asked for, if one is found, is to be
/// logged as a website; on port 80 the block page is the answer, and on any
/// other port there is none.
pub fn handle_request(port: u16, data: &[u8], warning: &str) -> (outcome: Interception)
    ensures
        data@.len() == 0 ==> outcome.notice is None && outcome.response is None,
        data@.len() > 0 ==> match requested_host(port, data@) {
            Some(host) => outcome.notice matches Some(notice) && notice.target@ == host
                && notice.target_type == TargetType::Website,
            None => outcome.notice is None,
        },
        match outcome.response {
            Some(response) => data@.len() > 0 && port == 80 && response@ == block_page(warning@),
            None => data@.len() == 0 || port != 80,
        },
{
    if data.len() == 0 {
        return Interception { notice: None, response: None };
    }
    let host = if port == 443 {
        parse_sni(data)
    } else {
        parse_host_header(data)
    };
    let notice = match host {
        Some(target) => Some(BlockNotice { target, target_type: TargetType::Website }),
        None => None,
    };
    let response = if port == 80 {
        Some(block_page_response(warning))
    } else {
        None
    };
    Interception { notice, response }
}

/// How a listener receives: connections or datagrams.
#[derive(Clone, Copy, Debug, PartialEq, Eq, Structural)]
pub enum Transport {
    Tcp,
    Udp,
}

/// A loopback socket to listen on.
#[derive(Debug)]
pub struct Endpoint {
    pub address: String,
    pub port: u16,
    pub transport: Transport,
}

/// An endpoint as plain values.
pub struct EndpointView {
    pub address: Seq<char>,
    pub port: u16,
    pub transport: Transport,
}

impl View for Endpoint {
    type V = EndpointView;

    open spec fn view(&self) -> EndpointView {
        EndpointView { address: self.address@, port: self.port, transport: self.transport }
    }
}

/// Whether `host` holds a colon, as an IPv6 address does.
pub open spec fn has_colon(host: Seq<char>) -> bool {
    exists|i: int| 0 <= i < host.len() && host[i] == ':'
}

/// The socket address of `host` and `port`: the host, in square brackets where
/// it holds a colon, then a colon and the port.
pub open spec fn socket_address_of(host: Seq<char>, port: u16) -> Seq<char> {
    if has_colon(host) {
        "["@ + host + "]:"@ + decimal(port as int)
    } else {
        host + ":"@ + decimal(port as int)
    }
}

/// The socket address of `host` and `port`.
pub fn socket_address(host: &str, port: u16) -> (address: String)
    ensures
        address@ == socket_address_of(host@, port),
{
    let chars = chars_of(host);
    let mut bracketed = false;
    let mut i: usize = 0;
    while i < chars.len()
        invariant
            i <= chars@.len(),
            chars@ == host@,
            bracketed == exists|k: int| 0 <= k < i && host@[k] == ':',
        decreases chars@.len() - i,
    {
        if chars[i] == ':' {
            bracketed = true;
        }
        i += 1;
    }
    let mut address = String::new();
    if bracketed {
        address.append("[");
        address.append(host);
        address.append("]:");
    } else {
        address.append(host);
        address.append(":");
    }
    append_decimal(&mut address, port as i64);
    address
}

/// The endpoint of `transport` on `host` and `port`.
pub open spec fn endpoint_of(transport: Transport, host: Seq<char>, port: u16) -> EndpointView {
    EndpointView { address: socket_address_of(host, port), port, transport }
}

/// The loopback sockets that catch redirected traffic: TCP on ports 80 and
/// 443 and UDP on port 443, each on the IPv4 and on the IPv6 loopback address.
pub open spec fn endpoints() -> Seq<EndpointView> {
    seq![
        endpoint_of(Transport::Tcp, "127.0.0.1"@, 80),
        endpoint_of(Transport::Tcp, "::1"@, 80),
        endpoint_of(Transport::Tcp, "127.0.0.1"@, 443),
        endpoint_of(Transport::Udp, "127.0.0.1"@, 443),
        endpoint_of(Transport::Tcp, "::1"@, 443),
        endpoint_of(Transport::Udp, "::1"@, 443),
    ]
}

fn endpoint(transport: Transport, host: &str, port: u16) -> (r: Endpoint)
    ensures
        r@ == endpoint_of(transport, host@, port),
{
    Endpoint { address: socket_address(host, port), port, transport }
}

/// The loopback sockets to listen on. Each is bound on its own: one that
/// cannot be bound does not keep the others from serving.
pub fn listener_endpoints() -> (list: Vec<Endpoint>)
    ensures
        list@.len() == endpoints().len(),
        forall|i: int| 0 <= i < list@.len() ==> (#[trigger] list@[i])@ == endpoints()[i],
{
    let mut list: Vec<Endpoint> = Vec::new();
    list.push(endpoint(Transport::Tcp, "127.0.0.1", 80));
    list.push(endpoint(Transport::Tcp, "::1", 80));
    list.push(endpoint(Transport::Tcp, "127.0.0.1", 443));
    list.push(endpoint(Transport::Udp, "127.0.0.1", 443));
    list.push(endpoint(Transport::Tcp, "::1", 443));
    list.push(endpoint(Transport::Udp, "::1", 443));
    list
}

} // verus!
