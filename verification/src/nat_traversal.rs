//! NAT traversal: STUN binding requests and responses (XOR-MAPPED-ADDRESS),
//! SSDP discovery replies, UPnP port-mapping requests, and the service
//! state. Sockets and HTTP stay with the caller.

use vstd::prelude::*;
use crate::text::{owned, concat, u64_to_string, decimal, chars_of, line_ranges, lines_of, trim_range, trimmed};
use crate::strvec::views;

verus! {

/// An IP address.
#[derive(Debug, Clone, Copy, PartialEq, Eq)]
pub enum IpAddress {
    V4([u8; 4]),
    V6([u8; 16]),
}

/// NAT behaviour.
#[derive(Debug, Clone, Copy, PartialEq, Eq, Structural)]
pub enum NATType {
    Open,
    FullCone,
    RestrictedCone,
    PortRestrictedCone,
    Symmetric,
    Unknown,
}

/// Why a STUN response was rejected.
#[derive(Debug, Clone, Copy, PartialEq, Eq, Structural)]
pub enum StunError {
    /// Fewer than 20 bytes.
    TooShort,
    /// Not a Binding Success Response; carries the message type.
    UnexpectedMessageType(u16),
    /// The magic cookie is wrong.
    BadMagicCookie,
    /// No usable XOR-MAPPED-ADDRESS attribute.
    NoMappedAddress,
    /// The attribute is shorter than 8 bytes.
    MappedAddressTooShort,
    /// An IPv6 attribute shorter than 20 bytes.
    Ipv6AddressTooShort,
    /// Unknown address family; carries it.
    UnsupportedFamily(u8),
}

/// The STUN magic cookie.
pub const STUN_MAGIC_COOKIE: u32 = 0x2112A442;

/// The bytes an XOR-MAPPED-ADDRESS is masked with: the magic cookie, then
/// the transaction id of the message.
pub open spec fn xor_key(transaction_id: Seq<u8>) -> Seq<u8> {
    seq![0x21u8, 0x12u8, 0xA4u8, 0x42u8] + transaction_id
}

/// Big-endian 16-bit number at `i`.
pub open spec fn be16(d: Seq<u8>, i: int) -> int {
    d[i] as int * 256 + d[i + 1] as int
}

/// Big-endian 32-bit number at `i`.
pub open spec fn be32(d: Seq<u8>, i: int) -> int {
    ((d[i] as int * 256 + d[i + 1] as int) * 256 + d[i + 2] as int) * 256 + d[i + 3] as int
}

/// Outcome of walking the attributes of a STUN message.
pub enum AttributeWalk {
    /// XOR-MAPPED-ADDRESS value at `start`, `len` bytes long.
    Found(usize, usize),
    /// The walk ended without one.
    Missing,
    /// The declared length points past the data.
    Overrun,
}

/// Walks the attributes from `offset` while a 4-byte attribute header fits
/// below `limit`: an attribute whose value runs past the data ends the
/// walk; the first XOR-MAPPED-ADDRESS (type 0x0020) of at least 8 bytes is
/// the result.
pub open spec fn walk_attributes(d: Seq<u8>, offset: nat, limit: nat) -> AttributeWalk
    decreases d.len() - offset,
{
    if offset + 4 > limit {
        AttributeWalk::Missing
    } else if offset + 4 > d.len() {
        AttributeWalk::Overrun
    } else {
        let t = be16(d, offset as int);
        let l = be16(d, offset as int + 2) as nat;
        if offset + 4 + l > d.len() {
            AttributeWalk::Missing
        } else if t == 0x0020 && l >= 8 {
            AttributeWalk::Found((offset + 4) as usize, l as usize)
        } else {
            walk_attributes(d, offset + 4 + l, limit)
        }
    }
}

/// `d` XOR-ed byte by byte with `key`.
pub open spec fn unmasked(d: Seq<u8>, key: Seq<u8>) -> Seq<u8> {
    Seq::new(d.len(), |i: int| d[i] ^ key[i])
}

/// The address an XOR-MAPPED-ADDRESS value encodes (RFC 5389): family byte
/// 1, then from byte 4 the address, XOR-ed byte by byte with the magic
/// cookie (IPv4, 4 bytes) or with the cookie followed by the transaction id
/// (IPv6, 16 bytes).
pub open spec fn mapped_address(d: Seq<u8>, transaction_id: Seq<u8>) -> Result<Seq<u8>, StunError> {
    if d.len() < 8 {
        Err(StunError::MappedAddressTooShort)
    } else if d[1] == 1 {
        Ok(unmasked(d.subrange(4, 8), xor_key(transaction_id)))
    } else if d[1] == 2 {
        if d.len() < 20 {
            Err(StunError::Ipv6AddressTooShort)
        } else {
            Ok(unmasked(d.subrange(4, 20), xor_key(transaction_id)))
        }
    } else {
        Err(StunError::UnsupportedFamily(d[1]))
    }
}

/// The header of `d` is a Binding Success Response with the magic cookie.
pub open spec fn stun_header_ok(d: Seq<u8>) -> bool {
    d.len() >= 20 && be16(d, 0) == 0x0101 && be32(d, 4) == STUN_MAGIC_COOKIE
}

/// Reading `d` as a STUN response would read past its end.
pub open spec fn stun_overruns(d: Seq<u8>) -> bool {
    stun_header_ok(d) && walk_attributes(d, 20, (20 + be16(d, 2)) as nat) is Overrun
}

/// What a STUN response `d` maps to: the address bytes (4 or 16) or why it
/// was rejected.
pub open spec fn stun_result(d: Seq<u8>) -> Result<Seq<u8>, StunError> {
    if d.len() < 20 {
        Err(StunError::TooShort)
    } else if be16(d, 0) != 0x0101 {
        Err(StunError::UnexpectedMessageType(be16(d, 0) as u16))
    } else if be32(d, 4) != STUN_MAGIC_COOKIE {
        Err(StunError::BadMagicCookie)
    } else {
        match walk_attributes(d, 20, (20 + be16(d, 2)) as nat) {
            AttributeWalk::Found(s, l) => mapped_address(d.subrange(s as int, (s + l) as int), d.subrange(8, 20)),
            _ => Err(StunError::NoMappedAddress),
        }
    }
}

/// The bytes of an address.
pub open spec fn address_bytes(a: IpAddress) -> Seq<u8> {
    match a {
        IpAddress::V4(b) => b@,
        IpAddress::V6(b) => b@,
    }
}

/// The address result as bytes.
pub open spec fn result_bytes(r: Result<IpAddress, StunError>) -> Result<Seq<u8>, StunError> {
    match r {
        Ok(a) => Ok(address_bytes(a)),
        Err(e) => Err(e),
    }
}

/// Byte `i` of the mask for transaction id `transaction_id`.
fn key_byte(i: usize, transaction_id: &[u8; 12]) -> (b: u8)
    requires
        i < 16,
    ensures
        b == xor_key(transaction_id@)[i as int],
{
    if i == 0 {
        0x21
    } else if i == 1 {
        0x12
    } else if i == 2 {
        0xA4
    } else if i == 3 {
        0x42
    } else {
        transaction_id[i - 4]
    }
}

/// Decodes the value of an XOR-MAPPED-ADDRESS attribute of a message with
/// transaction id `transaction_id`.
pub fn parse_xor_mapped_address(data: &[u8], transaction_id: &[u8; 12]) -> (r: Result<IpAddress, StunError>)
    ensures
        result_bytes(r) == mapped_address(data@, transaction_id@),
        r matches Ok(a) ==> (a is V4 <==> data@[1] == 1),
{
    if data.len() < 8 {
        return Err(StunError::MappedAddressTooShort);
    }
    let family = data[1];
    if family == 1 {
        let mut ip = [0u8; 4];
        let mut i: usize = 0;
        while i < 4
            invariant
                i <= 4,
                data@.len() >= 8,
                forall|j: int| 0 <= j < i ==> ip@[j] == data@[4 + j] ^ xor_key(transaction_id@)[j],
            decreases 4 - i,
        {
            ip[i] = data[4 + i] ^ key_byte(i, transaction_id);
            i = i + 1;
        }
        assert(ip@ =~= unmasked(data@.subrange(4, 8), xor_key(transaction_id@)));
        Ok(IpAddress::V4(ip))
    } else if family == 2 {
        if data.len() < 20 {
            return Err(StunError::Ipv6AddressTooShort);
        }
        let mut ip = [0u8; 16];
        let mut i: usize = 0;
        while i < 16
            invariant
                i <= 16,
                data@.len() >= 20,
                forall|j: int| 0 <= j < i ==> ip@[j] == data@[4 + j] ^ xor_key(transaction_id@)[j],
            decreases 16 - i,
        {
            ip[i] = data[4 + i] ^ key_byte(i, transaction_id);
            i = i + 1;
        }
        assert(ip@ =~= unmasked(data@.subrange(4, 20), xor_key(transaction_id@)));
        Ok(IpAddress::V6(ip))
    } else {
        Err(StunError::UnsupportedFamily(family))
    }
}

/// Whether reading `data` as a STUN response would run past its end (the
/// declared message length promises an attribute header that is not
/// there).
pub fn stun_response_overruns(data: &[u8]) -> (b: bool)
    ensures
        b == stun_overruns(data@),
{
    if data.len() < 20 {
        return false;
    }
    let message_type = (data[0] as u16) * 256 + data[1] as u16;
    let cookie = (((data[4] as u32) * 256 + data[5] as u32) * 256 + data[6] as u32) * 256 + data[7] as u32;
    if message_type != 0x0101 || cookie != STUN_MAGIC_COOKIE {
        return false;
    }
    let limit = 20 + ((data[2] as usize) * 256 + data[3] as usize);
    match walk(data, limit) {
        AttributeWalk::Overrun => true,
        _ => false,
    }
}

/// Walks the attributes of `data` from offset 20 up to `limit`.
fn walk(data: &[u8], limit: usize) -> (r: AttributeWalk)
    requires
        data@.len() >= 20,
    ensures
        r == walk_attributes(data@, 20, limit as nat),
        r matches AttributeWalk::Found(s, l) ==> s + l <= data@.len(),
{
    let mut offset: usize = 20;
    while offset <= data.len()
        invariant
            20 <= offset <= data@.len(),
            walk_attributes(data@, 20, limit as nat) == walk_attributes(data@, offset as nat, limit as nat),
        decreases data@.len() + 1 - offset,
    {
        if offset > limit || limit - offset < 4 {
            return AttributeWalk::Missing;
        }
        if data.len() - offset < 4 {
            return AttributeWalk::Overrun;
        }
        let t = (data[offset] as usize) * 256 + data[offset + 1] as usize;
        let l = (data[offset + 2] as usize) * 256 + data[offset + 3] as usize;
        if data.len() - offset - 4 < l {
            return AttributeWalk::Missing;
        }
        if t == 0x0020 && l >= 8 {
            return AttributeWalk::Found(offset + 4, l);
        }
        offset = offset + 4 + l;
    }
    proof {
        assert(false);
    }
    AttributeWalk::Missing
}

/// Reads a STUN Binding Success Response and returns the address its
/// XOR-MAPPED-ADDRESS attribute carries.
pub fn parse_stun_response(data: &[u8]) -> (r: Result<IpAddress, StunError>)
    requires
        !stun_overruns(data@),
    ensures
        result_bytes(r) == stun_result(data@),
{
    if data.len() < 20 {
        return Err(StunError::TooShort);
    }
    let message_type = (data[0] as u16) * 256 + data[1] as u16;
    if message_type != 0x0101 {
        return Err(StunError::UnexpectedMessageType(message_type));
    }
    let cookie = (((data[4] as u32) * 256 + data[5] as u32) * 256 + data[6] as u32) * 256 + data[7] as u32;
    if cookie != STUN_MAGIC_COOKIE {
        return Err(StunError::BadMagicCookie);
    }
    let limit = 20 + ((data[2] as usize) * 256 + data[3] as usize);
    match walk(data, limit) {
        AttributeWalk::Found(start, len) => {
            let mut txid = [0u8; 12];
            let mut i: usize = 0;
            while i < 12
                invariant
                    i <= 12,
                    data@.len() >= 20,
                    forall|j: int| 0 <= j < i ==> txid@[j] == data@[8 + j],
                decreases 12 - i,
            {
                txid[i] = data[8 + i];
                i = i + 1;
            }
            assert(txid@ =~= data@.subrange(8, 20));
            parse_xor_mapped_address(vstd::slice::slice_subrange(data, start, start + len), &txid)
        },
        _ => Err(StunError::NoMappedAddress),
    }
}

} // verus!

verus! {

/// The 20 bytes of a STUN Binding Request with transaction id `txid`.
pub open spec fn binding_request(txid: Seq<u8>) -> Seq<u8> {
    seq![0x00u8, 0x01u8, 0x00u8, 0x00u8, 0x21u8, 0x12u8, 0xA4u8, 0x42u8] + txid
}

/// A STUN Binding Request (no attributes) with transaction id `txid`.
pub fn stun_binding_request(txid: &[u8; 12]) -> (r: Vec<u8>)
    ensures
        r@ == binding_request(txid@),
{
    let mut r: Vec<u8> = Vec::new();
    r.push(0x00);
    r.push(0x01);
    r.push(0x00);
    r.push(0x00);
    r.push(0x21);
    r.push(0x12);
    r.push(0xA4);
    r.push(0x42);
    let ghost head = r@;
    let mut i: usize = 0;
    while i < 12
        invariant
            i <= 12,
            head == seq![0x00u8, 0x01u8, 0x00u8, 0x00u8, 0x21u8, 0x12u8, 0xA4u8, 0x42u8],
            r@ == head + txid@.take(i as int),
        decreases 12 - i,
    {
        r.push(txid[i]);
        i = i + 1;
        assert(r@ =~= head + txid@.take(i as int));
    }
    assert(txid@.take(12) =~= txid@);
    r
}

/// Twelve random bytes from rand's thread RNG (`rand::random`). Nothing is
/// claimed of their values.
#[verifier::external_body]
fn random_transaction_id() -> [u8; 12] {
    rand::random()
}

/// The SSDP M-SEARCH request for Internet gateway devices.
pub fn ssdp_search_request() -> (r: String)
    ensures
        r@ == "M-SEARCH * HTTP/1.1\r\nHOST: 239.255.255.250:1900\r\nMAN: \"ssdp:discover\"\r\nMX: 3\r\nST: urn:schemas-upnp-org:device:InternetGatewayDevice:1\r\n\r\n"@,
{
    owned("M-SEARCH * HTTP/1.1\r\nHOST: 239.255.255.250:1900\r\nMAN: \"ssdp:discover\"\r\nMX: 3\r\nST: urn:schemas-upnp-org:device:InternetGatewayDevice:1\r\n\r\n")
}

/// A UPnP gateway found by SSDP.
#[derive(Debug)]
pub struct UpnpDevice {
    pub control_url: String,
    pub device_type: String,
}

/// `l` starts with `p`.
pub open spec fn starts_with(l: Seq<char>, p: Seq<char>) -> bool {
    p.len() <= l.len() && l.subrange(0, p.len() as int) == p
}

/// The text after the first ':' of `l`, trimmed (`None` without a ':').
pub open spec fn value_after_colon(l: Seq<char>) -> Option<Seq<char>> {
    match l.index_of_first(':') {
        Some(j) => Some(trimmed(l.skip(j + 1))),
        None => None,
    }
}

/// The LOCATION value of the first line that starts with "LOCATION:".
pub open spec fn ssdp_location(lines: Seq<Seq<char>>) -> Option<Seq<char>>
    decreases lines.len(),
{
    if lines.len() == 0 {
        None
    } else if starts_with(lines[0], "LOCATION:"@) {
        value_after_colon(lines[0])
    } else {
        ssdp_location(lines.drop_first())
    }
}

/// Each range of `rs` spans, in `cs`, the line of `lines` at its position.
#[verifier::opaque]
pub open spec fn ranges_cover(rs: Seq<(usize, usize)>, cs: Seq<char>, lines: Seq<Seq<char>>) -> bool {
    forall|q: int| 0 <= q < rs.len() ==> #[trigger] rs[q].0 <= rs[q].1 <= cs.len()
        && cs.subrange(rs[q].0 as int, rs[q].1 as int) == lines[q]
}

/// Reads the gateway location from an SSDP reply.
pub fn parse_ssdp_response(response: &str) -> (r: Option<UpnpDevice>)
    ensures
        match ssdp_location(lines_of(response@)) {
            Some(loc) => r matches Some(d) && d.control_url@ == loc && d.device_type@ == "InternetGatewayDevice"@,
            None => r is None,
        },
{
    let cs = chars_of(response);
    let ranges = line_ranges(&cs);
    let prefix = chars_of("LOCATION:");
    let ghost lines = lines_of(response@);
    let mut k: usize = 0;
    assert(lines.skip(0) =~= lines);
    assert(ranges_cover(ranges@, cs@, lines)) by {
        reveal(ranges_cover);
    }
    while k < ranges.len()
        invariant
            k <= ranges@.len(),
            cs@ == response@,
            prefix@ == "LOCATION:"@,
            lines == lines_of(cs@),
            ranges@.len() == lines.len(),
            ranges_cover(ranges@, cs@, lines),
            ssdp_location(lines) == ssdp_location(lines.skip(k as int)),
        decreases ranges@.len() - k,
    {
        let (a, b) = ranges[k];
        let ghost line = lines[k as int];
        proof {
            reveal(ranges_cover);
            assert(ranges@[k as int].0 <= ranges@[k as int].1 <= cs@.len());
            assert(lines.skip(k as int)[0] == line);
            assert(lines.skip(k as int).drop_first() =~= lines.skip(k + 1));
        }
        let mut starts = prefix.len() <= b - a;
        if starts {
            let mut i: usize = 0;
            while i < prefix.len()
                invariant
                    i <= prefix@.len(),
                    a + prefix@.len() <= b <= cs@.len(),
                    starts == (forall|t: int| 0 <= t < i ==> cs@[a + t] == prefix@[t]),
                decreases prefix@.len() - i,
            {
                if cs[a + i] != prefix[i] {
                    starts = false;
                }
                i = i + 1;
            }
        }
        proof {
            if starts {
                assert(line.subrange(0, prefix@.len() as int) =~= prefix@) by {
                    assert forall|t: int| 0 <= t < prefix@.len() implies line.subrange(0, prefix@.len() as int)[t] == prefix@[t] by {
                        assert(line[t] == cs@[a + t]);
                    }
                }
            } else if starts_with(line, prefix@) {
                assert(prefix@.len() <= b - a);
                assert forall|t: int| 0 <= t < prefix@.len() implies cs@[a + t] == prefix@[t] by {
                    assert(line.subrange(0, prefix@.len() as int)[t] == prefix@[t]);
                    assert(line[t] == cs@[a + t]);
                }
            }
        }
        if starts {
            let mut j: usize = a;
            while j < b && cs[j] != ':'
                invariant
                    a <= j <= b,
                    b <= cs@.len(),
                    forall|t: int| a <= t < j ==> cs@[t] != ':',
                decreases b - j,
            {
                j = j + 1;
            }
            proof {
                line.index_of_first_ensures(':');
                assert forall|t: int| 0 <= t < j - a implies line[t] != ':' by {
                    assert(line[t] == cs@[a + t]);
                }
            }
            if j == b {
                proof {
                    if line.contains(':') {
                        let t = choose|t: int| 0 <= t < line.len() && line[t] == ':';
                        assert(line[t] == cs@[a + t]);
                    }
                }
                return None;
            }
            proof {
                assert(line[j - a] == cs@[j as int]);
                let f = line.index_of_first(':')->0;
                assert(f == j - a);
            }
            let (ta, tb) = trim_range(&cs, j + 1, b);
            proof {
                assert(cs@.subrange(j + 1, b as int) =~= line.skip(j - a + 1));
            }
            let loc = response.substring_char(ta, tb).to_owned();
            return Some(UpnpDevice { control_url: loc, device_type: owned("InternetGatewayDevice") });
        }
        k = k + 1;
    }
    proof {
        assert(lines.skip(k as int).len() == 0);
    }
    None
}

/// The SOAP body of an AddPortMapping request for UDP from
/// `external_port` to `internal_port` on `client`.
pub open spec fn add_port_mapping_body(external_port: u16, internal_port: u16, client: Seq<char>) -> Seq<char> {
    "<?xml version=\"1.0\"?>\n<s:Envelope xmlns:s=\"http://schemas.xmlsoap.org/soap/envelope/\" s:encodingStyle=\"http://schemas.xmlsoap.org/soap/encoding/\">\n  <s:Body>\n    <u:AddPortMapping xmlns:u=\"urn:schemas-upnp-org:service:WANIPConnection:1\">\n      <NewRemoteHost></NewRemoteHost>\n      <NewExternalPort>"@
        + decimal(external_port as nat)
        + "</NewExternalPort>\n      <NewProtocol>UDP</NewProtocol>\n      <NewInternalPort>"@
        + decimal(internal_port as nat)
        + "</NewInternalPort>\n      <NewInternalClient>"@
        + client
        + "</NewInternalClient>\n      <NewEnabled>1</NewEnabled>\n      <NewPortMappingDescription>IPPAN Node</NewPortMappingDescription>\n      <NewLeaseDuration>0</NewLeaseDuration>\n    </u:AddPortMapping>\n  </s:Body>\n</s:Envelope>"@
}

/// The internal client used when the local address is unknown.
pub open spec fn fallback_client() -> Seq<char> {
    "192.168.1.100"@
}

/// Builds the AddPortMapping SOAP body; `local_ip` is the internal client
/// (192.168.1.100 when unknown).
pub fn soap_add_port_mapping(external_port: u16, internal_port: u16, local_ip: Option<&str>) -> (r: String)
    ensures
        r@ == add_port_mapping_body(external_port, internal_port, match local_ip {
            Some(ip) => ip@,
            None => fallback_client(),
        }),
{
    let client = match local_ip {
        Some(ip) => owned(ip),
        None => owned("192.168.1.100"),
    };
    let ext = u64_to_string(external_port as u64);
    let inner = u64_to_string(internal_port as u64);
    let s1 = concat("<?xml version=\"1.0\"?>\n<s:Envelope xmlns:s=\"http://schemas.xmlsoap.org/soap/envelope/\" s:encodingStyle=\"http://schemas.xmlsoap.org/soap/encoding/\">\n  <s:Body>\n    <u:AddPortMapping xmlns:u=\"urn:schemas-upnp-org:service:WANIPConnection:1\">\n      <NewRemoteHost></NewRemoteHost>\n      <NewExternalPort>", ext.as_str());
    let s2 = concat(s1.as_str(), "</NewExternalPort>\n      <NewProtocol>UDP</NewProtocol>\n      <NewInternalPort>");
    let s3 = concat(s2.as_str(), inner.as_str());
    let s4 = concat(s3.as_str(), "</NewInternalPort>\n      <NewInternalClient>");
    let s5 = concat(s4.as_str(), client.as_str());
    concat(s5.as_str(), "</NewInternalClient>\n      <NewEnabled>1</NewEnabled>\n      <NewPortMappingDescription>IPPAN Node</NewPortMappingDescription>\n      <NewLeaseDuration>0</NewLeaseDuration>\n    </u:AddPortMapping>\n  </s:Body>\n</s:Envelope>")
}

/// The port mapped through UPnP.
pub const UPNP_PORT: u16 = 8333;

/// NAT traversal state.
#[derive(Debug)]
pub struct NATService {
    pub external_ip: Option<IpAddress>,
    pub external_port: Option<u16>,
    pub nat_type: NATType,
    pub upnp_enabled: bool,
    pub stun_servers: Vec<String>,
    pub running: bool,
}

impl Default for NATService {
    /// Nothing known, UPnP off, no STUN servers, stopped.
    fn default() -> (s: Self)
        ensures
            s.external_ip is None,
            s.external_port is None,
            s.nat_type == NATType::Unknown,
            !s.upnp_enabled,
            s.stun_servers@.len() == 0,
            !s.running,
    {
        NATService {
            external_ip: None,
            external_port: None,
            nat_type: NATType::Unknown,
            upnp_enabled: false,
            stun_servers: Vec::new(),
            running: false,
        }
    }
}

impl NATService {
    /// Nothing known, UPnP off, Google's two public STUN servers, stopped.
    pub fn new() -> (s: Self)
        ensures
            s.external_ip is None,
            s.external_port is None,
            s.nat_type == NATType::Unknown,
            !s.upnp_enabled,
            views(s.stun_servers@) == seq!["stun.l.google.com:19302"@, "stun1.l.google.com:19302"@],
            !s.running,
    {
        let mut stun_servers: Vec<String> = Vec::new();
        stun_servers.push(owned("stun.l.google.com:19302"));
        stun_servers.push(owned("stun1.l.google.com:19302"));
        assert(views(stun_servers@) =~= seq!["stun.l.google.com:19302"@, "stun1.l.google.com:19302"@]);
        NATService {
            external_ip: None,
            external_port: None,
            nat_type: NATType::Unknown,
            upnp_enabled: false,
            stun_servers,
            running: false,
        }
    }

    /// Marks the service as running. Address discovery is not started.
    pub fn start(&mut self) -> (r: Result<(), StunError>)
        ensures
            r is Ok,
            final(self).running,
            final(self).external_ip == old(self).external_ip,
            final(self).external_port == old(self).external_port,
            final(self).nat_type == old(self).nat_type,
            final(self).upnp_enabled == old(self).upnp_enabled,
            final(self).stun_servers@ == old(self).stun_servers@,
    {
        self.running = true;
        Ok(())
    }

    /// Marks the service as stopped.
    pub fn stop(&mut self) -> (r: Result<(), StunError>)
        ensures
            r is Ok,
            !final(self).running,
            final(self).external_ip == old(self).external_ip,
            final(self).external_port == old(self).external_port,
            final(self).nat_type == old(self).nat_type,
            final(self).upnp_enabled == old(self).upnp_enabled,
            final(self).stun_servers@ == old(self).stun_servers@,
    {
        self.running = false;
        Ok(())
    }

    /// Records the external address found by STUN or an HTTP service.
    pub fn set_external_ip(&mut self, ip: IpAddress)
        ensures
            final(self).external_ip == Some(ip),
            final(self).external_port == old(self).external_port,
            final(self).nat_type == old(self).nat_type,
            final(self).upnp_enabled == old(self).upnp_enabled,
            final(self).stun_servers@ == old(self).stun_servers@,
            final(self).running == old(self).running,
    {
        self.external_ip = Some(ip);
    }

    /// Records the NAT type; no detection is implemented, so it is Unknown.
    pub fn determine_nat_type(&mut self)
        ensures
            final(self).nat_type == NATType::Unknown,
            final(self).external_ip == old(self).external_ip,
            final(self).external_port == old(self).external_port,
            final(self).upnp_enabled == old(self).upnp_enabled,
            final(self).stun_servers@ == old(self).stun_servers@,
            final(self).running == old(self).running,
    {
        self.nat_type = NATType::Unknown;
    }

    /// Records that a gateway accepted the UPnP mapping of `UPNP_PORT`.
    pub fn port_mapped(&mut self)
        ensures
            final(self).external_port == Some(UPNP_PORT),
            final(self).external_ip == old(self).external_ip,
            final(self).nat_type == old(self).nat_type,
            final(self).upnp_enabled == old(self).upnp_enabled,
            final(self).stun_servers@ == old(self).stun_servers@,
            final(self).running == old(self).running,
    {
        self.external_port = Some(UPNP_PORT);
    }

    /// A STUN Binding Request with a fresh random transaction id.
    pub fn create_stun_binding_request(&self) -> (r: Vec<u8>)
        ensures
            r@.len() == 20,
            r@.take(8) == seq![0x00u8, 0x01u8, 0x00u8, 0x00u8, 0x21u8, 0x12u8, 0xA4u8, 0x42u8],
    {
        let txid = random_transaction_id();
        let r = stun_binding_request(&txid);
        assert(r@.take(8) =~= seq![0x00u8, 0x01u8, 0x00u8, 0x00u8, 0x21u8, 0x12u8, 0xA4u8, 0x42u8]);
        r
    }

    pub fn get_external_ip(&self) -> (r: Option<IpAddress>)
        ensures
            r == self.external_ip,
    {
        self.external_ip
    }

    pub fn get_external_port(&self) -> (r: Option<u16>)
        ensures
            r == self.external_port,
    {
        self.external_port
    }

    pub fn get_nat_type(&self) -> (r: &NATType)
        ensures
            *r == self.nat_type,
    {
        &self.nat_type
    }

    pub fn is_upnp_enabled(&self) -> (b: bool)
        ensures
            b == self.upnp_enabled,
    {
        self.upnp_enabled
    }

    pub fn enable_upnp(&mut self)
        ensures
            final(self).upnp_enabled,
            final(self).external_ip == old(self).external_ip,
            final(self).external_port == old(self).external_port,
            final(self).nat_type == old(self).nat_type,
            final(self).stun_servers@ == old(self).stun_servers@,
            final(self).running == old(self).running,
    {
        self.upnp_enabled = true;
    }

    pub fn disable_upnp(&mut self)
        ensures
            !final(self).upnp_enabled,
            final(self).external_ip == old(self).external_ip,
            final(self).external_port == old(self).external_port,
            final(self).nat_type == old(self).nat_type,
            final(self).stun_servers@ == old(self).stun_servers@,
            final(self).running == old(self).running,
    {
        self.upnp_enabled = false;
    }

    pub fn add_stun_server(&mut self, server: String)
        ensures
            final(self).stun_servers@ == old(self).stun_servers@.push(server),
            final(self).external_ip == old(self).external_ip,
            final(self).external_port == old(self).external_port,
            final(self).nat_type == old(self).nat_type,
            final(self).upnp_enabled == old(self).upnp_enabled,
            final(self).running == old(self).running,
    {
        self.stun_servers.push(server);
    }

    pub fn get_stun_servers(&self) -> (r: &[String])
        ensures
            r@ == self.stun_servers@,
    {
        self.stun_servers.as_slice()
    }
}

} // verus!
