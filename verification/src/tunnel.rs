//! The header that opens a logical stream of the data channel.
use vstd::prelude::*;

use crate::number;
use crate::number::decimal_text;
use crate::text;
use crate::text::{bytes_of, chars_of, join2};

verus! {

pub const PROTOCOL_VERSION: u8 = 1;

pub const MAX_HEADER_BYTES: usize = 8192;

pub const DEFAULT_MAX_STREAMS: usize = 128;

pub const DEFAULT_MAX_CONNECTION_WINDOW: usize = 67108864;

/// How a service is reached from the public side.
#[derive(Debug, Clone, Copy, PartialEq, Eq, Structural)]
pub enum TunnelProtocol {
    Tcp,
    Http,
    Https,
}

impl TunnelProtocol {
    /// The name of the protocol in messages.
    pub fn as_str(self) -> (r: &'static str)
        ensures
            r@ == (match self {
                TunnelProtocol::Tcp => "tcp"@,
                TunnelProtocol::Http => "http"@,
                TunnelProtocol::Https => "https"@,
            }),
    {
        match self {
            TunnelProtocol::Tcp => "tcp",
            TunnelProtocol::Http => "http",
            TunnelProtocol::Https => "https",
        }
    }
}

/// The header of a logical stream.
#[derive(Debug, Clone, PartialEq, Eq)]
pub struct LogicalStreamHeader {
    pub version: u8,
    pub tunnel_id: String,
    pub connection_id: String,
}

/// Why a header is refused.
#[derive(Debug, Clone, Copy, PartialEq, Eq)]
pub enum HeaderError {
    UnsupportedVersion(u8),
    EmptyIdentifier(&'static str),
    IdentifierTooLong(&'static str),
    InvalidIdentifier(&'static str),
    TooLarge,
    InvalidJson,
}

/// Why a header is refused, as mathematics.
pub enum HeaderFault {
    UnsupportedVersion(u8),
    EmptyIdentifier(Seq<char>),
    IdentifierTooLong(Seq<char>),
    InvalidIdentifier(Seq<char>),
    TooLarge,
    InvalidJson,
}

impl View for HeaderError {
    type V = HeaderFault;

    open spec fn view(&self) -> HeaderFault {
        match *self {
            HeaderError::UnsupportedVersion(v) => HeaderFault::UnsupportedVersion(v),
            HeaderError::EmptyIdentifier(label) => HeaderFault::EmptyIdentifier(label@),
            HeaderError::IdentifierTooLong(label) => HeaderFault::IdentifierTooLong(label@),
            HeaderError::InvalidIdentifier(label) => HeaderFault::InvalidIdentifier(label@),
            HeaderError::TooLarge => HeaderFault::TooLarge,
            HeaderError::InvalidJson => HeaderFault::InvalidJson,
        }
    }
}

impl HeaderFault {
    /// The message for the user.
    pub open spec fn text(self) -> Seq<char> {
        match self {
            HeaderFault::UnsupportedVersion(version) => "Tunnel 协议版本不受支持："@ + number::decimal(
                version as nat,
            ),
            HeaderFault::EmptyIdentifier(label) => label + " 不能为空"@,
            HeaderFault::IdentifierTooLong(label) => label + " 过长"@,
            HeaderFault::InvalidIdentifier(label) => label + " 含有不安全字符"@,
            HeaderFault::TooLarge => "逻辑流首部超过限制"@,
            HeaderFault::InvalidJson => "逻辑流首部 JSON 无效"@,
        }
    }
}

impl HeaderError {
    /// The message for the user.
    pub fn message(&self) -> (r: String)
        ensures
            r@ == self@.text(),
    {
        match *self {
            HeaderError::UnsupportedVersion(version) => join2(
                "Tunnel 协议版本不受支持：",
                decimal_text(version as u64).as_str(),
            ),
            HeaderError::EmptyIdentifier(label) => join2(label, " 不能为空"),
            HeaderError::IdentifierTooLong(label) => join2(label, " 过长"),
            HeaderError::InvalidIdentifier(label) => join2(label, " 含有不安全字符"),
            HeaderError::TooLarge => "逻辑流首部超过限制".to_owned(),
            HeaderError::InvalidJson => "逻辑流首部 JSON 无效".to_owned(),
        }
    }
}

/// Whether a character may stand in an identifier.
pub open spec fn identifier_char(c: char) -> bool {
    ('a' <= c <= 'z') || ('A' <= c <= 'Z') || ('0' <= c <= '9') || c == '-' || c == '_' || c == '.'
}

/// Why an identifier is refused, if it is: empty, above 256 bytes, or with another character.
pub open spec fn identifier_fault(label: Seq<char>, value: Seq<char>) -> Option<HeaderFault> {
    if value.len() == 0 {
        Some(HeaderFault::EmptyIdentifier(label))
    } else if text::byte_len(value) > 256 {
        Some(HeaderFault::IdentifierTooLong(label))
    } else if exists|i: int| 0 <= i < value.len() && !identifier_char(#[trigger] value[i]) {
        Some(HeaderFault::InvalidIdentifier(label))
    } else {
        None
    }
}

/// Why a header is refused, if it is: the first reason that holds.
pub open spec fn header_fault(version: u8, tunnel: Seq<char>, connection: Seq<char>) -> Option<
    HeaderFault,
> {
    if version != PROTOCOL_VERSION {
        Some(HeaderFault::UnsupportedVersion(version))
    } else if identifier_fault("Tunnel ID"@, tunnel) is Some {
        identifier_fault("Tunnel ID"@, tunnel)
    } else {
        identifier_fault("连接 ID"@, connection)
    }
}

/// Checks one identifier of a header.
pub fn validate_identifier(label: &'static str, value: &str) -> (r: Result<(), HeaderError>)
    ensures
        match r {
            Ok(_) => identifier_fault(label@, value@) is None,
            Err(e) => identifier_fault(label@, value@) == Some(e@),
        },
{
    if value.is_empty() {
        return Err(HeaderError::EmptyIdentifier(label));
    }
    if bytes_of(value) > 256 {
        return Err(HeaderError::IdentifierTooLong(label));
    }
    let text: Vec<char> = chars_of(value);
    let mut i: usize = 0;
    while i < text.len()
        invariant
            i <= text@.len(),
            text@ == value@,
            value@.len() > 0,
            text::byte_len(value@) <= 256,
            forall|j: int| 0 <= j < i ==> identifier_char(#[trigger] value@[j]),
        decreases text@.len() - i,
    {
        let c: char = text[i];
        let safe: bool = ('a' <= c && c <= 'z') || ('A' <= c && c <= 'Z') || ('0' <= c && c <= '9')
            || c == '-' || c == '_' || c == '.';
        if !safe {
            assert(!identifier_char(value@[i as int]));
            return Err(HeaderError::InvalidIdentifier(label));
        }
        i = i + 1;
    }
    Ok(())
}

impl LogicalStreamHeader {
    /// A header for one connection of a service.
    pub fn new(tunnel_id: &str, connection_id: &str) -> (r: Result<
        LogicalStreamHeader,
        HeaderError,
    >)
        ensures
            match r {
                Ok(header) => header_fault(PROTOCOL_VERSION, tunnel_id@, connection_id@) is None
                    && header.version == PROTOCOL_VERSION && header.tunnel_id@ == tunnel_id@
                    && header.connection_id@ == connection_id@,
                Err(e) => header_fault(PROTOCOL_VERSION, tunnel_id@, connection_id@) == Some(e@),
            },
    {
        let header: LogicalStreamHeader = LogicalStreamHeader {
            version: PROTOCOL_VERSION,
            tunnel_id: tunnel_id.to_owned(),
            connection_id: connection_id.to_owned(),
        };
        match header.validate() {
            Ok(_) => Ok(header),
            Err(e) => Err(e),
        }
    }

    /// Checks a header that was sent or received.
    pub fn validate(&self) -> (r: Result<(), HeaderError>)
        ensures
            match r {
                Ok(_) => header_fault(self.version, self.tunnel_id@, self.connection_id@) is None,
                Err(e) => header_fault(self.version, self.tunnel_id@, self.connection_id@) == Some(
                    e@,
                ),
            },
    {
        if self.version != PROTOCOL_VERSION {
            return Err(HeaderError::UnsupportedVersion(self.version));
        }
        if let Err(e) = validate_identifier("Tunnel ID", self.tunnel_id.as_str()) {
            return Err(e);
        }
        validate_identifier("连接 ID", self.connection_id.as_str())
    }
}

/// The four bytes of a length, the highest first.
pub open spec fn length_bytes(n: int) -> Seq<u8> {
    seq![
        (n / 0x100_0000) as u8,
        (n / 0x1_0000 % 0x100) as u8,
        (n / 0x100 % 0x100) as u8,
        (n % 0x100) as u8,
    ]
}

/// The length that four bytes write, the highest first.
pub open spec fn length_of(b: Seq<u8>) -> int
    recommends
        b.len() == 4,
{
    b[0] * 0x100_0000 + b[1] * 0x1_0000 + b[2] * 0x100 + b[3]
}

/// A header on the wire: its length in four bytes, then its JSON text. A text that is too long
/// is refused.
pub fn frame_header(payload: &Vec<u8>) -> (r: Result<Vec<u8>, HeaderError>)
    ensures
        match r {
            Ok(frame) => payload@.len() <= MAX_HEADER_BYTES && frame@ == length_bytes(
                payload@.len() as int,
            ) + payload@,
            Err(e) => payload@.len() > MAX_HEADER_BYTES && e@ == HeaderFault::TooLarge,
        },
{
    if payload.len() > MAX_HEADER_BYTES {
        return Err(HeaderError::TooLarge);
    }
    let n: u32 = payload.len() as u32;
    let mut frame: Vec<u8> = Vec::new();
    frame.push((n / 0x100_0000) as u8);
    frame.push((n / 0x1_0000 % 0x100) as u8);
    frame.push((n / 0x100 % 0x100) as u8);
    frame.push((n % 0x100) as u8);
    frame.extend_from_slice(payload.as_slice());
    assert(frame@ =~= length_bytes(payload@.len() as int) + payload@);
    Ok(frame)
}

/// The number of bytes of JSON text that follow the four bytes of a length; none at all and too
/// many are refused before anything is read.
pub fn header_length(bytes: &Vec<u8>) -> (r: Result<usize, HeaderError>)
    requires
        bytes@.len() == 4,
    ensures
        match r {
            Ok(n) => n == length_of(bytes@) && 0 < n <= MAX_HEADER_BYTES,
            Err(e) => !(0 < length_of(bytes@) <= MAX_HEADER_BYTES) && e@ == HeaderFault::TooLarge,
        },
{
    let n: u32 = bytes[0] as u32 * 0x100_0000 + bytes[1] as u32 * 0x1_0000 + bytes[2] as u32 * 0x100
        + bytes[3] as u32;
    if n == 0 || n > 8192 {
        return Err(HeaderError::TooLarge);
    }
    Ok(n as usize)
}

/// Accepts a header that was read and decoded; one that could not be decoded is refused.
pub fn accept_header(decoded: Option<LogicalStreamHeader>) -> (r: Result<
    LogicalStreamHeader,
    HeaderError,
>)
    ensures
        match decoded {
            None => r matches Err(e) && e@ == HeaderFault::InvalidJson,
            Some(header) => match r {
                Ok(accepted) => accepted == header && header_fault(
                    header.version,
                    header.tunnel_id@,
                    header.connection_id@,
                ) is None,
                Err(e) => header_fault(header.version, header.tunnel_id@, header.connection_id@)
                    == Some(e@),
            },
        },
{
    match decoded {
        None => Err(HeaderError::InvalidJson),
        Some(header) => match header.validate() {
            Ok(_) => Ok(header),
            Err(e) => Err(e),
        },
    }
}

/// What is read of a stream that a framed header begins is what was written: the length in front,
/// which is accepted, exactly as many bytes as the header has, and then the data behind it.
pub proof fn framed_headers_read_back(payload: Seq<u8>, rest: Seq<u8>)
    requires
        0 < payload.len() <= MAX_HEADER_BYTES,
    ensures
        ({
            let stream = length_bytes(payload.len() as int) + payload + rest;
            let n = length_of(stream.take(4));
            0 < n <= MAX_HEADER_BYTES && n == payload.len() && stream.subrange(4, 4 + n) == payload
                && stream.skip(4 + n) == rest
        }),
{
    let stream = length_bytes(payload.len() as int) + payload + rest;
    assert(stream.take(4) =~= length_bytes(payload.len() as int));
    assert(stream.subrange(4, 4 + payload.len() as int) =~= payload);
    assert(stream.skip(4 + payload.len() as int) =~= rest);
}

/// A header whose identifiers are in order is made, and where it is decoded as it was sent it is
/// accepted.
pub proof fn sent_headers_are_accepted(tunnel: Seq<char>, connection: Seq<char>)
    requires
        identifier_fault("Tunnel ID"@, tunnel) is None,
        identifier_fault("连接 ID"@, connection) is None,
    ensures
        header_fault(PROTOCOL_VERSION, tunnel, connection) is None,
{
}

/// An identifier has one to 256 characters, each a letter, a digit or one of three marks; no other text
/// is one.
pub proof fn identifiers_have_their_form(label: Seq<char>, value: Seq<char>)
    ensures
        identifier_fault(label, value) is None <==> value.len() > 0 && text::byte_len(value) <= 256
            && forall|i: int|
            0 <= i < value.len() ==> {
                let c = #[trigger] value[i];
                ('a' <= c <= 'z') || ('A' <= c <= 'Z') || ('0' <= c <= '9') || c == '-' || c == '_'
                    || c == '.'
            },
{
    if identifier_fault(label, value) is None {
        assert forall|i: int| 0 <= i < value.len() implies ({
            let c = #[trigger] value[i];
            ('a' <= c <= 'z') || ('A' <= c <= 'Z') || ('0' <= c <= '9') || c == '-' || c == '_' || c
                == '.'
        }) by {
            assert(identifier_char(value[i]));
        }
    }
}

/// A header is accepted in the first version with two identifiers, and no other is.
pub proof fn headers_name_a_tunnel_and_a_connection(
    version: u8,
    tunnel: Seq<char>,
    connection: Seq<char>,
)
    ensures
        header_fault(version, tunnel, connection) is None <==> version == 1 && identifier_fault(
            "Tunnel ID"@,
            tunnel,
        ) is None && identifier_fault("连接 ID"@, connection) is None,
        version != 1 ==> header_fault(version, tunnel, connection) == Some(
            HeaderFault::UnsupportedVersion(version),
        ),
{
}

} // verus!
