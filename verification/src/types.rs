//! The shared data model: a structured DNS message, its record data, the
//! addresses extracted from it, and the error taxonomy of the whole codec.

use vstd::prelude::*;

verus! {

/// Wire code of an IPv4 address record.
pub const RECORD_TYPE_A: u16 = 1;

/// Wire code of an alias (canonical name) record.
pub const RECORD_TYPE_CNAME: u16 = 5;

/// Wire code of an IPv6 address record.
pub const RECORD_TYPE_AAAA: u16 = 28;

/// Whether a message carries a question or an answer (the QR header bit).
#[derive(Clone, Copy, PartialEq, Eq, Structural, Debug)]
pub enum MessageType {
    Query,
    Response,
}

/// A resolved network address. The octets are packed big-endian, so the
/// IPv4 address `a.b.c.d` is `V4(a<<24 | b<<16 | c<<8 | d)`.
#[derive(Clone, Copy, PartialEq, Eq, Structural, Debug)]
pub enum IpAddress {
    V4(u32),
    V6(u128),
}

/// Every failure the codec can report: encode-time rejections, framing and
/// wire-format violations, and protocol-level outcomes of a response.
#[derive(Debug)]
pub enum DnsError {
    /// The domain name handed to the encoder is not a valid hostname.
    InvalidDomainName,
    /// A message longer than 65535 bytes cannot be framed for a stream.
    MessageTooLarge,
    /// A stream buffer is shorter than its length prefix declares.
    TruncatedFrame,
    /// The bytes violate the DNS wire format.
    MalformedMessage,
    /// The server reported a response code other than "no error".
    ProtocolError(u8),
    /// Only alias answers were found; the caller should re-query this name.
    UnresolvedAlias(String),
    /// A no-error response with neither an address nor an alias answer.
    NoUsableAnswer,
    /// The query section is empty, so no request name can be extracted.
    NoQueryPresent,
}

/// A domain name in wire-name form: the sequence of its labels, each a
/// sequence of bytes (without length prefixes or the root terminator).
pub struct DnsName {
    pub labels: Vec<Vec<u8>>,
}

impl View for DnsName {
    type V = Seq<Seq<u8>>;

    open spec fn view(&self) -> Seq<Seq<u8>> {
        self.labels.deep_view()
    }
}

/// One entry of the question section: a name and the requested record type.
pub struct DnsQuestion {
    pub name: DnsName,
    pub qtype: u16,
}

/// The mathematical model of a question.
pub ghost struct SpecQuestion {
    pub name: Seq<Seq<u8>>,
    pub qtype: u16,
}

impl View for DnsQuestion {
    type V = SpecQuestion;

    open spec fn view(&self) -> SpecQuestion {
        SpecQuestion { name: self.name@, qtype: self.qtype }
    }
}

/// The payload of an answer record, tagged by record kind. Kinds other than
/// address and alias are carried as `Other` with their type code.
pub enum DnsRData {
    A(u32),
    Aaaa(u128),
    CName(DnsName),
    Other(u16),
}

/// The mathematical model of an answer payload.
pub ghost enum SpecRData {
    A(u32),
    Aaaa(u128),
    CName(Seq<Seq<u8>>),
    Other(u16),
}

impl View for DnsRData {
    type V = SpecRData;

    open spec fn view(&self) -> SpecRData {
        match self {
            DnsRData::A(a) => SpecRData::A(*a),
            DnsRData::Aaaa(a) => SpecRData::Aaaa(*a),
            DnsRData::CName(n) => SpecRData::CName(n@),
            DnsRData::Other(t) => SpecRData::Other(*t),
        }
    }
}

/// One answer record: the name it concerns and its payload.
pub struct DnsRecord {
    pub name: DnsName,
    pub data: DnsRData,
}

/// The mathematical model of an answer record.
pub ghost struct SpecRecord {
    pub name: Seq<Seq<u8>>,
    pub data: SpecRData,
}

impl View for DnsRecord {
    type V = SpecRecord;

    open spec fn view(&self) -> SpecRecord {
        SpecRecord { name: self.name@, data: self.data@ }
    }
}

/// A parsed DNS message: the header fields the codec cares about, the
/// question section, and the answer section.
pub struct DnsMessage {
    pub id: u16,
    pub message_type: MessageType,
    pub op_code: u8,
    pub recursion_desired: bool,
    pub response_code: u8,
    pub queries: Vec<DnsQuestion>,
    pub answers: Vec<DnsRecord>,
}

/// The mathematical model of a message.
pub ghost struct SpecMessage {
    pub id: u16,
    pub message_type: MessageType,
    pub op_code: u8,
    pub recursion_desired: bool,
    pub response_code: u8,
    pub queries: Seq<SpecQuestion>,
    pub answers: Seq<SpecRecord>,
}

impl View for DnsMessage {
    type V = SpecMessage;

    open spec fn view(&self) -> SpecMessage {
        SpecMessage {
            id: self.id,
            message_type: self.message_type,
            op_code: self.op_code,
            recursion_desired: self.recursion_desired,
            response_code: self.response_code,
            queries: self.queries@.map_values(|q: DnsQuestion| q@),
            answers: self.answers@.map_values(|r: DnsRecord| r@),
        }
    }
}

} // verus!
