//! Parsing raw bytes into structured DNS messages: stream-frame stripping and
//! the standard wire-format parser, with name-compression support on decode.

use vstd::prelude::*;
use vstd::slice::{slice_subrange, slice_to_vec};
use crate::types::{
    DnsError, DnsMessage, DnsQuestion, DnsRData, DnsRecord, MessageType, SpecMessage,
    SpecQuestion, SpecRData, SpecRecord,
};

verus! {

/// The most compression jumps one name may follow; a longer pointer chain is
/// a malformed message. Every jump must also point strictly backwards.
pub const MAX_NAME_JUMPS: u32 = 128;

/// The value of two big-endian bytes.
pub open spec fn be16(hi: u8, lo: u8) -> u16 {
    ((hi as int) * 256 + (lo as int)) as u16
}

/// The value of four big-endian bytes.
pub open spec fn be32(b0: u8, b1: u8, b2: u8, b3: u8) -> u32 {
    ((b0 as int) * 0x1000000 + (b1 as int) * 0x10000 + (b2 as int) * 0x100 + (b3 as int)) as u32
}

/// The value of sixteen big-endian bytes (an IPv6 address).
pub open spec fn be128(b: Seq<u8>) -> u128
    recommends
        b.len() == 16,
{
    ((b[0] as int) * 0x1000000000000000000000000000000
        + (b[1] as int) * 0x10000000000000000000000000000
        + (b[2] as int) * 0x100000000000000000000000000
        + (b[3] as int) * 0x1000000000000000000000000
        + (b[4] as int) * 0x10000000000000000000000
        + (b[5] as int) * 0x100000000000000000000
        + (b[6] as int) * 0x1000000000000000000
        + (b[7] as int) * 0x10000000000000000
        + (b[8] as int) * 0x100000000000000
        + (b[9] as int) * 0x1000000000000
        + (b[10] as int) * 0x10000000000
        + (b[11] as int) * 0x100000000
        + (b[12] as int) * 0x1000000
        + (b[13] as int) * 0x10000
        + (b[14] as int) * 0x100
        + (b[15] as int)) as u128
}

/// Parses a wire name at `pos`: length-prefixed labels up to the root byte,
/// or a backwards compression pointer, which ends the name after its two
/// bytes. `None` is a structural violation.
pub open spec fn spec_parse_name(data: Seq<u8>, pos: int, jumps: nat) -> Option<(Seq<Seq<u8>>, int)>
    decreases jumps, data.len() - pos,
{
    if pos < 0 || pos >= data.len() {
        None
    } else {
        let b = data[pos];
        if b == 0 {
            Some((seq![], pos + 1))
        } else if b < 64 {
            if pos + 1 + b <= data.len() {
                match spec_parse_name(data, pos + 1 + b, jumps) {
                    Some((rest, end)) => Some(
                        (seq![data.subrange(pos + 1, pos + 1 + b)] + rest, end),
                    ),
                    None => None,
                }
            } else {
                None
            }
        } else if b >= 192 {
            if jumps > 0 && pos + 1 < data.len() {
                let target = (b - 192) * 256 + data[pos + 1];
                if target < pos {
                    match spec_parse_name(data, target, (jumps - 1) as nat) {
                        Some((labels, _)) => Some((labels, pos + 2)),
                        None => None,
                    }
                } else {
                    None
                }
            } else {
                None
            }
        } else {
            None
        }
    }
}

/// Parses one question-section entry: a name, a record type, and the class
/// bytes (read past, not kept).
pub open spec fn spec_parse_question(data: Seq<u8>, pos: int) -> Option<(SpecQuestion, int)> {
    match spec_parse_name(data, pos, MAX_NAME_JUMPS as nat) {
        Some((name, end)) => if end + 4 <= data.len() {
            Some((SpecQuestion { name, qtype: be16(data[end], data[end + 1]) }, end + 4))
        } else {
            None
        },
        None => None,
    }
}

pub open spec fn spec_parse_questions(data: Seq<u8>, pos: int, count: nat) -> Option<
    (Seq<SpecQuestion>, int),
>
    decreases count,
{
    if count == 0 {
        Some((seq![], pos))
    } else {
        match spec_parse_question(data, pos) {
            Some((q, next_pos)) => match spec_parse_questions(data, next_pos, (count - 1) as nat) {
                Some((qs, end)) => Some((seq![q] + qs, end)),
                None => None,
            },
            None => None,
        }
    }
}

/// Parses one resource record: name, type, class, time-to-live, and payload.
/// Address payloads must have their exact length; an alias payload is a name
/// that must fill the declared payload length; other types are skipped.
pub open spec fn spec_parse_record(data: Seq<u8>, pos: int) -> Option<(SpecRecord, int)> {
    match spec_parse_name(data, pos, MAX_NAME_JUMPS as nat) {
        Some((name, end)) => if end + 10 <= data.len() {
            let rtype = be16(data[end], data[end + 1]);
            let rdlen = be16(data[end + 8], data[end + 9]) as int;
            let rstart = end + 10;
            if rstart + rdlen <= data.len() {
                if rtype == 1 {
                    if rdlen == 4 {
                        Some(
                            (
                                SpecRecord {
                                    name,
                                    data: SpecRData::A(
                                        be32(
                                            data[rstart],
                                            data[rstart + 1],
                                            data[rstart + 2],
                                            data[rstart + 3],
                                        ),
                                    ),
                                },
                                rstart + 4,
                            ),
                        )
                    } else {
                        None
                    }
                } else if rtype == 28 {
                    if rdlen == 16 {
                        Some(
                            (
                                SpecRecord {
                                    name,
                                    data: SpecRData::Aaaa(
                                        be128(data.subrange(rstart, rstart + 16)),
                                    ),
                                },
                                rstart + 16,
                            ),
                        )
                    } else {
                        None
                    }
                } else if rtype == 5 {
                    match spec_parse_name(data, rstart, MAX_NAME_JUMPS as nat) {
                        Some((cname, nend)) => if nend == rstart + rdlen {
                            Some((SpecRecord { name, data: SpecRData::CName(cname) }, nend))
                        } else {
                            None
                        },
                        None => None,
                    }
                } else {
                    Some((SpecRecord { name, data: SpecRData::Other(rtype) }, rstart + rdlen))
                }
            } else {
                None
            }
        } else {
            None
        },
        None => None,
    }
}

pub open spec fn spec_parse_records(data: Seq<u8>, pos: int, count: nat) -> Option<
    (Seq<SpecRecord>, int),
>
    decreases count,
{
    if count == 0 {
        Some((seq![], pos))
    } else {
        match spec_parse_record(data, pos) {
            Some((r, next_pos)) => match spec_parse_records(data, next_pos, (count - 1) as nat) {
                Some((rs, end)) => Some((seq![r] + rs, end)),
                None => None,
            },
            None => None,
        }
    }
}

/// Parses a whole unframed DNS message: the 12-byte header, then the four
/// sections its counts declare (authority and additional records are parsed
/// structurally and dropped), consuming the buffer exactly.
pub open spec fn spec_decode_message(data: Seq<u8>) -> Result<SpecMessage, DnsError> {
    if data.len() < 12 {
        Err(DnsError::MalformedMessage)
    } else {
        let f_hi = data[2];
        let f_lo = data[3];
        let qd = be16(data[4], data[5]);
        let an = be16(data[6], data[7]);
        let ns = be16(data[8], data[9]);
        let ar = be16(data[10], data[11]);
        match spec_parse_questions(data, 12, qd as nat) {
            Some((queries, after_queries)) => match spec_parse_records(
                data,
                after_queries,
                an as nat,
            ) {
                Some((answers, after_answers)) => match spec_parse_records(
                    data,
                    after_answers,
                    (ns + ar) as nat,
                ) {
                    Some((_, end)) => if end == data.len() {
                        Ok(
                            SpecMessage {
                                id: be16(data[0], data[1]),
                                message_type: if f_hi >= 128 {
                                    MessageType::Response
                                } else {
                                    MessageType::Query
                                },
                                op_code: (((f_hi as int) / 8) % 16) as u8,
                                recursion_desired: f_hi % 2 == 1,
                                response_code: ((f_lo as int) % 16) as u8,
                                queries,
                                answers,
                            },
                        )
                    } else {
                        Err(DnsError::MalformedMessage)
                    },
                    None => Err(DnsError::MalformedMessage),
                },
                None => Err(DnsError::MalformedMessage),
            },
            None => Err(DnsError::MalformedMessage),
        }
    }
}

/// What decoding returns on any input: for a stream buffer, the first frame
/// is sliced out (trailing bytes ignored) and decoded unframed; a datagram
/// buffer is decoded unframed as a whole.
pub open spec fn spec_decode(data: Seq<u8>, framed: bool) -> Result<SpecMessage, DnsError> {
    if framed {
        if data.len() < 2 {
            Err(DnsError::TruncatedFrame)
        } else {
            let flen = be16(data[0], data[1]) as int;
            if 2 + flen > data.len() {
                Err(DnsError::TruncatedFrame)
            } else {
                spec_decode_message(data.subrange(2, 2 + flen))
            }
        }
    } else {
        spec_decode_message(data)
    }
}

fn read_u16(data: &[u8], pos: usize) -> (r: u16)
    requires
        pos + 2 <= data@.len(),
    ensures
        r == be16(data@[pos as int], data@[pos + 1]),
{
    (data[pos] as u16) * 256 + (data[pos + 1] as u16)
}

fn read_u32(data: &[u8], pos: usize) -> (r: u32)
    requires
        pos + 4 <= data@.len(),
    ensures
        r == be32(data@[pos as int], data@[pos + 1], data@[pos + 2], data@[pos + 3]),
{
    (data[pos] as u32) * 0x1000000 + (data[pos + 1] as u32) * 0x10000
        + (data[pos + 2] as u32) * 0x100 + (data[pos + 3] as u32)
}

fn read_u128(data: &[u8], pos: usize) -> (r: u128)
    requires
        pos + 16 <= data@.len(),
    ensures
        r == be128(data@.subrange(pos as int, pos + 16)),
{
    let r = (data[pos] as u128) * 0x1000000000000000000000000000000
        + (data[pos + 1] as u128) * 0x10000000000000000000000000000
        + (data[pos + 2] as u128) * 0x100000000000000000000000000
        + (data[pos + 3] as u128) * 0x1000000000000000000000000
        + (data[pos + 4] as u128) * 0x10000000000000000000000
        + (data[pos + 5] as u128) * 0x100000000000000000000
        + (data[pos + 6] as u128) * 0x1000000000000000000
        + (data[pos + 7] as u128) * 0x10000000000000000
        + (data[pos + 8] as u128) * 0x100000000000000
        + (data[pos + 9] as u128) * 0x1000000000000
        + (data[pos + 10] as u128) * 0x10000000000
        + (data[pos + 11] as u128) * 0x100000000
        + (data[pos + 12] as u128) * 0x1000000
        + (data[pos + 13] as u128) * 0x10000
        + (data[pos + 14] as u128) * 0x100
        + (data[pos + 15] as u128);
    proof {
        let b = data@.subrange(pos as int, pos + 16);
        assert(forall|k: int| 0 <= k < 16 ==> b[k] == data@[pos + k]);
    }
    r
}

fn parse_name(data: &[u8], pos: usize, jumps: u32) -> (r: Option<(Vec<Vec<u8>>, usize)>)
    ensures
        match r {
            Some((labels, end)) => spec_parse_name(data@, pos as int, jumps as nat) == Some(
                (labels.deep_view(), end as int),
            ) && end <= data@.len(),
            None => spec_parse_name(data@, pos as int, jumps as nat) is None,
        },
    decreases jumps, data@.len() - pos,
{
    if pos >= data.len() {
        return None;
    }
    let b = data[pos];
    if b == 0 {
        let labels: Vec<Vec<u8>> = Vec::new();
        proof {
            assert(labels.deep_view() =~~= Seq::<Seq<u8>>::empty());
        }
        Some((labels, pos + 1))
    } else if b < 64 {
        let lablen = b as usize;
        if lablen <= data.len() - pos - 1 {
            let label_slice = slice_subrange(data, pos + 1, pos + 1 + lablen);
            let label = slice_to_vec(label_slice);
            match parse_name(data, pos + 1 + lablen, jumps) {
                Some((rest, end)) => {
                    let ghost rest_view = rest.deep_view();
                    let mut labels: Vec<Vec<u8>> = Vec::new();
                    labels.push(label);
                    let mut rest_mut = rest;
                    labels.append(&mut rest_mut);
                    proof {
                        assert(labels.deep_view() =~~= seq![
                            data@.subrange(pos + 1, pos + 1 + b),
                        ] + rest_view);
                    }
                    Some((labels, end))
                },
                None => None,
            }
        } else {
            None
        }
    } else if b >= 192 {
        if jumps > 0 && pos + 1 < data.len() {
            let target = ((b - 192) as usize) * 256 + (data[pos + 1] as usize);
            if target < pos {
                match parse_name(data, target, jumps - 1) {
                    Some((labels, _end)) => Some((labels, pos + 2)),
                    None => None,
                }
            } else {
                None
            }
        } else {
            None
        }
    } else {
        None
    }
}

fn parse_question(data: &[u8], pos: usize) -> (r: Option<(DnsQuestion, usize)>)
    ensures
        match r {
            Some((q, end)) => spec_parse_question(data@, pos as int) == Some((q@, end as int))
                && end <= data@.len(),
            None => spec_parse_question(data@, pos as int) is None,
        },
{
    match parse_name(data, pos, MAX_NAME_JUMPS) {
        Some((labels, end)) => {
            if 4 <= data.len() - end {
                let qtype = read_u16(data, end);
                let q = DnsQuestion { name: crate::types::DnsName { labels }, qtype };
                Some((q, end + 4))
            } else {
                None
            }
        },
        None => None,
    }
}

fn parse_questions(data: &[u8], pos: usize, count: u32) -> (r: Option<(Vec<DnsQuestion>, usize)>)
    requires
        pos <= data@.len(),
    ensures
        match r {
            Some((qs, end)) => spec_parse_questions(data@, pos as int, count as nat) == Some(
                (qs@.map_values(|q: DnsQuestion| q@), end as int),
            ) && end <= data@.len(),
            None => spec_parse_questions(data@, pos as int, count as nat) is None,
        },
    decreases count,
{
    if count == 0 {
        let qs: Vec<DnsQuestion> = Vec::new();
        proof {
            assert(qs@.map_values(|q: DnsQuestion| q@) =~~= Seq::<SpecQuestion>::empty());
        }
        Some((qs, pos))
    } else {
        match parse_question(data, pos) {
            Some((q, next_pos)) => match parse_questions(data, next_pos, count - 1) {
                Some((rest, end)) => {
                    let ghost rest_view = rest@.map_values(|q: DnsQuestion| q@);
                    let ghost q_view = q@;
                    let mut qs: Vec<DnsQuestion> = Vec::new();
                    qs.push(q);
                    let mut rest_mut = rest;
                    qs.append(&mut rest_mut);
                    proof {
                        assert(qs@.map_values(|q: DnsQuestion| q@) =~~= seq![q_view] + rest_view);
                    }
                    Some((qs, end))
                },
                None => None,
            },
            None => None,
        }
    }
}

fn parse_record(data: &[u8], pos: usize) -> (r: Option<(DnsRecord, usize)>)
    ensures
        match r {
            Some((rec, end)) => spec_parse_record(data@, pos as int) == Some((rec@, end as int))
                && end <= data@.len(),
            None => spec_parse_record(data@, pos as int) is None,
        },
{
    match parse_name(data, pos, MAX_NAME_JUMPS) {
        Some((labels, end)) => {
            let name = crate::types::DnsName { labels };
            if 10 <= data.len() - end {
                let rtype = read_u16(data, end);
                let rdlen = read_u16(data, end + 8) as usize;
                let rstart = end + 10;
                if rdlen <= data.len() - rstart {
                    if rtype == 1 {
                        if rdlen == 4 {
                            let addr = read_u32(data, rstart);
                            Some((DnsRecord { name, data: DnsRData::A(addr) }, rstart + 4))
                        } else {
                            None
                        }
                    } else if rtype == 28 {
                        if rdlen == 16 {
                            let addr = read_u128(data, rstart);
                            Some((DnsRecord { name, data: DnsRData::Aaaa(addr) }, rstart + 16))
                        } else {
                            None
                        }
                    } else if rtype == 5 {
                        match parse_name(data, rstart, MAX_NAME_JUMPS) {
                            Some((cname_labels, nend)) => {
                                if nend == rstart + rdlen {
                                    let cname = crate::types::DnsName { labels: cname_labels };
                                    Some(
                                        (
                                            DnsRecord { name, data: DnsRData::CName(cname) },
                                            nend,
                                        ),
                                    )
                                } else {
                                    None
                                }
                            },
                            None => None,
                        }
                    } else {
                        Some((DnsRecord { name, data: DnsRData::Other(rtype) }, rstart + rdlen))
                    }
                } else {
                    None
                }
            } else {
                None
            }
        },
        None => None,
    }
}

fn parse_records(data: &[u8], pos: usize, count: u32) -> (r: Option<(Vec<DnsRecord>, usize)>)
    requires
        pos <= data@.len(),
    ensures
        match r {
            Some((rs, end)) => spec_parse_records(data@, pos as int, count as nat) == Some(
                (rs@.map_values(|rec: DnsRecord| rec@), end as int),
            ) && end <= data@.len(),
            None => spec_parse_records(data@, pos as int, count as nat) is None,
        },
    decreases count,
{
    if count == 0 {
        let rs: Vec<DnsRecord> = Vec::new();
        proof {
            assert(rs@.map_values(|rec: DnsRecord| rec@) =~~= Seq::<SpecRecord>::empty());
        }
        Some((rs, pos))
    } else {
        match parse_record(data, pos) {
            Some((rec, next_pos)) => match parse_records(data, next_pos, count - 1) {
                Some((rest, end)) => {
                    let ghost rest_view = rest@.map_values(|r2: DnsRecord| r2@);
                    let ghost rec_view = rec@;
                    let mut rs: Vec<DnsRecord> = Vec::new();
                    rs.push(rec);
                    let mut rest_mut = rest;
                    rs.append(&mut rest_mut);
                    proof {
                        assert(rs@.map_values(|r2: DnsRecord| r2@) =~~= seq![rec_view]
                            + rest_view);
                    }
                    Some((rs, end))
                },
                None => None,
            },
            None => None,
        }
    }
}

fn parse_message(data: &[u8]) -> (r: Result<DnsMessage, DnsError>)
    ensures
        match r {
            Ok(m) => spec_decode_message(data@) == Ok::<SpecMessage, DnsError>(m@),
            Err(e) => spec_decode_message(data@) == Err::<SpecMessage, DnsError>(e),
        },
{
    if data.len() < 12 {
        return Err(DnsError::MalformedMessage);
    }
    let id = read_u16(data, 0);
    let f_hi = data[2];
    let f_lo = data[3];
    let qd = read_u16(data, 4);
    let an = read_u16(data, 6);
    let ns = read_u16(data, 8);
    let ar = read_u16(data, 10);
    let queries = match parse_questions(data, 12, qd as u32) {
        Some((qs, after)) => (qs, after),
        None => {
            return Err(DnsError::MalformedMessage);
        },
    };
    let (queries, after_queries) = queries;
    let answers = match parse_records(data, after_queries, an as u32) {
        Some((rs, after)) => (rs, after),
        None => {
            return Err(DnsError::MalformedMessage);
        },
    };
    let (answers, after_answers) = answers;
    let tail = match parse_records(data, after_answers, ns as u32 + ar as u32) {
        Some((rs, after)) => (rs, after),
        None => {
            return Err(DnsError::MalformedMessage);
        },
    };
    let (_, end) = tail;
    if end != data.len() {
        return Err(DnsError::MalformedMessage);
    }
    let msg = DnsMessage {
        id,
        message_type: if f_hi >= 128 {
            MessageType::Response
        } else {
            MessageType::Query
        },
        op_code: (f_hi / 8) % 16,
        recursion_desired: f_hi % 2 == 1,
        response_code: f_lo % 16,
        queries,
        answers,
    };
    proof {
        assert(spec_decode_message(data@) == Ok::<SpecMessage, DnsError>(msg@));
    }
    Ok(msg)
}

/// Parses raw bytes into a structured DNS message.
///
/// With `used_by_tcp` the buffer is a stream frame: a 2-byte big-endian
/// length prefix must be present and the buffer must hold at least that many
/// further bytes (`TruncatedFrame` otherwise); bytes beyond the first frame
/// are ignored. Without it the whole buffer is one message. Any wire-format
/// violation is `MalformedMessage`. Decoding is a pure function of the bytes
/// and the flag, stated exactly by `spec_decode`.
pub fn parse_data_to_dns_message(data: &[u8], used_by_tcp: bool) -> (r: Result<
    DnsMessage,
    DnsError,
>)
    ensures
        match r {
            Ok(m) => spec_decode(data@, used_by_tcp) == Ok::<SpecMessage, DnsError>(m@),
            Err(e) => spec_decode(data@, used_by_tcp) == Err::<SpecMessage, DnsError>(e),
        },
{
    if used_by_tcp {
        if data.len() < 2 {
            return Err(DnsError::TruncatedFrame);
        }
        let flen = read_u16(data, 0) as usize;
        if flen > data.len() - 2 {
            return Err(DnsError::TruncatedFrame);
        }
        let frame = slice_subrange(data, 2, 2 + flen);
        parse_message(frame)
    } else {
        parse_message(data)
    }
}

} // verus!
